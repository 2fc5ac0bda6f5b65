# gateway-for-vertex-ai

An OpenAI-compatible gateway for Google Vertex AI. Clients store a static key;
the gateway holds the Google Cloud credentials and refreshes access tokens.

It also carries the thought signatures of tool calls across turns. The service
attaches a signature to a tool call in a field that standard clients drop, and
asks for it back with the next request. The gateway folds it into the id of the
call, which clients return unchanged, and restores it on the way back:

```text
Vertex  -> gateway:  id = "call_abc", signature = "AY89..."
gateway -> client:   id = "call_abc__thought__AY89..."
client  -> gateway:  id = "call_abc__thought__AY89..."
gateway -> Vertex:   id = "call_abc", signature restored
```

No state is kept between requests.

## Layout

- `src/` is the library, written in Verus. Every function states what it does,
  and the proof functions named `law_..` state what holds of several together.
  - `thought`: packing and restoring signatures, merging streamed tool calls
  - `sse`: lines of an event stream
  - `forward`: what is made of an answer, whole or streamed
  - `protocols::openai`: the request that goes to the service
  - `routes`: the check of the key, `/health`, `/v1/models`
  - `config`: project, region, aliases
  - `observe`: token counts
  - `json`, `table`, `codec`, `text`, `reply`: documents, strings and replies
- `app/` is what surrounds it: the HTTP server and client, credentials.
  `main.rs` is the program; `lib.rs` offers the router, `chat`, the state and the
  traits for tokens and observers to a host application.
- `tests/` runs the library.

## Environment

| Variable          | Meaning                                            |
|-------------------|----------------------------------------------------|
| `GCP_PROJECT_ID`  | the project, required                              |
| `GCP_LOCATION`    | the region, `global` if unset                      |
| `GATEWAY_API_KEY` | the key that clients present; empty means no check |
| `MODEL_ALIASES`   | `{"alias":"google/model-id"}`                      |
| `BIND_ADDR`       | the address, `127.0.0.1:8787` if unset             |
