//! The forwarding core: what is made of an answer, whole or streamed.
//!
//! An answer that is not streamed, or that is an error, is read whole and sent
//! on as JSON. A stream is relayed event by event. Text passes through as it
//! comes; fragments of tool calls are collected, and leave consolidated just
//! before the chunk that ends the turn, with their signatures in their ids. The
//! same pass reads the token counts.
//!
//! Only the first choice of a chunk is looked at.

use crate::codec::{parse, render};
use crate::json::{Json, JsonValue};
use crate::observe::{parse_usage, CompletionEvent, Usage};
use crate::reply::{error_body, is_success, Reply, BAD_GATEWAY};
use crate::sse::{data_payload, LineAccumulator};
use crate::thought::{pack_response, usage_of, ToolCallAccumulator};
use vstd::prelude::*;

verus! {

// ------------------------------------------------------------ whole answers

/// The model that a request names, or the empty text.
pub open spec fn model_in(body: Json) -> Seq<char> {
    match body.field("model"@) {
        Some(Json::Text(name)) => name,
        _ => Seq::empty(),
    }
}

/// The model that a request names, or the empty string.
pub fn model_of(body: &JsonValue) -> (r: String)
    ensures
        r@ == model_in(body@),
{
    match body.get("model") {
        Some(v) => match v.as_str() {
            Some(name) => name.to_owned(),
            None => String::new(),
        },
        None => String::new(),
    }
}

/// An error raised while calling the model.
pub fn upstream_error(msg: String) -> (r: Reply)
    ensures
        r.status == 502,
        r.body@ == crate::reply::error_json(msg@),
{
    Reply { status: BAD_GATEWAY, body: error_body(msg.as_str()) }
}

/// The answer where a request could not be sent.
pub fn request_failed(reason: &str) -> (r: Reply)
    ensures
        r.status == 502,
        r.body@ == crate::reply::error_json("request to Vertex failed: "@ + reason@),
{
    let mut msg = "request to Vertex failed: ".to_owned();
    msg.append(reason);
    upstream_error(msg)
}

/// Whether an answer is relayed as a stream.
///
/// An error is read whole even where a stream was asked for: once a stream has
/// begun its status is sent and cannot be taken back, and clients do not show
/// an error that hides in an event.
pub fn relays_as_stream(streaming: bool, status: u16) -> (r: bool)
    ensures
        r == (streaming && 200 <= status <= 299),
{
    streaming && is_success(status)
}

/// The token counts that a document carries.
pub open spec fn usage_within(chunk: Json) -> Option<Usage> {
    match chunk.field("usage"@) {
        Some(Json::Object(members)) => Some(crate::observe::usage_in(members)),
        _ => None,
    }
}

/// Reads the token counts that a document carries.
fn read_usage(chunk: &JsonValue) -> (r: Option<Usage>)
    ensures
        r == usage_within(chunk@),
{
    match usage_of(chunk) {
        Some(members) => Some(parse_usage(members)),
        None => None,
    }
}

/// A whole answer as it is sent on: of a success the tool calls are packed.
pub open spec fn settled(status: u16, payload: Json) -> Json {
    if 200 <= status <= 299 {
        crate::thought::packed_response(payload)
    } else {
        payload
    }
}

/// The document in the text of an answer; a text that is no JSON is the message
/// of an error.
pub open spec fn payload_in(text: Seq<char>) -> Json {
    match crate::codec::parsed(text) {
        Some(v) => v,
        None => crate::reply::error_json(text),
    }
}

/// Settles a whole answer: the reply, and the event that tells of it.
pub fn settle_document(
    status: u16,
    payload: JsonValue,
    model: String,
    duration: std::time::Duration,
) -> (r: (Reply, CompletionEvent))
    ensures
        r.0.status == status,
        r.0.body@ == settled(status, payload@),
        r.1.model == model,
        r.1.status == status,
        !r.1.streamed,
        r.1.duration == duration,
        r.1.usage == usage_within(payload@),
{
    let mut body = payload;
    let usage = read_usage(&body);
    if is_success(status) {
        pack_response(&mut body);
    }
    (Reply { status, body }, CompletionEvent { model, status, streamed: false, duration, usage })
}

/// Settles the text of a whole answer.
pub fn settle(
    status: u16,
    text: &str,
    model: String,
    duration: std::time::Duration,
) -> (r: (Reply, CompletionEvent))
    ensures
        r.0.status == status,
        r.0.body@ == settled(status, payload_in(text@)),
        r.1.model == model,
        r.1.status == status,
        !r.1.streamed,
        r.1.duration == duration,
        r.1.usage == usage_within(payload_in(text@)),
{
    let payload = match parse(text) {
        Some(v) => v,
        None => error_body(text),
    };
    settle_document(status, payload, model, duration)
}

// ------------------------------------------------------- chunks of a stream

/// The first choice of a chunk. Choices are an array; an object with a member
/// named `0` is read like one.
pub open spec fn first_choice_in(chunk: Json) -> Option<Json> {
    match chunk.field("choices"@) {
        Some(Json::Array(choices)) => if choices.len() > 0 {
            Some(choices[0])
        } else {
            None
        },
        Some(choices) => choices.field("0"@),
        None => None,
    }
}

/// The delta of the first choice of a chunk.
pub open spec fn first_delta_in(chunk: Json) -> Option<Json> {
    crate::json::field_of(first_choice_in(chunk), "delta"@)
}

/// The fragments of tool calls that a chunk carries.
pub open spec fn fragments_in(chunk: Json) -> Option<Seq<Json>> {
    match crate::json::field_of(first_delta_in(chunk), "tool_calls"@) {
        Some(Json::Array(fragments)) => Some(fragments),
        _ => None,
    }
}

/// The chunk ends the turn: it names a reason for its end.
pub open spec fn ends_turn(chunk: Json) -> bool {
    match crate::json::field_of(first_choice_in(chunk), "finish_reason"@) {
        Some(reason) => reason != Json::Null,
        None => false,
    }
}

/// A choice without the tool calls in its delta.
pub open spec fn choice_without_calls(choice: Json) -> Json {
    match choice.field("delta"@) {
        Some(delta) => choice.with_field("delta"@, delta.without_field("tool_calls"@)),
        None => choice,
    }
}

/// A list of choices without the tool calls in the delta of the first.
pub open spec fn choices_without_calls(choices: Json) -> Json {
    match choices {
        Json::Array(all) => if all.len() > 0 {
            Json::Array(all.update(0, choice_without_calls(all[0])))
        } else {
            choices
        },
        _ => match choices.field("0"@) {
            Some(choice) => choices.with_field("0"@, choice_without_calls(choice)),
            None => choices,
        },
    }
}

/// A chunk without the tool calls in the delta of its first choice.
pub open spec fn chunk_without_calls(chunk: Json) -> Json {
    match chunk.field("choices"@) {
        Some(choices) => chunk.with_field("choices"@, choices_without_calls(choices)),
        None => chunk,
    }
}

/// A chunk as it passes on: fragments of tool calls are taken out, anything
/// else stays.
pub open spec fn passing(chunk: Json) -> Json {
    if fragments_in(chunk) is Some {
        chunk_without_calls(chunk)
    } else {
        chunk
    }
}

/// The delta holds tool calls and nothing beside them.
pub open spec fn only_calls(chunk: Json) -> bool {
    &&& fragments_in(chunk) is Some
    &&& forall|name: Seq<char>| #[trigger]
        first_delta_in(chunk)->0->Object_0.contains_key(name) ==> name == "tool_calls"@
}

/// What is known of a turn in the middle of its stream: the tool calls that
/// were collected, the token counts, and the chunk that ends the turn.
#[verifier::ext_equal]
pub struct Turn {
    pub calls: Seq<(u64, Json)>,
    pub usage: Option<Usage>,
    pub held: Option<Json>,
}

impl Turn {
    /// Nothing is known of a turn that has not begun.
    pub open spec fn start() -> Turn {
        Turn { calls: Seq::empty(), usage: None, held: None }
    }

    /// The turn after a chunk: its fragments are absorbed, its token counts
    /// replace those before, and it is held back where it ends the turn.
    pub open spec fn after(self, chunk: Json) -> Turn {
        Turn {
            calls: match fragments_in(chunk) {
                Some(fragments) => crate::thought::absorbed_all(self.calls, fragments),
                None => self.calls,
            },
            usage: match usage_within(chunk) {
                Some(u) => Some(u),
                None => self.usage,
            },
            held: if ends_turn(chunk) {
                Some(passing(chunk))
            } else {
                self.held
            },
        }
    }

    /// The turn after a line of the stream.
    pub open spec fn after_line(self, line: Seq<char>) -> Turn {
        match crate::sse::payload_of(line) {
            Some(payload) => match crate::codec::parsed(payload) {
                Some(chunk) => self.after(chunk),
                None => self,
            },
            None => self,
        }
    }
}

/// What a chunk sends on at once: itself without fragments of tool calls,
/// unless it held nothing else or ends the turn.
pub open spec fn sent_on(chunk: Json) -> Option<Json> {
    if ends_turn(chunk) || only_calls(chunk) {
        None
    } else {
        Some(passing(chunk))
    }
}

/// An event of the stream that carries a document.
pub open spec fn event(v: Json) -> Seq<char> {
    "data: "@ + crate::codec::rendered(v) + "\n\n"@
}

/// What a line sends on at once. A payload that is no JSON is sent on as it is:
/// an unknown line is of more use than none.
pub open spec fn line_sent_on(line: Seq<char>) -> Option<Seq<char>> {
    match crate::sse::payload_of(line) {
        Some(payload) => match crate::codec::parsed(payload) {
            Some(chunk) => match sent_on(chunk) {
                Some(v) => Some(event(v)),
                None => None,
            },
            None => Some(line + "\n\n"@),
        },
        None => None,
    }
}

/// The first choice of a chunk.
fn first_choice(chunk: &JsonValue) -> (r: Option<&JsonValue>)
    ensures
        match r {
            Some(v) => first_choice_in(chunk@) == Some(v@),
            None => first_choice_in(chunk@) is None,
        },
{
    match chunk.get("choices") {
        Some(choices) => match choices {
            JsonValue::Array(all) => {
                proof {
                    crate::json::lemma_all_json(all@);
                }
                if all.len() > 0 {
                    Some(&all[0])
                } else {
                    None
                }
            },
            _ => choices.get("0"),
        },
        None => None,
    }
}

/// The delta of the first choice of a chunk.
fn first_delta(chunk: &JsonValue) -> (r: Option<&JsonValue>)
    ensures
        match r {
            Some(v) => first_delta_in(chunk@) == Some(v@),
            None => first_delta_in(chunk@) is None,
        },
{
    match first_choice(chunk) {
        Some(choice) => choice.get("delta"),
        None => None,
    }
}

/// Whether a chunk ends the turn.
fn is_terminal(chunk: &JsonValue) -> (r: bool)
    ensures
        r == ends_turn(chunk@),
{
    match first_choice(chunk) {
        Some(choice) => match choice.get("finish_reason") {
            Some(reason) => !reason.is_null(),
            None => false,
        },
        None => false,
    }
}

/// Takes the tool calls out of the delta of a choice.
fn drop_calls_of_choice(choice: &mut JsonValue)
    ensures
        final(choice)@ == choice_without_calls(old(choice)@),
{
    if let Some(delta) = choice.get_mut("delta") {
        delta.remove("tool_calls");
    }
}

/// Takes the tool calls out of the delta of the first choice.
fn drop_calls_of_first(choices: &mut JsonValue)
    ensures
        final(choices)@ == choices_without_calls(old(choices)@),
{
    if let JsonValue::Array(all) = choices {
        drop_calls_of_head(all);
    } else if let Some(choice) = choices.get_mut("0") {
        drop_calls_of_choice(choice);
    }
}

/// Takes the tool calls out of the delta of the first of some choices.
fn drop_calls_of_head(all: &mut Vec<JsonValue>)
    ensures
        Json::Array(crate::json::all_json(final(all)@)) == choices_without_calls(
            Json::Array(crate::json::all_json(old(all)@)),
        ),
{
    if all.len() > 0 {
        drop_calls_of_choice(&mut all[0]);
    }
    proof {
        crate::json::lemma_all_json(old(all)@);
        crate::json::lemma_all_json(all@);
        let before = crate::json::all_json(old(all)@);
        if before.len() > 0 {
            assert(crate::json::all_json(all@) =~= before.update(
                0,
                choice_without_calls(before[0]),
            ));
        } else {
            assert(crate::json::all_json(all@) =~= before);
        }
    }
}

/// Takes the tool calls out of a chunk.
fn drop_calls(chunk: &mut JsonValue)
    ensures
        final(chunk)@ == chunk_without_calls(old(chunk)@),
{
    if let Some(choices) = chunk.get_mut("choices") {
        drop_calls_of_first(choices);
    }
}

/// The first choice of a chunk whose tool calls were taken out.
proof fn lemma_first_choice_without_calls(chunk: Json)
    ensures
        first_choice_in(chunk_without_calls(chunk)) == (match first_choice_in(chunk) {
            Some(choice) => Some(choice_without_calls(choice)),
            None => None,
        }),
        ends_turn(chunk_without_calls(chunk)) == ends_turn(chunk),
{
    reveal_strlit("delta");
    reveal_strlit("finish_reason");
    assert("delta"@.len() != "finish_reason"@.len());
}

/// Decides what to do with one chunk of the stream: the chunk to send on, or
/// nothing where it was absorbed or is held back.
pub fn process_chunk(
    chunk: JsonValue,
    tools: &mut ToolCallAccumulator,
    usage: &mut Option<Usage>,
    finish_chunk: &mut Option<JsonValue>,
) -> (r: Option<JsonValue>)
    ensures
        turn_of(*final(tools), *final(usage), *final(finish_chunk)) == turn_of(
            *old(tools),
            *old(usage),
            *old(finish_chunk),
        ).after(chunk@),
        json_of(r) == sent_on(chunk@),
{
    let mut chunk = chunk;
    let ghost before = chunk@;
    if let Some(u) = read_usage(&chunk) {
        *usage = Some(u);
    }
    let has_fragments = match first_delta(&chunk) {
        Some(delta) => match delta.get("tool_calls") {
            Some(calls) => match calls.as_array() {
                Some(fragments) => {
                    tools.absorb(fragments.as_slice());
                    true
                },
                None => false,
            },
            None => false,
        },
        None => false,
    };
    assert(has_fragments == (fragments_in(before) is Some));
    let terminal = is_terminal(&chunk);
    if has_fragments {
        // The same chunk may carry text, so only the tool calls are taken out.
        drop_calls(&mut chunk);
        proof {
            lemma_first_choice_without_calls(before);
        }
        if let Some(delta) = first_delta(&chunk) {
            if let Some(rest) = delta.as_object() {
                let empty = rest.is_empty();
                proof {
                    crate::json::lemma_members(*rest);
                    let members = first_delta_in(before)->0->Object_0;
                    assert(crate::json::members_json(*rest) == members.remove("tool_calls"@));
                    assert(rest@.dom() =~= members.remove("tool_calls"@).dom());
                    if empty {
                        assert forall|name: Seq<char>| #[trigger]
                            members.contains_key(name) implies name == "tool_calls"@ by {
                            if name != "tool_calls"@ {
                                assert(rest@.dom().contains(name));
                            }
                        }
                    } else if only_calls(before) {
                        assert(rest@.dom() =~= Set::empty());
                    }
                }
                if empty && !terminal {
                    return None;
                }
            }
        }
    }
    if terminal {
        // Held back, so that the consolidated tool calls can go before it.
        *finish_chunk = Some(chunk);
        return None;
    }
    Some(chunk)
}

/// The turn that these parts describe.
pub open spec fn turn_of(
    tools: ToolCallAccumulator,
    usage: Option<Usage>,
    finish_chunk: Option<JsonValue>,
) -> Turn {
    Turn { calls: tools@, usage, held: json_of(finish_chunk) }
}

/// What a value says, where there is one.
pub open spec fn json_of(v: Option<JsonValue>) -> Option<Json> {
    match v {
        Some(j) => Some(j@),
        None => None,
    }
}

/// The sign of completion carries `[DONE]`, and no other event does.
proof fn lemma_done_event(text: Seq<char>)
    ensures
        "data: "@ + text + "\n\n"@ == done_event() <==> text == "[DONE]"@,
{
    reveal_strlit("data: ");
    reveal_strlit("\n\n");
    reveal_strlit("[DONE]");
    reveal_strlit("data: [DONE]\n\n");
    let whole = "data: "@ + text + "\n\n"@;
    assert("data: "@.len() == 6 && "\n\n"@.len() == 2 && "[DONE]"@.len() == 6);
    assert(done_event() =~= "data: "@ + "[DONE]"@ + "\n\n"@);
    if whole == done_event() {
        assert(text.len() == 6);
        assert(text =~= whole.subrange(6, 12));
        assert("[DONE]"@ =~= done_event().subrange(6, 12));
    }
}

/// An event that carries a document.
pub fn sse_line(chunk: &JsonValue) -> (r: String)
    ensures
        r@ == event(chunk@),
        r@ != done_event(),
{
    let text = render(chunk);
    let mut out = "data: ".to_owned();
    out.append(text.as_str());
    out.append("\n\n");
    proof {
        lemma_done_event(text@);
    }
    out
}

/// An event that reports an error.
pub fn sse_error(message: &str) -> (r: String)
    ensures
        r@ == event(crate::reply::error_json(message@)),
        r@ != done_event(),
{
    sse_line(&error_body(message))
}

/// Decides what to do with one line of the stream: the text to send on, or
/// nothing where the line was consumed.
pub fn process_line(
    line: &str,
    tools: &mut ToolCallAccumulator,
    usage: &mut Option<Usage>,
    finish_chunk: &mut Option<JsonValue>,
) -> (r: Option<String>)
    ensures
        turn_of(*final(tools), *final(usage), *final(finish_chunk)) == turn_of(
            *old(tools),
            *old(usage),
            *old(finish_chunk),
        ).after_line(line@),
        crate::text::string_of(r) == line_sent_on(line@),
        r matches Some(out) ==> out@ != done_event(),
{
    let payload = match data_payload(line) {
        Some(payload) => payload,
        None => {
            return None;
        },
    };
    match parse(payload) {
        Some(chunk) => match process_chunk(chunk, tools, usage, finish_chunk) {
            Some(v) => Some(sse_line(&v)),
            None => None,
        },
        None => {
            let mut out = line.to_owned();
            out.append("\n\n");
            proof {
                if out@ == done_event() {
                    reveal_strlit("data:");
                    reveal_strlit("data: ");
                    reveal_strlit("\n\n");
                    reveal_strlit("[DONE]");
                    reveal_strlit("data: [DONE]\n\n");
                    assert(line@ =~= out@.take(out@.len() - 2));
                    assert(line@.skip(5).skip(1) =~= "[DONE]"@);
                }
            }
            Some(out)
        },
    }
}

// ------------------------------------------------------- the end of a turn

/// The choice that carries the consolidated tool calls.
pub open spec fn calls_choice(calls: Seq<Json>) -> Json {
    Json::Object(
        map![
            "index"@ => Json::Num(crate::json::number_of(0)),
            "delta"@ => Json::Object(
                map!["role"@ => Json::Text("assistant"@), "tool_calls"@ => Json::Array(calls)],
            ),
            "finish_reason"@ => Json::Null,
        ],
    )
}

/// The chunk that carries the consolidated tool calls: like the chunk that it
/// goes before, with its own choice and without token counts.
pub open spec fn calls_chunk(reference: Json, calls: Seq<Json>) -> Json {
    let base = if reference == Json::Null {
        Json::Object(Map::empty())
    } else {
        reference
    };
    base.with_field("choices"@, Json::Array(seq![calls_choice(calls)])).without_field("usage"@)
}

/// The reason for the end of a turn that gave none. After tool calls it is
/// those: a client that reads `stop` would never make the calls.
pub open spec fn inferred_reason(had_calls: bool) -> Seq<char> {
    if had_calls {
        "tool_calls"@
    } else {
        "stop"@
    }
}

/// The last chunk of a turn that had none.
pub open spec fn inferred_end(model: Seq<char>, had_calls: bool) -> Json {
    Json::Object(
        map![
            "object"@ => Json::Text("chat.completion.chunk"@),
            "model"@ => Json::Text(model),
            "choices"@ => Json::Array(
                seq![
                    Json::Object(
                        map![
                            "index"@ => Json::Num(crate::json::number_of(0)),
                            "delta"@ => Json::Object(Map::empty()),
                            "finish_reason"@ => Json::Text(inferred_reason(had_calls)),
                        ],
                    ),
                ],
            ),
        ],
    )
}

/// Token counts as a `usage` object.
pub open spec fn usage_json(u: Usage) -> Json {
    Json::Object(
        map![
            "prompt_tokens"@ => Json::Num(crate::json::number_of(u.prompt_tokens)),
            "completion_tokens"@ => Json::Num(crate::json::number_of(u.completion_tokens)),
            "completion_tokens_details"@ => Json::Object(
                map!["reasoning_tokens"@ => Json::Num(crate::json::number_of(u.reasoning_tokens))],
            ),
        ],
    )
}

/// A chunk with the token counts attached, where they are known and it has none.
pub open spec fn with_usage(chunk: Json, usage: Option<Usage>) -> Json {
    match usage {
        Some(u) => if chunk.field("usage"@) is None {
            chunk.with_field("usage"@, usage_json(u))
        } else {
            chunk
        },
        None => chunk,
    }
}

impl Turn {
    /// The chunk that ends the turn: the one that was held back, or one that
    /// says what happened.
    pub open spec fn last_chunk(self, model: Seq<char>) -> Json {
        with_usage(
            match self.held {
                Some(chunk) => chunk,
                None => inferred_end(model, self.calls.len() > 0),
            },
            self.usage,
        )
    }

    /// The chunks with which the turn ends: the consolidated tool calls, if
    /// there are any, and behind them the chunk that ends it.
    pub open spec fn closing(self, model: Seq<char>) -> Seq<Json> {
        let last = self.last_chunk(model);
        if self.calls.len() > 0 {
            let reference = match self.held {
                Some(chunk) => chunk,
                None => Json::Object(Map::empty()),
            };
            seq![calls_chunk(reference, crate::thought::finished(self.calls)), last]
        } else {
            seq![last]
        }
    }
}

/// The sign that the turn is complete.
pub open spec fn done_event() -> Seq<char> {
    "data: [DONE]\n\n"@
}

/// The events with which a stream ends. One that was cut in the middle of an
/// event reports that and no tool calls, whose arguments may be cut too. The
/// sign of completion goes out only where nothing went wrong: a client that
/// stops reading at it would take an error for a success.
pub open spec fn ending(turn: Turn, model: Seq<char>, truncated: bool, failed: bool) -> Seq<
    Seq<char>,
> {
    let closing = if truncated {
        seq![event(crate::reply::error_json("upstream ended before the response completed"@))]
    } else {
        turn.closing(model).map_values(|v: Json| event(v))
    };
    if truncated || failed {
        closing
    } else {
        closing.push(done_event())
    }
}

/// Builds the chunk that carries the consolidated tool calls, with the id and
/// the metadata of the chunk that it goes before.
pub fn tool_calls_chunk(reference: &JsonValue, calls: Vec<JsonValue>) -> (r: JsonValue)
    requires
        reference@ is Object || reference@ is Null,
    ensures
        r@ == calls_chunk(reference@, crate::json::all_json(calls@)),
{
    let delta = JsonValue::object().with("role", JsonValue::text("assistant")).with(
        "tool_calls",
        JsonValue::array(calls),
    );
    let choice = JsonValue::object().with("index", JsonValue::count(0)).with("delta", delta).with(
        "finish_reason",
        JsonValue::Null,
    );
    let choices = one(choice);
    let mut chunk = if reference.is_null() {
        JsonValue::object()
    } else {
        reference.clone()
    };
    chunk.insert("choices", choices);
    chunk.remove("usage");
    chunk
}

/// An array with one element.
fn one(item: JsonValue) -> (r: JsonValue)
    ensures
        r@ == Json::Array(seq![item@]),
{
    let items = vec![item];
    proof {
        crate::json::lemma_all_json(items@);
        assert(crate::json::all_json(items@) =~= seq![item@]);
    }
    JsonValue::array(items)
}

/// Builds the last chunk of a turn that had none.
fn terminal_chunk(model: &str, had_calls: bool) -> (r: JsonValue)
    ensures
        r@ == inferred_end(model@, had_calls),
{
    let reason = if had_calls {
        "tool_calls"
    } else {
        "stop"
    };
    let choice = JsonValue::object().with("index", JsonValue::count(0)).with(
        "delta",
        JsonValue::object(),
    ).with("finish_reason", JsonValue::text(reason));
    JsonValue::object().with("object", JsonValue::text("chat.completion.chunk")).with(
        "model",
        JsonValue::text(model),
    ).with("choices", one(choice))
}

/// Token counts as a `usage` object.
fn usage_object(u: &Usage) -> (r: JsonValue)
    ensures
        r@ == usage_json(*u),
        crate::observe::usage_in(usage_json(*u)->Object_0) == *u,
{
    let details = JsonValue::object().with(
        "reasoning_tokens",
        JsonValue::count(u.reasoning_tokens),
    );
    proof {
        reveal_strlit("prompt_tokens");
        reveal_strlit("completion_tokens");
        reveal_strlit("completion_tokens_details");
        assert("prompt_tokens"@.len() == 13);
        assert("completion_tokens"@.len() == 17);
        assert("completion_tokens_details"@.len() == 25);
    }
    JsonValue::object().with("prompt_tokens", JsonValue::count(u.prompt_tokens)).with(
        "completion_tokens",
        JsonValue::count(u.completion_tokens),
    ).with("completion_tokens_details", details)
}

/// A last chunk that was made up has no token counts of its own.
proof fn lemma_inferred_end_has_no_usage(model: Seq<char>, had_calls: bool)
    ensures
        inferred_end(model, had_calls).field("usage"@) is None,
{
    reveal_strlit("usage");
    reveal_strlit("object");
    reveal_strlit("model");
    reveal_strlit("choices");
    assert("usage"@.len() == 5 && "object"@.len() == 6 && "choices"@.len() == 7);
    assert("usage"@[0] != "model"@[0]);
}

/// The chunks with which a turn ends. Token counts that are attached to the last
/// one read back as they were.
pub fn closing_chunks(
    tools: ToolCallAccumulator,
    usage: &Option<Usage>,
    finish_chunk: Option<JsonValue>,
    model: &str,
) -> (r: Vec<JsonValue>)
    requires
        finish_chunk matches Some(chunk) ==> chunk@ is Object,
    ensures
        crate::json::all_json(r@) == turn_of(tools, *usage, finish_chunk).closing(model@),
        usage is Some && (finish_chunk matches Some(chunk) ==> chunk@.field("usage"@) is None)
            ==> usage_within(turn_of(tools, *usage, finish_chunk).last_chunk(model@)) == *usage,
{
    let ghost turn = turn_of(tools, *usage, finish_chunk);
    let had_calls = !tools.is_empty();
    let mut out: Vec<JsonValue> = Vec::new();
    if had_calls {
        let calls = tools.finish();
        let chunk = match &finish_chunk {
            Some(reference) => tool_calls_chunk(reference, calls),
            None => tool_calls_chunk(&JsonValue::object(), calls),
        };
        out.push(chunk);
    }
    let mut last = match finish_chunk {
        Some(chunk) => chunk,
        None => terminal_chunk(model, had_calls),
    };
    proof {
        lemma_inferred_end_has_no_usage(model@, had_calls);
    }
    if let Some(u) = usage {
        if last.get("usage").is_none() {
            last.insert("usage", usage_object(u));
        }
    }
    assert(last@ == turn.last_chunk(model@));
    out.push(last);
    proof {
        crate::json::lemma_all_json(out@);
        assert(crate::json::all_json(out@) =~= turn.closing(model@));
    }
    out
}

/// How a stream ends: the last events, and whether the turn is complete. Where
/// it is not, the body ends abnormally behind them.
pub struct Ending {
    pub frames: Vec<String>,
    pub complete: bool,
}

/// Relays a stream: bytes come in as they are read, events go out.
pub struct StreamRelay {
    lines: LineAccumulator,
    tools: ToolCallAccumulator,
    usage: Option<Usage>,
    finish_chunk: Option<JsonValue>,
    failed: bool,
    model: String,
}

impl StreamRelay {
    /// What is known of the turn.
    pub closed spec fn turn(self) -> Turn {
        turn_of(self.tools, self.usage, self.finish_chunk)
    }

    /// The bytes of the line that has no end yet.
    pub closed spec fn pending(self) -> Seq<u8> {
        self.lines.pending()
    }

    /// Reading has failed.
    pub closed spec fn failed(self) -> bool {
        self.failed
    }

    /// The model that answers.
    pub closed spec fn model(self) -> Seq<char> {
        self.model@
    }

    /// A chunk that is held back is an object, and lines are capped as usual.
    pub closed spec fn wf(self) -> bool {
        &&& self.turn().held matches Some(chunk) ==> chunk is Object
        &&& self.lines.cap() == crate::sse::DEFAULT_MAX_LINE_BYTES
    }

    /// A stream of which nothing has been read.
    pub fn new(model: String) -> (r: Self)
        ensures
            r.wf(),
            r.turn() == Turn::start(),
            r.pending() == Seq::<u8>::empty(),
            !r.failed(),
            r.model() == model@,
    {
        StreamRelay {
            lines: LineAccumulator::new(),
            tools: ToolCallAccumulator::new(),
            usage: None,
            finish_chunk: None,
            failed: false,
            model,
        }
    }

    /// Takes in bytes as they were read, and gives out the lines that they
    /// complete. Where a single line is over the cap, reading has failed, and the
    /// event that says so comes out in place of the lines.
    pub fn bytes_arrived(&mut self, part: &[u8]) -> (r: Result<Vec<String>, String>)
        requires
            old(self).wf(),
        ensures
            ({
                let (lines, open) = crate::sse::split_lines(old(self).pending() + part@);
                let overrun = !crate::sse::within_cap(
                    old(self).pending() + part@,
                    crate::sse::DEFAULT_MAX_LINE_BYTES,
                );
                &&& final(self).pending() == open
                &&& final(self).failed() == (old(self).failed() || overrun)
                &&& r is Err <==> overrun
                &&& r matches Ok(out) ==> crate::sse::texts(out@) == lines.map_values(
                    |line: Seq<u8>| crate::sse::line_text(line),
                )
                &&& r matches Err(frame) ==> frame@ == event(
                    crate::reply::error_json(
                        crate::sse::overrun_message(crate::sse::DEFAULT_MAX_LINE_BYTES),
                    ),
                ) && frame@ != done_event()
            }),
            final(self).wf(),
            final(self).turn() == old(self).turn(),
            final(self).model() == old(self).model(),
    {
        match self.lines.push(part) {
            Ok(lines) => Ok(lines),
            Err(message) => {
                self.failed = true;
                Err(sse_error(message.as_str()))
            },
        }
    }

    /// Takes in one line, and gives out the event to send on, if there is one.
    pub fn line_arrived(&mut self, line: &str) -> (r: Option<String>)
        requires
            old(self).wf(),
        ensures
            crate::text::string_of(r) == line_sent_on(line@),
            r matches Some(frame) ==> frame@ != done_event(),
            final(self).turn() == old(self).turn().after_line(line@),
            final(self).wf(),
            final(self).pending() == old(self).pending(),
            final(self).failed() == old(self).failed(),
            final(self).model() == old(self).model(),
    {
        process_line(line, &mut self.tools, &mut self.usage, &mut self.finish_chunk)
    }

    /// Takes note that the stream could not be read further, and gives out the
    /// event that says so.
    pub fn read_failed(&mut self, reason: &str) -> (r: String)
        requires
            old(self).wf(),
        ensures
            r@ == event(crate::reply::error_json("upstream stream failed: "@ + reason@)),
            r@ != done_event(),
            final(self).failed(),
            final(self).wf(),
            final(self).turn() == old(self).turn(),
            final(self).pending() == old(self).pending(),
            final(self).model() == old(self).model(),
    {
        self.failed = true;
        let mut message = "upstream stream failed: ".to_owned();
        message.append(reason);
        sse_error(message.as_str())
    }

    /// Ends the stream: the last events, and the event to report for a turn
    /// that was answered with this status and took this long. The sign of
    /// completion is the last event of a complete turn, and no other event is.
    pub fn finish(self, status: u16, duration: std::time::Duration) -> (r: (
        Ending,
        CompletionEvent,
    ))
        requires
            self.wf(),
        ensures
            ({
                let truncated = crate::sse::without_cr(self.pending()).len() > 0;
                &&& crate::sse::texts(r.0.frames@) == ending(
                    self.turn(),
                    self.model(),
                    truncated,
                    self.failed(),
                )
                &&& r.0.complete == (!truncated && !self.failed())
                &&& r.0.complete <==> crate::sse::texts(r.0.frames@).contains(done_event())
                &&& r.0.frames@.len() > 0
                &&& r.0.complete <==> r.0.frames@.last()@ == done_event()
                &&& forall|i: int|
                    0 <= i < r.0.frames@.len() - 1 ==> (#[trigger] r.0.frames@[i])@ != done_event()
            }),
            r.1.model@ == self.model(),
            r.1.status == status,
            r.1.streamed,
            r.1.duration == duration,
            r.1.usage == self.turn().usage,
    {
        let ghost turn = self.turn();
        let StreamRelay { lines, tools, usage, finish_chunk, failed, model } = self;
        let mut lines = lines;
        let truncated = lines.finish().is_some();
        let mut frames: Vec<String> = Vec::new();
        if truncated {
            frames.push(sse_error("upstream ended before the response completed"));
            assert(crate::sse::texts(frames@) =~= ending(turn, model@, true, true));
        } else {
            let chunks = closing_chunks(tools, &usage, finish_chunk, model.as_str());
            frames = all_events(&chunks);
            assert(crate::sse::texts(frames@).len() == turn.closing(model@).len());
        }
        let complete = !truncated && !failed;
        let ghost sent = frames@;
        assert(crate::sse::texts(sent).len() == sent.len());
        assert(sent.len() > 0);
        assert(!crate::sse::texts(sent).contains(done_event()));
        if complete {
            let ghost before = frames@;
            frames.push("data: [DONE]\n\n".to_owned());
            assert(crate::sse::texts(frames@) =~= crate::sse::texts(before).push(done_event()));
            assert(crate::sse::texts(frames@).last() == done_event());
        }
        proof {
            let all = crate::sse::texts(frames@);
            assert(all.len() == frames@.len());
            assert forall|i: int| 0 <= i < frames@.len() - 1 implies (#[trigger] frames@[i])@
                != done_event() by {
                assert(all[i] == frames@[i]@);
                assert(crate::sse::texts(sent).contains(crate::sse::texts(sent)[i]));
            }
            if !complete {
                assert(all.contains(all[frames@.len() - 1]));
            }
        }
        (
            Ending { frames, complete },
            CompletionEvent { model, status, streamed: true, duration, usage },
        )
    }
}

/// An event for each of these documents.
fn all_events(chunks: &Vec<JsonValue>) -> (r: Vec<String>)
    ensures
        crate::sse::texts(r@) == crate::json::all_json(chunks@).map_values(|v: Json| event(v)),
        !crate::sse::texts(r@).contains(done_event()),
{
    let mut frames: Vec<String> = Vec::new();
    let mut i: usize = 0;
    while i < chunks.len()
        invariant
            i <= chunks@.len(),
            frames@.len() == i,
            forall|j: int|
                0 <= j < i ==> #[trigger] frames@[j]@ == event(chunks@[j]@) && frames@[j]@
                    != done_event(),
        decreases chunks@.len() - i,
    {
        frames.push(sse_line(&chunks[i]));
        i += 1;
    }
    proof {
        crate::json::lemma_all_json(chunks@);
        assert(crate::sse::texts(frames@) =~= crate::json::all_json(chunks@).map_values(
            |v: Json| event(v),
        ));
    }
    frames
}

// --------------------------------------------------------------------- laws

impl Turn {
    /// The turn after some chunks.
    pub open spec fn after_all(self, chunks: Seq<Json>) -> Turn
        decreases chunks.len(),
    {
        if chunks.len() == 0 {
            self
        } else {
            self.after_all(chunks.drop_last()).after(chunks.last())
        }
    }
}

/// The fragments of tool calls in some chunks, one after the other.
pub open spec fn all_fragments(chunks: Seq<Json>) -> Seq<Json>
    decreases chunks.len(),
{
    if chunks.len() == 0 {
        Seq::empty()
    } else {
        all_fragments(chunks.drop_last()) + (match fragments_in(chunks.last()) {
            Some(fragments) => fragments,
            None => Seq::empty(),
        })
    }
}

/// What is collected of the tool calls depends on their fragments, in the order
/// in which they came, and not on how they were spread over chunks.
pub proof fn law_fragments_are_collected_across_chunks(chunks: Seq<Json>)
    ensures
        Turn::start().after_all(chunks).calls == crate::thought::absorbed_all(
            Seq::empty(),
            all_fragments(chunks),
        ),
    decreases chunks.len(),
{
    if chunks.len() > 0 {
        let most = chunks.drop_last();
        law_fragments_are_collected_across_chunks(most);
        match fragments_in(chunks.last()) {
            Some(fragments) => {
                crate::thought::law_absorbing_in_parts(
                    Seq::empty(),
                    all_fragments(most),
                    fragments,
                );
            },
            None => {
                assert(all_fragments(chunks) =~= all_fragments(most));
            },
        }
    }
}

/// A chunk without fragments of tool calls that does not end the turn passes on
/// as it is. Of a chunk that passes on with fragments taken out, every other
/// part passes as it is.
pub proof fn law_text_passes_and_fragments_do_not(chunk: Json)
    ensures
        fragments_in(chunk) is None && !ends_turn(chunk) ==> sent_on(chunk) == Some(chunk),
        sent_on(chunk) matches Some(v) ==> fragments_in(v) is None && !ends_turn(v),
        sent_on(chunk) matches Some(v) ==> forall|name: Seq<char>|
            name != "tool_calls"@ ==> #[trigger] crate::json::field_of(first_delta_in(v), name)
                == crate::json::field_of(first_delta_in(chunk), name),
        sent_on(chunk) matches Some(v) ==> forall|name: Seq<char>|
            name != "delta"@ ==> #[trigger] crate::json::field_of(first_choice_in(v), name)
                == crate::json::field_of(first_choice_in(chunk), name),
        sent_on(chunk) matches Some(v) ==> forall|name: Seq<char>|
            name != "choices"@ ==> #[trigger] v.field(name) == chunk.field(name),
{
    lemma_first_choice_without_calls(chunk);
}

/// A chunk that is held back is an object and still ends the turn.
pub proof fn law_held_chunk_ends_the_turn(chunks: Seq<Json>)
    ensures
        Turn::start().after_all(chunks).held matches Some(chunk) ==> chunk is Object && ends_turn(
            chunk,
        ) && fragments_in(chunk) is None,
    decreases chunks.len(),
{
    if chunks.len() > 0 {
        law_held_chunk_ends_the_turn(chunks.drop_last());
        lemma_first_choice_without_calls(chunks.last());
    }
}

/// Token counts that came are never lost, and none are made up: they are known
/// if and only if some chunk carried them, and those of the last one count.
pub proof fn law_usage_is_known_only_where_it_came(chunks: Seq<Json>)
    ensures
        Turn::start().after_all(chunks).usage is None <==> forall|i: int|
            0 <= i < chunks.len() ==> usage_within(#[trigger] chunks[i]) is None,
        chunks.len() > 0 && usage_within(chunks.last()) is Some ==> Turn::start().after_all(
            chunks,
        ).usage == usage_within(chunks.last()),
    decreases chunks.len(),
{
    if chunks.len() > 0 {
        let most = chunks.drop_last();
        law_usage_is_known_only_where_it_came(most);
        assert forall|i: int| 0 <= i < most.len() implies most[i] == chunks[i] by {}
        if forall|i: int| 0 <= i < chunks.len() ==> usage_within(#[trigger] chunks[i]) is None {
            assert(usage_within(chunks[chunks.len() - 1]) is None);
            assert forall|i: int| 0 <= i < most.len() implies usage_within(
                #[trigger] most[i],
            ) is None by {
                assert(usage_within(chunks[i]) is None);
            }
        } else if usage_within(chunks.last()) is None {
            let i = choose|i: int|
                0 <= i < chunks.len() && usage_within(#[trigger] chunks[i]) is Some;
            assert(usage_within(most[i]) is Some);
        }
    }
}

/// The last chunk of a turn ends it. It carries the token counts where they are
/// known, unless the chunk that was held back has a `usage` of its own; that one
/// it keeps.
pub proof fn law_last_chunk_ends_the_turn(chunks: Seq<Json>, model: Seq<char>)
    ensures
        ({
            let turn = Turn::start().after_all(chunks);
            let last = turn.closing(model).last();
            &&& ends_turn(last)
            &&& last.field("usage"@) == (match (turn.held, turn.usage) {
                (Some(held), Some(u)) => if held.field("usage"@) is Some {
                    held.field("usage"@)
                } else {
                    Some(usage_json(u))
                },
                (None, Some(u)) => Some(usage_json(u)),
                (Some(held), None) => held.field("usage"@),
                (None, None) => None,
            })
        }),
{
    let turn = Turn::start().after_all(chunks);
    law_held_chunk_ends_the_turn(chunks);
    lemma_chunk_names();
    lemma_inferred_end_has_no_usage(model, turn.calls.len() > 0);
    let base = match turn.held {
        Some(chunk) => chunk,
        None => inferred_end(model, turn.calls.len() > 0),
    };
    assert(with_usage(base, turn.usage).field("choices"@) == base.field("choices"@));
}

/// The names of the members of a chunk differ.
proof fn lemma_chunk_names()
    ensures
        "usage"@ != "choices"@,
        "delta"@ != "finish_reason"@,
        "index"@ != "finish_reason"@,
        "role"@ != "tool_calls"@,
{
    reveal_strlit("usage");
    reveal_strlit("choices");
    reveal_strlit("delta");
    reveal_strlit("index");
    reveal_strlit("finish_reason");
    reveal_strlit("role");
    reveal_strlit("tool_calls");
    assert("usage"@.len() != "choices"@.len());
    assert("delta"@.len() != "finish_reason"@.len());
    assert("index"@.len() != "finish_reason"@.len());
    assert("role"@.len() != "tool_calls"@.len());
}

/// Tool calls that were collected go out, all of them and before the chunk that
/// ends the turn, whether or not the stream had such a chunk. The chunk that
/// carries them is otherwise like the one behind it, and has no token counts.
pub proof fn law_tool_calls_go_before_the_end(chunks: Seq<Json>, model: Seq<char>)
    ensures
        ({
            let turn = Turn::start().after_all(chunks);
            let closing = turn.closing(model);
            turn.calls.len() > 0 ==> {
                &&& closing.len() == 2
                &&& fragments_in(closing[0]) == Some(crate::thought::finished(turn.calls))
                &&& !ends_turn(closing[0])
                &&& closing[0].field("usage"@) is None
                &&& turn.held matches Some(held) ==> forall|name: Seq<char>|
                    name != "choices"@ && name != "usage"@ ==> #[trigger] closing[0].field(name)
                        == held.field(name)
            }
        }),
{
    let turn = Turn::start().after_all(chunks);
    law_held_chunk_ends_the_turn(chunks);
    lemma_chunk_names();
    if turn.calls.len() > 0 {
        let choice = calls_choice(crate::thought::finished(turn.calls));
        let closing = turn.closing(model);
        assert(closing[0].field("choices"@) == Some(Json::Array(seq![choice])));
        assert(first_choice_in(closing[0]) == Some(choice));
    }
}

/// Where the stream gave no reason for its end, tool calls are the reason if
/// there were any, and otherwise it simply stopped.
pub proof fn law_reason_says_what_happened(chunks: Seq<Json>, model: Seq<char>)
    ensures
        ({
            let turn = Turn::start().after_all(chunks);
            turn.held is None ==> crate::json::field_of(
                first_choice_in(turn.closing(model).last()),
                "finish_reason"@,
            ) == Some(Json::Text(inferred_reason(turn.calls.len() > 0)))
        }),
{
    let turn = Turn::start().after_all(chunks);
    lemma_chunk_names();
    if turn.held is None {
        let base = inferred_end(model, turn.calls.len() > 0);
        assert(with_usage(base, turn.usage).field("choices"@) == base.field("choices"@));
    }
}

/// The sign of completion ends a stream in which nothing went wrong. A stream
/// that was cut in the middle of an event ends with one event, an error.
pub proof fn law_how_a_stream_ends(
    turn: Turn,
    model: Seq<char>,
    truncated: bool,
    failed: bool,
)
    ensures
        !truncated && !failed ==> ending(turn, model, truncated, failed).last() == done_event(),
        truncated ==> ending(turn, model, truncated, failed) == seq![
            event(crate::reply::error_json("upstream ended before the response completed"@)),
        ],
        failed && !truncated ==> ending(turn, model, truncated, failed) == turn.closing(
            model,
        ).map_values(|v: Json| event(v)),
{
}

impl Turn {
    /// The turn after some lines.
    pub open spec fn after_lines(self, lines: Seq<Seq<char>>) -> Turn
        decreases lines.len(),
    {
        if lines.len() == 0 {
            self
        } else {
            self.after_lines(lines.drop_last()).after_line(lines.last())
        }
    }
}

/// The events that some lines send on at once.
pub open spec fn lines_sent_on(lines: Seq<Seq<char>>) -> Seq<Seq<char>>
    decreases lines.len(),
{
    if lines.len() == 0 {
        Seq::empty()
    } else {
        let before = lines_sent_on(lines.drop_last());
        match line_sent_on(lines.last()) {
            Some(frame) => before.push(frame),
            None => before,
        }
    }
}

/// The texts of the lines in some bytes.
pub open spec fn texts_of_lines(lines: Seq<Seq<u8>>) -> Seq<Seq<char>> {
    lines.map_values(|line: Seq<u8>| crate::sse::line_text(line))
}

/// A stream in the middle of its relay: what is known of the turn, the events
/// that were sent on, and the bytes of the line that has no end yet.
#[verifier::ext_equal]
pub struct Relayed {
    pub turn: Turn,
    pub frames: Seq<Seq<char>>,
    pub pending: Seq<u8>,
}

/// What a relay that takes in these chunks, one after the other, has come to.
pub open spec fn relayed(chunks: Seq<Seq<u8>>) -> Relayed
    decreases chunks.len(),
{
    if chunks.len() == 0 {
        Relayed { turn: Turn::start(), frames: Seq::empty(), pending: Seq::empty() }
    } else {
        let before = relayed(chunks.drop_last());
        let (lines, open) = crate::sse::split_lines(before.pending + chunks.last());
        Relayed {
            turn: before.turn.after_lines(texts_of_lines(lines)),
            frames: before.frames + lines_sent_on(texts_of_lines(lines)),
            pending: open,
        }
    }
}

/// Lines may be taken in together or in parts.
proof fn lemma_lines_in_parts(turn: Turn, a: Seq<Seq<char>>, b: Seq<Seq<char>>)
    ensures
        turn.after_lines(a + b) == turn.after_lines(a).after_lines(b),
        lines_sent_on(a + b) == lines_sent_on(a) + lines_sent_on(b),
    decreases b.len(),
{
    if b.len() == 0 {
        assert(a + b =~= a);
        assert(lines_sent_on(a) + Seq::<Seq<char>>::empty() =~= lines_sent_on(a));
    } else {
        lemma_lines_in_parts(turn, a, b.drop_last());
        assert((a + b).drop_last() =~= a + b.drop_last());
        assert(lines_sent_on(a + b) =~= lines_sent_on(a) + lines_sent_on(b));
    }
}

/// What a relay sends on, and what it knows of the turn, depends on the bytes of
/// the stream and not on how they were cut into chunks. So does whether it
/// stops at a line that is over the cap.
pub proof fn law_relay_does_not_depend_on_cuts(chunks: Seq<Seq<u8>>, cap: usize)
    ensures
        ({
            let (lines, open) = crate::sse::split_lines(crate::sse::joined(chunks));
            relayed(chunks) == Relayed {
                turn: Turn::start().after_lines(texts_of_lines(lines)),
                frames: lines_sent_on(texts_of_lines(lines)),
                pending: open,
            }
        }),
        crate::sse::all_accepted(Seq::empty(), chunks, cap) <==> crate::sse::within_cap(
            crate::sse::joined(chunks),
            cap,
        ),
    decreases chunks.len(),
{
    let bytes = crate::sse::joined(chunks);
    crate::sse::law_cuts_do_not_matter(Seq::empty(), chunks, cap);
    assert(Seq::<u8>::empty() + bytes =~= bytes);
    let lines = crate::sse::split_lines(bytes).0;
    if chunks.len() == 0 {
        assert(texts_of_lines(lines) =~= Seq::empty());
    } else {
        let most = crate::sse::joined(chunks.drop_last());
        law_relay_does_not_depend_on_cuts(chunks.drop_last(), cap);
        crate::sse::law_chunks_do_not_matter(most, chunks.last());
        let (early, open) = crate::sse::split_lines(most);
        let late = crate::sse::split_lines(open + chunks.last()).0;
        assert(texts_of_lines(lines) =~= texts_of_lines(early) + texts_of_lines(late));
        lemma_lines_in_parts(Turn::start(), texts_of_lines(early), texts_of_lines(late));
    }
}

} // verus!
