//! Answers, whole and streamed.

use std::time::Duration;

use gateway_for_vertex_ai::codec::{parse, to_document};
use gateway_for_vertex_ai::forward::{
    closing_chunks, model_of, process_chunk, process_line, relays_as_stream, request_failed,
    settle, settle_document, sse_error, tool_calls_chunk, StreamRelay,
};
use gateway_for_vertex_ai::json::JsonValue;
use gateway_for_vertex_ai::observe::{CompletionEvent, Usage};
use gateway_for_vertex_ai::thought::ToolCallAccumulator;
use gateway_for_vertex_ai::upstream_error;

fn json(text: &str) -> JsonValue {
    parse(text).expect("valid JSON")
}

fn sse(chunk: &str) -> String {
    format!("data: {}\n\n", to_document(&json(chunk)))
}

/// Runs a whole stream, cut into chunks of this many bytes.
fn relay_in(chunks: &[String], size: usize) -> (String, bool, CompletionEvent) {
    let mut relay = StreamRelay::new("google/gemini-2.5-pro".to_string());
    let mut out = String::new();
    let bytes = chunks.join("").into_bytes();
    for part in bytes.chunks(size) {
        let lines = relay.bytes_arrived(part).expect("within cap");
        for line in lines {
            if let Some(frame) = relay.line_arrived(&line) {
                out.push_str(&frame);
            }
        }
    }
    let (ending, event) = relay.finish(200, Duration::from_millis(7));
    for frame in &ending.frames {
        out.push_str(frame);
    }
    (out, ending.complete, event)
}

fn relay(chunks: &[String]) -> (String, bool, CompletionEvent) {
    relay_in(chunks, 1 << 20)
}

#[test]
fn non_streaming_signature_is_packed_into_the_id() {
    let text = r#"{
            "choices":[{"message":{"role":"assistant","tool_calls":[{
                "id":"call_abc","type":"function",
                "function":{"name":"read_file","arguments":"{}"},
                "extra_content":{"google":{"thought_signature":"SIG1"}}
            }]}}],
            "usage":{"prompt_tokens":8,"completion_tokens":6,
                     "completion_tokens_details":{"reasoning_tokens":917}}
        }"#;
    let (reply, _) = settle(200, text, "m".to_string(), Duration::from_millis(1));
    let out = to_document(&reply.body);
    assert_eq!(
        out.pointer("/choices/0/message/tool_calls/0/id").unwrap(),
        "call_abc__thought__SIG1"
    );
    assert!(
        out.pointer("/choices/0/message/tool_calls/0/extra_content")
            .is_none(),
        "the signature must travel once, not twice"
    );
}

#[test]
fn observer_receives_token_counts() {
    let text = r#"{
            "choices":[{"message":{"content":"hi"}}],
            "usage":{"prompt_tokens":8,"completion_tokens":6,
                     "completion_tokens_details":{"reasoning_tokens":917}}
        }"#;
    let (_, event) = settle(
        200,
        text,
        "google/gemini-2.5-pro".to_string(),
        Duration::from_millis(50),
    );
    assert_eq!(event.model, "google/gemini-2.5-pro");
    assert_eq!(event.status, 200);
    assert!(!event.streamed);
    assert_eq!(event.duration, Duration::from_millis(50));
    assert_eq!(
        event.usage,
        Some(Usage {
            prompt_tokens: 8,
            completion_tokens: 6,
            reasoning_tokens: 917,
        }),
        "reasoning tokens are billed but invisible; they must be reported"
    );
}

#[test]
fn error_answer_is_not_packed() {
    let text = r#"{"choices":[{"message":{"tool_calls":[
        {"id":"a","extra_content":{"google":{"thought_signature":"S"}}}]}}]}"#;
    let (reply, event) = settle_document(500, json(text), "m".to_string(), Duration::from_secs(1));
    assert_eq!(reply.status, 500);
    assert_eq!(event.status, 500);
    assert_eq!(event.usage, None);
    assert_eq!(to_document(&reply.body), to_document(&json(text)));
    let (reply, _) = settle_document(299, json(text), "m".to_string(), Duration::from_secs(1));
    assert_eq!(
        to_document(&reply.body)
            .pointer("/choices/0/message/tool_calls/0/id")
            .unwrap(),
        "a__thought__S"
    );
}

#[test]
fn answer_that_is_no_json_is_an_error_message() {
    let (reply, event) = settle(503, "<html>busy</html>", "m".to_string(), Duration::from_secs(1));
    assert_eq!(reply.status, 503);
    assert_eq!(
        to_document(&reply.body).to_string(),
        r#"{"error":{"message":"<html>busy</html>"}}"#
    );
    assert_eq!(event.usage, None);
    let (reply, _) = settle(200, "", "m".to_string(), Duration::from_secs(1));
    assert_eq!(
        to_document(&reply.body).to_string(),
        r#"{"error":{"message":""}}"#
    );
}

#[test]
fn errors_of_the_call_are_bad_gateways() {
    let reply = upstream_error("no token".to_string());
    assert_eq!(reply.status, 502);
    assert_eq!(
        to_document(&reply.body).to_string(),
        r#"{"error":{"message":"no token"}}"#
    );
    let reply = request_failed("refused");
    assert_eq!(reply.status, 502);
    assert_eq!(
        to_document(&reply.body)["error"]["message"],
        "request to Vertex failed: refused"
    );
}

#[test]
fn only_a_success_is_relayed_as_a_stream() {
    assert!(relays_as_stream(true, 200));
    assert!(relays_as_stream(true, 299));
    assert!(!relays_as_stream(true, 300));
    assert!(!relays_as_stream(true, 199));
    assert!(!relays_as_stream(true, 429));
    assert!(!relays_as_stream(false, 200));
}

#[test]
fn model_is_read_from_the_body() {
    assert_eq!(model_of(&json(r#"{"model":"google/x"}"#)), "google/x");
    assert_eq!(model_of(&json(r#"{"model":1}"#)), "");
    assert_eq!(model_of(&json("[]")), "");
}

fn signed_stream() -> Vec<String> {
    vec![
        sse(
            r#"{"id":"c1","choices":[{"index":0,"delta":{"role":"assistant","tool_calls":[{
            "index":0,"id":"call_abc","type":"function",
            "function":{"name":"read_file","arguments":""},
            "extra_content":{"google":{"thought_signature":"SIG_STREAM"}}}]}}]}"#,
        ),
        sse(
            r#"{"id":"c1","choices":[{"index":0,"delta":{"tool_calls":[{
            "index":0,"function":{"arguments":"{\"path\":"}}]}}]}"#,
        ),
        sse(
            r#"{"id":"c1","choices":[{"index":0,"delta":{"tool_calls":[{
            "index":0,"function":{"arguments":"\"a.rs\"}"}}]}}]}"#,
        ),
        sse(
            r#"{"id":"c1","choices":[{"index":0,"delta":{},"finish_reason":"tool_calls"}],
                   "usage":{"prompt_tokens":5,"completion_tokens":12,
                            "completion_tokens_details":{"reasoning_tokens":40}}}"#,
        ),
        "data: [DONE]\n\n".to_string(),
    ]
}

#[test]
fn streaming_tool_calls_are_consolidated_with_the_signature() {
    let (out, complete, event) = relay(&signed_stream());
    assert!(
        out.contains("call_abc__thought__SIG_STREAM"),
        "signature missing from stream output:\n{out}"
    );
    assert!(
        out.contains(r#"{\"path\":\"a.rs\"}"#),
        "arguments must still be joined correctly:\n{out}"
    );
    assert!(out.trim_end().ends_with("data: [DONE]"), "terminator last");
    assert!(complete);

    let call_at = out.find("call_abc__thought__").unwrap();
    let finish_at = out
        .find("tool_calls\"")
        .map(|_| out.find("finish_reason").unwrap());
    assert!(
        call_at < finish_at.unwrap(),
        "tool call must come first:\n{out}"
    );
    assert!(event.streamed);
    assert_eq!(
        event.usage,
        Some(Usage {
            prompt_tokens: 5,
            completion_tokens: 12,
            reasoning_tokens: 40,
        })
    );
}

#[test]
fn whole_stream_comes_out_to_the_letter() {
    let (out, complete, _) = relay(&signed_stream());
    assert!(complete);
    assert_eq!(
        out,
        concat_lines(&[
            r#"data: {"choices":[{"delta":{"role":"assistant"},"index":0}],"id":"c1"}"#,
            r#"data: {"choices":[{"delta":{"role":"assistant","tool_calls":[{"function":{"arguments":"{\"path\":\"a.rs\"}","name":"read_file"},"id":"call_abc__thought__SIG_STREAM","index":0,"type":"function"}]},"finish_reason":null,"index":0}],"id":"c1"}"#,
            r#"data: {"choices":[{"delta":{},"finish_reason":"tool_calls","index":0}],"id":"c1","usage":{"completion_tokens":12,"completion_tokens_details":{"reasoning_tokens":40},"prompt_tokens":5}}"#,
            "data: [DONE]",
        ])
    );
}

fn concat_lines(events: &[&str]) -> String {
    let mut out = String::new();
    for event in events {
        out.push_str(event);
        out.push_str("\n\n");
    }
    out
}

#[test]
fn cutting_the_stream_elsewhere_changes_nothing() {
    let whole = relay(&signed_stream()).0;
    for size in [1, 2, 3, 7, 64, 501] {
        let (out, complete, _) = relay_in(&signed_stream(), size);
        assert!(complete);
        assert_eq!(out, whole, "in chunks of {size} bytes");
    }
}

#[test]
fn parallel_streaming_tool_calls_keep_their_own_signatures() {
    let chunks = vec![
        sse(
            r#"{"choices":[{"index":0,"delta":{"tool_calls":[
            {"index":0,"id":"call_a","function":{"name":"read","arguments":""},
             "extra_content":{"google":{"thought_signature":"SIG_A"}}},
            {"index":1,"id":"call_b","function":{"name":"grep","arguments":""},
             "extra_content":{"google":{"thought_signature":"SIG_B"}}}]}}]}"#,
        ),
        sse(
            r#"{"choices":[{"index":0,"delta":{"tool_calls":[
            {"index":1,"function":{"arguments":"{\"q\":1}"}}]}}]}"#,
        ),
        sse(
            r#"{"choices":[{"index":0,"delta":{"tool_calls":[
            {"index":0,"function":{"arguments":"{\"p\":2}"}}]}}]}"#,
        ),
        sse(r#"{"choices":[{"index":0,"delta":{},"finish_reason":"tool_calls"}]}"#),
        "data: [DONE]\n\n".to_string(),
    ];
    let (out, _, _) = relay(&chunks);
    assert!(out.contains("call_a__thought__SIG_A"), "{out}");
    assert!(out.contains("call_b__thought__SIG_B"), "{out}");
    assert!(out.contains(r#"{\"p\":2}"#), "call_a arguments:\n{out}");
    assert!(out.contains(r#"{\"q\":1}"#), "call_b arguments:\n{out}");
}

#[test]
fn plain_text_streaming_is_unaffected() {
    let chunks = vec![
        sse(r#"{"choices":[{"index":0,"delta":{"content":"Xin"}}]}"#),
        sse(r#"{"choices":[{"index":0,"delta":{"content":" chào 😀"}}]}"#),
        sse(r#"{"choices":[{"index":0,"delta":{},"finish_reason":"stop"}]}"#),
        "data: [DONE]\n\n".to_string(),
    ];
    let (out, _, event) = relay_in(&chunks, 5);
    assert!(out.contains("Xin"), "{out}");
    assert!(
        out.contains("chào 😀"),
        "multi-byte text must survive:\n{out}"
    );
    assert!(out.contains("finish_reason"), "{out}");
    assert_eq!(event.usage, None, "counts that never came are not zero");
    assert_eq!(out, chunks.join(""));
}

#[test]
fn truncated_stream_reports_an_error_instead_of_partial_json() {
    let chunks = vec![
        sse(r#"{"choices":[{"index":0,"delta":{"content":"Xin"}}]}"#),
        r#"data: {"choices":[{"index":0,"delta":{"content":"ch"#.to_string(),
    ];
    let (out, complete, _) = relay(&chunks);
    assert!(!complete, "the body must end abnormally:\n{out}");
    assert!(!out.contains("[DONE]"), "{out}");
    assert!(out.ends_with(
        "data: {\"error\":{\"message\":\"upstream ended before the response completed\"}}\n\n"
    ));
}

#[test]
fn truncated_stream_sends_no_tool_calls() {
    let mut chunks = signed_stream();
    chunks.truncate(2);
    chunks.push("data: {\"choices\"".to_string());
    let (out, complete, _) = relay(&chunks);
    assert!(!complete);
    assert!(!out.contains("call_abc"), "{out}");
}

#[test]
fn tool_calls_survive_a_stream_that_ends_without_finish_reason() {
    let chunks = vec![sse(
        r#"{"choices":[{"index":0,"delta":{"tool_calls":[{
            "index":0,"id":"call_abc","type":"function",
            "function":{"name":"read_file","arguments":"{\"path\":\"a.rs\"}"},
            "extra_content":{"google":{"thought_signature":"SIG_NOFINISH"}}}]}}]}"#,
    )];
    let (out, complete, _) = relay(&chunks);
    assert!(
        out.contains("call_abc__thought__SIG_NOFINISH"),
        "tool calls must not be dropped when finish_reason never arrives:\n{out}"
    );
    assert!(
        out.contains("finish_reason"),
        "a terminal chunk must be synthesised:\n{out}"
    );
    assert!(out.trim_end().ends_with("data: [DONE]"), "{out}");
    assert!(complete);
    assert!(out.contains(
        r#"data: {"choices":[{"delta":{},"finish_reason":"tool_calls","index":0}],"model":"google/gemini-2.5-pro","object":"chat.completion.chunk"}"#
    ));
}

#[test]
fn stream_without_an_end_stops() {
    let chunks = vec![
        sse(r#"{"choices":[{"index":0,"delta":{"content":"a"}}]}"#),
        sse(r#"{"choices":[],"usage":{"prompt_tokens":1,"completion_tokens":2}}"#),
    ];
    let (out, complete, event) = relay(&chunks);
    assert!(complete);
    assert!(out.ends_with(&concat_lines(&[
        r#"data: {"choices":[{"delta":{},"finish_reason":"stop","index":0}],"model":"google/gemini-2.5-pro","object":"chat.completion.chunk","usage":{"completion_tokens":2,"completion_tokens_details":{"reasoning_tokens":0},"prompt_tokens":1}}"#,
        "data: [DONE]",
    ])));
    assert_eq!(event.usage.unwrap().completion_tokens, 2);
}

#[test]
fn failed_read_is_reported_and_never_done() {
    let mut relay = StreamRelay::new("m".to_string());
    let lines = relay
        .bytes_arrived(sse(r#"{"choices":[{"index":0,"delta":{"content":"a"}}]}"#).as_bytes())
        .unwrap();
    for line in lines {
        relay.line_arrived(&line);
    }
    assert_eq!(
        relay.read_failed("reset"),
        "data: {\"error\":{\"message\":\"upstream stream failed: reset\"}}\n\n"
    );
    let (ending, _) = relay.finish(200, Duration::from_secs(1));
    assert!(!ending.complete);
    // What was complete still ends with a last chunk.
    assert_eq!(ending.frames.len(), 1);
    assert!(ending.frames[0].contains("\"finish_reason\":\"stop\""));
}

#[test]
fn line_without_an_end_is_reported() {
    let mut relay = StreamRelay::new("m".to_string());
    let mebibyte = vec![b'x'; 1 << 20];
    for _ in 0..32 {
        assert!(relay.bytes_arrived(&mebibyte).unwrap().is_empty());
    }
    assert_eq!(
        relay.bytes_arrived(b"y").unwrap_err(),
        "data: {\"error\":{\"message\":\"SSE line exceeded 33554432 bytes without a newline; aborting stream\"}}\n\n"
    );
    let (ending, _) = relay.finish(200, Duration::from_secs(1));
    assert!(!ending.complete);
    assert_eq!(
        ending.frames,
        vec![sse_error("upstream ended before the response completed")]
    );
}

#[test]
fn line_that_is_no_json_is_sent_on_as_it_is() {
    let mut tools = ToolCallAccumulator::new();
    let mut usage = None;
    let mut finish = None;
    assert_eq!(
        process_line("data: not json", &mut tools, &mut usage, &mut finish).as_deref(),
        Some("data: not json\n\n")
    );
    assert_eq!(process_line("", &mut tools, &mut usage, &mut finish), None);
    assert_eq!(process_line(": ping", &mut tools, &mut usage, &mut finish), None);
    assert_eq!(process_line("data: [DONE]", &mut tools, &mut usage, &mut finish), None);
    assert_eq!(
        process_line("data: 7", &mut tools, &mut usage, &mut finish).as_deref(),
        Some("data: 7\n\n")
    );
    assert!(tools.is_empty());
    assert!(usage.is_none());
    assert!(finish.is_none());
}

#[test]
fn text_beside_fragments_passes() {
    let mut tools = ToolCallAccumulator::new();
    let mut usage = None;
    let mut finish = None;
    let out = process_chunk(
        json(r#"{"choices":[{"delta":{"content":"x","tool_calls":[{"id":"a"}]}},{"delta":{"tool_calls":[1]}}]}"#),
        &mut tools,
        &mut usage,
        &mut finish,
    )
    .unwrap();
    assert_eq!(
        to_document(&out),
        to_document(&json(r#"{"choices":[{"delta":{"content":"x"}},{"delta":{"tool_calls":[1]}}]}"#))
    );
    assert!(!tools.is_empty());
}

#[test]
fn chunk_of_fragments_alone_is_absorbed() {
    let mut tools = ToolCallAccumulator::new();
    let mut usage = None;
    let mut finish = None;
    let out = process_chunk(
        json(r#"{"choices":[{"delta":{"tool_calls":[]}}],"usage":{"prompt_tokens":3}}"#),
        &mut tools,
        &mut usage,
        &mut finish,
    );
    assert!(out.is_none());
    assert!(tools.is_empty());
    assert_eq!(usage.unwrap().prompt_tokens, 3);
}

#[test]
fn terminal_chunk_is_held_without_its_fragments() {
    let mut tools = ToolCallAccumulator::new();
    let mut usage = None;
    let mut finish = None;
    let out = process_chunk(
        json(r#"{"choices":[{"delta":{"tool_calls":[{"id":"a"}]},"finish_reason":"tool_calls"}]}"#),
        &mut tools,
        &mut usage,
        &mut finish,
    );
    assert!(out.is_none());
    assert_eq!(
        to_document(&finish.unwrap()),
        to_document(&json(r#"{"choices":[{"delta":{},"finish_reason":"tool_calls"}]}"#))
    );
}

#[test]
fn null_reason_ends_nothing() {
    let mut tools = ToolCallAccumulator::new();
    let mut usage = None;
    let mut finish = None;
    let text = r#"{"choices":[{"delta":{"content":"x"},"finish_reason":null}]}"#;
    let out = process_chunk(json(text), &mut tools, &mut usage, &mut finish).unwrap();
    assert_eq!(to_document(&out), to_document(&json(text)));
    assert!(finish.is_none());
}

#[test]
fn choices_under_names_are_read_like_a_list() {
    let mut tools = ToolCallAccumulator::new();
    let mut usage = None;
    let mut finish = None;
    let out = process_chunk(
        json(r#"{"choices":{"0":{"delta":{"tool_calls":[{"id":"a"}],"content":"x"}},"1":{}}}"#),
        &mut tools,
        &mut usage,
        &mut finish,
    )
    .unwrap();
    assert_eq!(
        to_document(&out),
        to_document(&json(r#"{"choices":{"0":{"delta":{"content":"x"}},"1":{}}}"#))
    );
    assert!(!tools.is_empty());
}

#[test]
fn calls_chunk_is_like_the_chunk_behind_it() {
    let reference = json(r#"{"id":"c","choices":[{"finish_reason":"stop"}],"usage":{"a":1},"model":"m"}"#);
    let chunk = tool_calls_chunk(&reference, vec![json(r#"{"id":"x"}"#)]);
    assert_eq!(
        to_document(&chunk),
        to_document(&json(
            r#"{"id":"c","model":"m","choices":[{"index":0,"finish_reason":null,
                "delta":{"role":"assistant","tool_calls":[{"id":"x"}]}}]}"#
        ))
    );
    let chunk = tool_calls_chunk(&JsonValue::Null, vec![]);
    assert_eq!(
        to_document(&chunk),
        to_document(&json(
            r#"{"choices":[{"index":0,"finish_reason":null,
                "delta":{"role":"assistant","tool_calls":[]}}]}"#
        ))
    );
}

#[test]
fn usage_of_the_last_chunk_is_kept() {
    let finish = json(r#"{"choices":[{"finish_reason":"stop"}],"usage":{"prompt_tokens":9}}"#);
    let chunks = closing_chunks(
        ToolCallAccumulator::new(),
        &Some(Usage::default()),
        Some(finish.clone()),
        "m",
    );
    assert_eq!(chunks.len(), 1);
    assert_eq!(to_document(&chunks[0]), to_document(&finish));
}

#[test]
fn usage_is_attached_where_the_last_chunk_has_none() {
    let chunks = closing_chunks(
        ToolCallAccumulator::new(),
        &Some(Usage {
            prompt_tokens: 1,
            completion_tokens: 2,
            reasoning_tokens: 3,
        }),
        Some(json(r#"{"choices":[{"finish_reason":"length"}]}"#)),
        "m",
    );
    assert_eq!(
        to_document(&chunks[0]),
        to_document(&json(
            r#"{"choices":[{"finish_reason":"length"}],"usage":{"prompt_tokens":1,
                "completion_tokens":2,"completion_tokens_details":{"reasoning_tokens":3}}}"#
        ))
    );
}

#[test]
fn complete_line_over_the_cap_is_reported() {
    let mut relay = StreamRelay::new("m".to_string());
    let mut long = vec![b'x'; (32 << 20) + 1];
    long.push(b'\n');
    assert_eq!(
        relay.bytes_arrived(&long).unwrap_err(),
        "data: {\"error\":{\"message\":\"SSE line exceeded 33554432 bytes without a newline; aborting stream\"}}\n\n"
    );
    let (ending, _) = relay.finish(200, Duration::from_secs(1));
    assert!(!ending.complete);
}

#[test]
fn sign_of_completion_is_the_last_event_and_the_only_one() {
    let (out, complete, _) = relay(&signed_stream());
    assert!(complete);
    assert_eq!(out.matches("[DONE]").count(), 1);
    assert!(out.ends_with("data: [DONE]\n\n"));
}

#[test]
fn null_usage_of_the_last_chunk_is_kept() {
    let chunks = closing_chunks(
        ToolCallAccumulator::new(),
        &Some(Usage::default()),
        Some(json(r#"{"choices":[{"finish_reason":"stop"}],"usage":null}"#)),
        "m",
    );
    assert!(to_document(&chunks[0])["usage"].is_null());
}
