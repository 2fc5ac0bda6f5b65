//! Requests of the chat protocol.

use gateway_for_vertex_ai::codec::{parse, to_document};
use gateway_for_vertex_ai::json::JsonValue;
use gateway_for_vertex_ai::protocols::openai::{chat_completions, resolve_model, Outgoing};
use gateway_for_vertex_ai::{chat, default_aliases, Config};

fn json(text: &str) -> JsonValue {
    parse(text).expect("valid JSON")
}

fn sent(text: &str) -> Outgoing {
    match chat(&Config::new("p"), json(text)) {
        Ok(out) => out,
        Err(_) => panic!("refused"),
    }
}

#[test]
fn alias_is_resolved() {
    assert_eq!(
        resolve_model(&default_aliases(), "gemini-pro".into()),
        "google/gemini-2.5-pro"
    );
}

#[test]
fn bare_name_gets_a_prefix() {
    assert_eq!(
        resolve_model(&default_aliases(), "gemini-3-pro".into()),
        "google/gemini-3-pro"
    );
}

#[test]
fn name_with_slash_is_left_alone() {
    assert_eq!(
        resolve_model(&default_aliases(), "meta/llama-4-scout-maas".into()),
        "meta/llama-4-scout-maas"
    );
    assert_eq!(
        resolve_model(&default_aliases(), "google/gemini-2.5-flash".into()),
        "google/gemini-2.5-flash"
    );
}

#[test]
fn numeric_endpoint_id_is_left_alone() {
    assert_eq!(
        resolve_model(&default_aliases(), "5464397967697903616".into()),
        "5464397967697903616"
    );
}

#[test]
fn edges_of_names() {
    assert_eq!(resolve_model(&default_aliases(), "".into()), "");
    assert_eq!(resolve_model(&default_aliases(), "12a".into()), "google/12a");
    assert_eq!(resolve_model(&default_aliases(), "/".into()), "/");
    assert_eq!(resolve_model(&default_aliases(), "٣".into()), "google/٣");
    let mut aliases = default_aliases();
    aliases.insert("mine".into(), "gemini-9".into());
    assert_eq!(resolve_model(&aliases, "mine".into()), "google/gemini-9");
}

#[test]
fn resolving_twice_changes_nothing_more() {
    for raw in ["gemini-pro", "gemini-3-pro", "meta/x", "123", ""] {
        let once = resolve_model(&default_aliases(), raw.into());
        assert_eq!(resolve_model(&default_aliases(), once.clone()), once);
    }
}

#[test]
fn rejected_members_are_dropped_and_others_kept() {
    let out = sent(
        r#"{"model":"gemini-pro","prompt_cache_key":"k","safety_identifier":"s","store":true,
            "metadata":{"a":1},"messages":[],"tools":[{"x":1}],"reasoning_effort":"high","n":1}"#,
    );
    assert_eq!(
        to_document(&out.body),
        to_document(&json(
            r#"{"model":"google/gemini-2.5-pro","messages":[],"tools":[{"x":1}],
                "reasoning_effort":"high","n":1}"#
        ))
    );
    assert!(!out.streaming);
    assert_eq!(
        out.url,
        "https://aiplatform.googleapis.com/v1/projects/p/locations/global/endpoints/openapi/chat/completions"
    );
}

#[test]
fn model_is_put_in_where_it_is_missing() {
    let out = sent(r#"{"messages":[]}"#);
    assert_eq!(to_document(&out.body)["model"], "");
    let out = sent(r#"{"model":7}"#);
    assert_eq!(to_document(&out.body)["model"], "");
}

#[test]
fn body_that_is_no_object_passes_through() {
    let out = sent("[1]");
    assert_eq!(to_document(&out.body), to_document(&json("[1]")));
    assert!(!out.streaming);
}

#[test]
fn stream_is_asked_for_with_true() {
    assert!(sent(r#"{"stream":true}"#).streaming);
    assert!(!sent(r#"{"stream":false}"#).streaming);
    assert!(!sent(r#"{"stream":"true"}"#).streaming);
}

#[test]
fn client_echo_is_restored_before_reaching_vertex() {
    let out = sent(
        r#"{"model":"gemini-pro","messages":[
            {"role":"user","content":"read a.rs"},
            {"role":"assistant","tool_calls":[{
                "id":"call_abc__thought__SIG1","type":"function",
                "function":{"name":"read_file","arguments":"{}"}}]},
            {"role":"tool","tool_call_id":"call_abc__thought__SIG1","content":"fn main(){}"}
        ]}"#,
    );
    let forwarded = to_document(&out.body);
    assert_eq!(
        forwarded.pointer("/messages/1/tool_calls/0/id").unwrap(),
        "call_abc"
    );
    assert_eq!(
        forwarded
            .pointer("/messages/1/tool_calls/0/extra_content/google/thought_signature")
            .unwrap(),
        "SIG1",
        "this is the field whose absence returns 400 from Gemini 3"
    );
    assert_eq!(
        forwarded.pointer("/messages/2/tool_call_id").unwrap(),
        "call_abc",
        "tool results are matched by id, so both sides must be unpacked"
    );
}

#[test]
fn multiple_choices_are_rejected_rather_than_mishandled() {
    let cfg = Config::new("p");
    match chat(&cfg, json(r#"{"model":"gemini-pro","n":2,"messages":[]}"#)) {
        Ok(_) => panic!("must be refused"),
        Err(reply) => {
            assert_eq!(reply.status, 502);
            let out = to_document(&reply.body).to_string();
            assert!(out.contains("n > 1 is not supported"), "{out}");
            assert_eq!(
                to_document(&reply.body)["error"]["message"],
                "n > 1 is not supported: tool call signatures are tracked for one choice only"
            );
        }
    }
    assert!(chat(&cfg, json(r#"{"n":1}"#)).is_ok());
    assert!(chat(&cfg, json(r#"{"n":-2}"#)).is_ok());
    assert!(chat(&cfg, json(r#"{"n":"2"}"#)).is_ok());
}

#[test]
fn key_is_checked_before_anything_else() {
    let cfg = Config::new("p").with_gateway_key("secret");
    match chat_completions(&cfg, Some("Bearer wrong"), json(r#"{"n":2}"#)) {
        Ok(_) => panic!("must be refused"),
        Err(reply) => assert_eq!(reply.status, 401),
    }
    match chat_completions(&cfg, Some("Bearer secret"), json(r#"{"n":2}"#)) {
        Ok(_) => panic!("must be refused"),
        Err(reply) => assert_eq!(reply.status, 502),
    }
    assert!(chat_completions(&cfg, Some("Bearer secret"), json("{}")).is_ok());
    assert!(chat_completions(&Config::new("p"), None, json("{}")).is_ok());
}
