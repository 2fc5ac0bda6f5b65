//! Signatures of tool calls.

use gateway_for_vertex_ai::codec::{parse, to_document};
use gateway_for_vertex_ai::json::JsonValue;
use gateway_for_vertex_ai::thought::{
    escape_signature, merge_delta, pack_id, pack_response, pack_tool_call, restore_request,
    restore_tool_call, signature_of, unescape_signature, unpack_id, usage_of, ToolCallAccumulator,
};
use serde_json::Value;

fn json(text: &str) -> JsonValue {
    parse(text).expect("valid JSON")
}

fn value(v: &JsonValue) -> Value {
    to_document(v)
}

fn values(calls: &[JsonValue]) -> Vec<Value> {
    calls.iter().map(to_document).collect()
}

// ---------- id packing ----------

#[test]
fn id_round_trips() {
    let packed = pack_id("call_abc", Some("AY89xyz"));
    assert_eq!(packed, "call_abc__thought__AY89xyz");
    assert_eq!(
        unpack_id(&packed),
        ("call_abc".into(), Some("AY89xyz".into()))
    );
}

#[test]
fn id_without_signature_passes_through() {
    assert_eq!(unpack_id("call_abc"), ("call_abc".into(), None));
    assert_eq!(pack_id("call_abc", None), "call_abc");
}

#[test]
fn base64_signature_is_not_truncated() {
    let sig = "AY89a18oR7U68B4xDq8Rjld7IAxkMavumzPIzKdmoo+YRwfL/78SWawC10UIoq27NQZyahmy4fGf7XYJSIIpDbe4twDkhK1o0BZEY3S03=";
    let (id, got) = unpack_id(&pack_id("call_1", Some(sig)));
    assert_eq!(id, "call_1");
    assert_eq!(got.as_deref(), Some(sig));
}

#[test]
fn packed_id_stays_in_a_conservative_charset() {
    let sig = "AY89+abc/def=ghi-jkl_mno";
    let packed = pack_id("call_1", Some(sig));
    assert!(
        packed
            .chars()
            .all(|c| c.is_ascii_alphanumeric() || c == '_' || c == '-'),
        "packed id must satisfy ^[A-Za-z0-9_-]+$, got {packed}"
    );
}

#[test]
fn signature_round_trips_through_escaping() {
    for sig in [
        "AY89a18oR7U68B4x",
        "with+plus/slash=pad",
        "with-hyphen_and_underscore", // must not collide with the escape char
        "==",
    ] {
        let (id, got) = unpack_id(&pack_id("call_1", Some(sig)));
        assert_eq!(id, "call_1");
        assert_eq!(got.as_deref(), Some(sig), "round trip failed for {sig}");
    }
}

#[test]
fn escapes_are_a_hyphen_and_two_digits() {
    assert_eq!(escape_signature("aZ09_"), "aZ09_");
    assert_eq!(escape_signature("+/=-"), "-2b-2f-3d-2d");
    assert_eq!(escape_signature("\n\u{e9}"), "-0a-c3-a9");
    assert_eq!(escape_signature(""), "");
}

#[test]
fn malformed_escapes_are_not_read() {
    assert_eq!(unescape_signature("a-2bb").as_deref(), Some("a+b"));
    assert_eq!(unescape_signature("a-2Bb").as_deref(), Some("a+b"));
    assert_eq!(unescape_signature("-+a"), None);
    assert_eq!(unescape_signature("-+5"), None);
    assert_eq!(unescape_signature("a-"), None);
    assert_eq!(unescape_signature("a-2"), None);
    assert_eq!(unescape_signature("a-zz"), None);
    assert_eq!(unescape_signature("--2"), None);
    assert_eq!(unescape_signature("-2é"), None);
    assert_eq!(unescape_signature("-ff"), None);
    assert_eq!(unescape_signature("é").as_deref(), Some("é"));
}

#[test]
fn id_is_split_at_the_first_separator() {
    assert_eq!(
        unpack_id("a__thought__b__thought__c"),
        ("a".into(), Some("b__thought__c".into()))
    );
    assert_eq!(unpack_id("__thought__"), ("".into(), Some("".into())));
    assert_eq!(unpack_id("a__thought__-"), ("a".into(), None));
    assert_eq!(unpack_id("a__thought_"), ("a__thought_".into(), None));
    assert_eq!(unpack_id("é__thought__é"), ("é".into(), Some("é".into())));
    assert_eq!(unpack_id(""), ("".into(), None));
}

// ---------- delta merging ----------

fn tool_call_deltas() -> Vec<JsonValue> {
    vec![
        json(
            r#"{"index":0,"id":"call_abc","type":"function",
               "function":{"name":"read_file","arguments":""},
               "extra_content":{"google":{"thought_signature":"SIG1"}}}"#,
        ),
        json(r#"{"index":0,"function":{"arguments":"{\"path\":"}}"#),
        json(r#"{"index":0,"function":{"arguments":"\"a.rs\"}"}}"#),
    ]
}

#[test]
fn merging_keeps_unknown_fields() {
    let mut acc = json("{}");
    for d in tool_call_deltas() {
        merge_delta(&mut acc, &d);
    }
    let acc = value(&acc);
    assert_eq!(acc["function"]["arguments"], r#"{"path":"a.rs"}"#);
    assert_eq!(
        acc["extra_content"]["google"]["thought_signature"], "SIG1",
        "this assertion is the whole point of the module"
    );
}

#[test]
fn merging_appends_strings_rather_than_replacing() {
    let mut acc = json(r#"{"function":{"arguments":"ab"}}"#);
    merge_delta(&mut acc, &json(r#"{"function":{"arguments":"cd"}}"#));
    assert_eq!(value(&acc)["function"]["arguments"], "abcd");
}

#[test]
fn merging_replaces_what_is_neither_text_nor_object() {
    let mut acc = json(r#"{"a":[1,2],"b":1,"c":"x","d":{"e":1},"f":null}"#);
    merge_delta(&mut acc, &json(r#"{"a":[3],"b":2,"c":7,"d":"y","f":{"g":true}}"#));
    assert_eq!(
        value(&acc),
        value(&json(r#"{"a":[3],"b":2,"c":7,"d":"y","f":{"g":true}}"#))
    );
}

// ---------- streaming accumulation ----------

#[test]
fn accumulator_packs_signature_into_id() {
    let mut acc = ToolCallAccumulator::new();
    for d in tool_call_deltas() {
        acc.absorb(std::slice::from_ref(&d));
    }
    let calls = values(&acc.finish());
    assert_eq!(calls.len(), 1);
    assert_eq!(calls[0]["id"], "call_abc__thought__SIG1");
    assert!(
        calls[0].get("extra_content").is_none(),
        "extra_content must be removed so the signature is not sent twice"
    );
}

#[test]
fn parallel_tool_calls_stay_separate() {
    let deltas = vec![
        json(
            r#"{"index":0,"id":"call_a","function":{"name":"read","arguments":""},
               "extra_content":{"google":{"thought_signature":"SIG_A"}}}"#,
        ),
        json(
            r#"{"index":1,"id":"call_b","function":{"name":"grep","arguments":""},
               "extra_content":{"google":{"thought_signature":"SIG_B"}}}"#,
        ),
        json(r#"{"index":1,"function":{"arguments":"{\"q\":1}"}}"#),
        json(r#"{"index":0,"function":{"arguments":"{\"p\":2}"}}"#),
    ];
    let mut acc = ToolCallAccumulator::new();
    for d in &deltas {
        acc.absorb(std::slice::from_ref(d));
    }
    let calls = values(&acc.finish());

    assert_eq!(calls.len(), 2);
    assert_eq!(calls[0]["id"], "call_a__thought__SIG_A");
    assert_eq!(calls[0]["function"]["arguments"], r#"{"p":2}"#);
    assert_eq!(calls[1]["id"], "call_b__thought__SIG_B");
    assert_eq!(calls[1]["function"]["arguments"], r#"{"q":1}"#);
}

#[test]
fn tool_call_without_signature_is_untouched() {
    let mut acc = ToolCallAccumulator::new();
    acc.absorb(&[json(
        r#"{"index":0,"id":"call_x","function":{"name":"f","arguments":"{}"}}"#,
    )]);
    let calls = values(&acc.finish());
    assert_eq!(calls[0]["id"], "call_x");
}

#[test]
fn signature_may_come_in_any_fragment() {
    let parts = [
        r#"{"index":2,"id":"call_a"}"#,
        r#"{"index":2,"extra_content":{"google":{"thought_signature":"S+"}}}"#,
        r#"{"index":2,"function":{"arguments":"{}"}}"#,
    ];
    for order in [[0, 1, 2], [0, 2, 1], [1, 0, 2], [1, 2, 0], [2, 0, 1], [2, 1, 0]] {
        let mut acc = ToolCallAccumulator::default();
        for i in order {
            acc.absorb(&[json(parts[i])]);
        }
        let calls = values(&acc.finish());
        assert_eq!(calls.len(), 1);
        assert_eq!(calls[0]["id"], "call_a__thought__S-2b");
        assert_eq!(calls[0]["function"]["arguments"], "{}");
        assert!(calls[0].get("extra_content").is_none());
    }
}

#[test]
fn calls_come_out_by_increasing_index() {
    let mut acc = ToolCallAccumulator::new();
    assert!(acc.is_empty());
    acc.absorb(&[
        json(r#"{"index":7,"id":"h"}"#),
        json(r#"{"index":3,"id":"d"}"#),
        json(r#"{"id":"a"}"#),
        json(r#"{"index":5,"id":"f"}"#),
    ]);
    assert!(!acc.is_empty());
    let ids: Vec<String> = values(&acc.finish())
        .iter()
        .map(|c| c["id"].as_str().unwrap().to_string())
        .collect();
    assert_eq!(ids, vec!["a", "d", "f", "h"]);
}

#[test]
fn an_index_that_is_no_count_is_zero() {
    let mut acc = ToolCallAccumulator::new();
    acc.absorb(&[json(r#"{"index":-1,"t":"a"}"#), json(r#"{"index":"1","t":"b"}"#)]);
    let calls = values(&acc.finish());
    assert_eq!(calls.len(), 1);
    assert_eq!(calls[0]["t"], "ab");
}

// ---------- packing responses ----------

#[test]
fn signed_call_without_an_id_stays_as_it_is() {
    let text = r#"{"extra_content":{"google":{"thought_signature":"S"}}}"#;
    let mut call = json(text);
    assert_eq!(signature_of(&call), Some("S"));
    pack_tool_call(&mut call);
    assert_eq!(value(&call), value(&json(text)));
}

#[test]
fn every_choice_of_a_response_is_packed() {
    let mut body = json(
        r#"{"choices":[
            {"message":{"tool_calls":[
                {"id":"a","extra_content":{"google":{"thought_signature":"1"}}},
                {"id":"b"}]}},
            {"message":{"content":"text"}},
            {"message":{"tool_calls":[{"id":"c","extra_content":{"google":{"thought_signature":"2"}}}]}}
        ],"id":"r"}"#,
    );
    pack_response(&mut body);
    let out = value(&body);
    assert_eq!(out.pointer("/choices/0/message/tool_calls/0/id").unwrap(), "a__thought__1");
    assert_eq!(out.pointer("/choices/0/message/tool_calls/1/id").unwrap(), "b");
    assert_eq!(out.pointer("/choices/1/message/content").unwrap(), "text");
    assert_eq!(out.pointer("/choices/2/message/tool_calls/0/id").unwrap(), "c__thought__2");
    assert_eq!(out["id"], "r");
}

#[test]
fn response_of_another_shape_is_left_alone() {
    for text in [
        "null",
        r#"{"choices":{"0":{}}}"#,
        r#"{"choices":[7,{"message":[]},{"message":{"tool_calls":"x"}}]}"#,
    ] {
        let mut body = json(text);
        pack_response(&mut body);
        assert_eq!(value(&body), value(&json(text)));
    }
}

// ---------- full round trip ----------

#[test]
fn signature_survives_a_full_turn() {
    let mut response = json(
        r#"{
        "choices":[{"message":{"role":"assistant","tool_calls":[{
            "id":"call_abc","type":"function",
            "function":{"name":"read_file","arguments":"{\"path\":\"a.rs\"}"},
            "extra_content":{"google":{"thought_signature":"SIG_ROUNDTRIP"}}
        }]}}]
    }"#,
    );
    pack_response(&mut response);

    let packed_id = value(&response)
        .pointer("/choices/0/message/tool_calls/0/id")
        .unwrap()
        .as_str()
        .unwrap()
        .to_string();
    assert_eq!(packed_id, "call_abc__thought__SIG_ROUNDTRIP");

    let mut next_request = json(&format!(
        r#"{{
        "model":"gemini-3.7-flash",
        "messages":[
            {{"role":"user","content":"read a.rs"}},
            {{"role":"assistant","tool_calls":[{{
                "id": "{packed_id}",
                "type":"function",
                "function":{{"name":"read_file","arguments":"{{\"path\":\"a.rs\"}}"}}
            }}]}},
            {{"role":"tool","tool_call_id": "{packed_id}","content":"fn main() {{}}"}}
        ]
    }}"#
    ));

    restore_request(&mut next_request);
    let next_request = value(&next_request);

    assert_eq!(
        next_request.pointer("/messages/1/tool_calls/0/id").unwrap(),
        "call_abc",
        "id must be the one Vertex issued"
    );
    assert_eq!(
        next_request
            .pointer("/messages/1/tool_calls/0/extra_content/google/thought_signature")
            .unwrap(),
        "SIG_ROUNDTRIP",
        "signature must be back where Vertex expects it"
    );
    assert_eq!(
        next_request.pointer("/messages/2/tool_call_id").unwrap(),
        "call_abc",
        "tool result id must match the call id"
    );
}

#[test]
fn requests_without_tool_calls_are_left_alone() {
    let original = json(r#"{"model":"gemini-pro","messages":[{"role":"user","content":"hi"}]}"#);
    let mut body = original.clone();
    restore_request(&mut body);
    assert_eq!(value(&body), value(&original));
}

#[test]
fn restoring_preserves_other_google_extra_content() {
    let mut body = json(
        r#"{"messages":[{"role":"assistant","tool_calls":[{
        "id":"call_a__thought__SIG",
        "extra_content":{"google":{"something_else":true}}
    }]}]}"#,
    );
    restore_request(&mut body);
    let body = value(&body);
    let ec = body
        .pointer("/messages/0/tool_calls/0/extra_content/google")
        .unwrap();
    assert_eq!(ec["thought_signature"], "SIG");
    assert_eq!(
        ec["something_else"], true,
        "must not clobber sibling fields"
    );
}

#[test]
fn plain_call_is_restored_to_itself() {
    for text in [r#"{"id":"call_a","type":"function"}"#, r#"{"id":7}"#, "{}", "[]"] {
        let mut call = json(text);
        restore_tool_call(&mut call);
        assert_eq!(value(&call), value(&json(text)));
    }
}

#[test]
fn signature_finds_no_room_in_content_of_another_shape() {
    let mut call = json(r#"{"id":"a__thought__S","extra_content":"x"}"#);
    restore_tool_call(&mut call);
    assert_eq!(value(&call), value(&json(r#"{"id":"a","extra_content":"x"}"#)));
    let mut call = json(r#"{"id":"a__thought__S","extra_content":{"google":1}}"#);
    restore_tool_call(&mut call);
    assert_eq!(value(&call), value(&json(r#"{"id":"a","extra_content":{"google":1}}"#)));
}

#[test]
fn usage_is_found_where_it_is_an_object() {
    assert!(usage_of(&json(r#"{"usage":{"prompt_tokens":1}}"#)).is_some());
    assert!(usage_of(&json(r#"{"usage":null}"#)).is_none());
    assert!(usage_of(&json("{}")).is_none());
}

#[test]
fn streamed_signature_survives_a_turn() {
    let mut acc = ToolCallAccumulator::new();
    acc.absorb(&[
        json(r#"{"index":1,"id":"call_b","extra_content":{"google":{"thought_signature":"B/b="}}}"#),
        json(r#"{"index":0,"id":"call_a"}"#),
        json(r#"{"index":0,"extra_content":{"google":{"thought_signature":"A+a-"}}}"#),
    ]);
    let calls = values(&acc.finish());
    let expected = [("call_a", "A+a-"), ("call_b", "B/b=")];
    for (call, (id, sig)) in calls.iter().zip(expected) {
        let sent = call["id"].as_str().unwrap();
        let mut next = json(&format!(
            r#"{{"messages":[{{"tool_calls":[{{"id":"{sent}"}}]}},{{"tool_call_id":"{sent}"}}]}}"#
        ));
        restore_request(&mut next);
        let next = value(&next);
        assert_eq!(next["messages"][0]["tool_calls"][0]["id"], id);
        assert_eq!(
            next["messages"][0]["tool_calls"][0]["extra_content"]["google"]["thought_signature"],
            sig
        );
        assert_eq!(next["messages"][1]["tool_call_id"], id);
    }
}

#[test]
fn fragments_of_different_calls_may_be_swapped() {
    let a = r#"{"index":0,"id":"a","extra_content":{"google":{"thought_signature":"S"}}}"#;
    let b = r#"{"index":1,"id":"b"}"#;
    let mut one = ToolCallAccumulator::new();
    one.absorb(&[json(a)]);
    one.absorb(&[json(b)]);
    let mut other = ToolCallAccumulator::new();
    other.absorb(&[json(b)]);
    other.absorb(&[json(a)]);
    assert_eq!(values(&one.finish()), values(&other.finish()));
}

#[test]
fn pieces_of_one_text_are_joined_in_their_order() {
    let mut acc = ToolCallAccumulator::new();
    acc.absorb(&[json(r#"{"index":0,"t":"a"}"#), json(r#"{"index":0,"t":"b"}"#)]);
    assert_eq!(values(&acc.finish())[0]["t"], "ab");
}
