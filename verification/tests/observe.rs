//! Token counts.

use gateway_for_vertex_ai::codec::parse;
use gateway_for_vertex_ai::observe::{parse_usage, CompletionEvent, Usage};

#[test]
fn parses_nested_reasoning_tokens() {
    let raw = parse(
        r#"{
            "prompt_tokens": 8,
            "completion_tokens": 6,
            "total_tokens": 931,
            "completion_tokens_details": {"reasoning_tokens": 917}
        }"#,
    )
    .unwrap();
    let u = parse_usage(raw.as_object().unwrap());
    assert_eq!(u.prompt_tokens, 8);
    assert_eq!(u.completion_tokens, 6);
    assert_eq!(u.reasoning_tokens, 917);
}

#[test]
fn missing_fields_default_to_zero() {
    let raw = parse(r#"{"prompt_tokens": 1}"#).unwrap();
    let u = parse_usage(raw.as_object().unwrap());
    assert_eq!(u.prompt_tokens, 1);
    assert_eq!(u.reasoning_tokens, 0);
}

#[test]
fn counts_that_are_no_counts_are_zero() {
    let raw = parse(
        r#"{"prompt_tokens": -1, "completion_tokens": "6", "completion_tokens_details": [917]}"#,
    )
    .unwrap();
    assert_eq!(parse_usage(raw.as_object().unwrap()), Usage::default());
    let raw = parse(r#"{"prompt_tokens": 1.5, "completion_tokens": 18446744073709551615}"#).unwrap();
    let u = parse_usage(raw.as_object().unwrap());
    assert_eq!(u.prompt_tokens, 0);
    assert_eq!(u.completion_tokens, u64::MAX);
}

#[test]
fn event_clone_says_the_same() {
    let event = CompletionEvent {
        model: "m".to_string(),
        status: 200,
        streamed: true,
        duration: std::time::Duration::from_millis(5),
        usage: Some(Usage {
            prompt_tokens: 1,
            completion_tokens: 2,
            reasoning_tokens: 3,
        }),
    };
    let copy = event.clone();
    assert_eq!(copy.model, "m");
    assert_eq!(copy.status, 200);
    assert!(copy.streamed);
    assert_eq!(copy.duration, event.duration);
    assert_eq!(copy.usage, event.usage);
}
