//! Lines of an event stream.

use gateway_for_vertex_ai::sse::{data_payload, LineAccumulator, DEFAULT_MAX_LINE_BYTES};

fn feed(chunks: &[&[u8]]) -> Vec<String> {
    let mut acc = LineAccumulator::new();
    let mut out = Vec::new();
    for c in chunks {
        out.extend(acc.push(c).expect("within cap"));
    }
    out.extend(acc.finish());
    out
}

#[test]
fn line_split_across_chunks_is_rejoined() {
    let out = feed(&[b"data: {\"a\":1}\ndata: {\"b\"", b":2}\ndata: [DONE]\n"]);
    assert_eq!(out.len(), 3);
    assert_eq!(out[1], r#"data: {"b":2}"#);
}

#[test]
fn multibyte_text_survives_any_split_point() {
    for text in [
        "hello",               // 1 byte
        "chào bạn tiếng Việt", // 2-3 bytes
        "你好世界",            // 3 bytes
        "😀🎉 emoji",          // 4 bytes
        "👨‍👩‍👧‍👦",                  // ZWJ cluster, 25 bytes
    ] {
        let line = format!("data: {text}\n");
        let bytes = line.as_bytes();
        for cut in 0..=bytes.len() {
            let (a, b) = bytes.split_at(cut);
            let out = feed(&[a, b]);
            assert_eq!(out, vec![format!("data: {text}")], "split at byte {cut}");
        }
    }
}

#[test]
fn byte_at_a_time_still_works() {
    let line = "data: {\"content\":\"你好 chào 😀\"}\n";
    let parts: Vec<&[u8]> = line.as_bytes().chunks(1).collect();
    assert_eq!(feed(&parts), vec![line.trim().to_string()]);
}

#[test]
fn missing_newline_is_capped_instead_of_growing_forever() {
    let mut acc = LineAccumulator::with_limit(1024);
    let junk = vec![b'x'; 512];
    assert!(acc.push(&junk).is_ok());
    assert!(acc.push(&junk).is_ok());
    assert!(
        acc.push(&junk).is_err(),
        "must abort rather than buffer without limit"
    );
}

#[test]
fn data_payload_skips_non_json_lines() {
    assert_eq!(data_payload("data: {\"a\":1}"), Some("{\"a\":1}"));
    assert_eq!(data_payload("data: [DONE]"), None);
    assert_eq!(data_payload(""), None);
    assert_eq!(data_payload(": keep-alive comment"), None);
}

#[test]
fn many_complete_lines_do_not_trip_the_cap() {
    let one = "data: {\"x\":1}\n";
    let big: String = one.repeat(200_000); // ~2.8 MB
    let mut acc = LineAccumulator::new();
    let lines = acc.push(big.as_bytes()).expect("must not be rejected");
    assert_eq!(lines.len(), 200_000);
}

#[test]
fn crlf_line_endings_are_handled() {
    let mut acc = LineAccumulator::new();
    let lines = acc.push(b"data: {\"a\":1}\r\ndata: {\"b\":2}\r\n").unwrap();
    assert_eq!(lines, vec![r#"data: {"a":1}"#, r#"data: {"b":2}"#]);
}

#[test]
fn only_one_leading_space_is_stripped_after_data() {
    assert_eq!(data_payload("data:  {\"a\":1}"), Some(" {\"a\":1}"));
    assert_eq!(data_payload("data: {\"a\":1}"), Some("{\"a\":1}"));
    assert_eq!(data_payload("data:{\"a\":1}"), Some("{\"a\":1}"));
}

#[test]
fn a_large_single_event_is_not_rejected() {
    let payload = "x".repeat(4 * 1024 * 1024);
    let line = format!("data: {{\"content\":\"{payload}\"}}\n");
    let mut acc = LineAccumulator::new();
    assert_eq!(acc.push(line.as_bytes()).unwrap().len(), 1);
}

#[test]
fn cap_is_thirty_two_mebibytes_and_named_in_the_error() {
    assert_eq!(DEFAULT_MAX_LINE_BYTES, 33_554_432);
    let mut acc = LineAccumulator::with_limit(1024);
    assert!(acc.push(&[b'x'; 1024]).is_ok());
    assert_eq!(
        acc.push(b"y").unwrap_err(),
        "SSE line exceeded 1024 bytes without a newline; aborting stream"
    );
    let mut none = LineAccumulator::with_limit(0);
    assert_eq!(
        none.push(b"y").unwrap_err(),
        "SSE line exceeded 0 bytes without a newline; aborting stream"
    );
}

#[test]
fn cap_is_on_every_single_line() {
    let mut acc = LineAccumulator::with_limit(4);
    assert!(acc.push(b"abcdefgh\n").is_err());
    assert_eq!(
        acc.push(b"abcd\nabcde\nab").unwrap_err(),
        "SSE line exceeded 4 bytes without a newline; aborting stream"
    );
    // What was open stays after the error.
    assert_eq!(acc.finish(), Some("ab".to_string()));
    assert_eq!(acc.push(b"abcd\nabcd\nabcd").unwrap(), vec!["abcd", "abcd"]);
    assert!(acc.push(b"e").is_err());
}

#[test]
fn cap_does_not_depend_on_where_a_line_is_cut() {
    for (line, fits) in [("abcd\n", true), ("abcde\n", false)] {
        for cut in 0..=line.len() {
            let (a, b) = line.as_bytes().split_at(cut);
            let mut acc = LineAccumulator::with_limit(4);
            let ok = acc.push(a).is_ok() && acc.push(b).is_ok();
            assert_eq!(ok, fits, "{line:?} cut at byte {cut}");
        }
    }
}

#[test]
fn finish_gives_the_open_line_once() {
    let mut acc = LineAccumulator::default();
    assert_eq!(acc.finish(), None);
    assert_eq!(acc.push(b"a\nb").unwrap(), vec!["a"]);
    assert_eq!(acc.finish(), Some("b".to_string()));
    assert_eq!(acc.finish(), None);
    assert!(acc.push(b"\r").unwrap().is_empty());
    assert_eq!(acc.finish(), None);
}

#[test]
fn bytes_that_are_no_text_are_replaced() {
    let mut acc = LineAccumulator::new();
    assert_eq!(acc.push(b"a\xffb\n\xe4\xbd\n").unwrap(), vec!["a\u{fffd}b", "\u{fffd}"]);
}

#[test]
fn chunks_do_not_matter_for_several_lines() {
    let text = "data: één\r\n\ndata: 你好\n: note\ndata: rest";
    let whole = feed(&[text.as_bytes()]);
    assert_eq!(whole, vec!["data: één", "", "data: 你好", ": note", "data: rest"]);
    for cut in 0..=text.len() {
        let (a, b) = text.as_bytes().split_at(cut);
        assert_eq!(feed(&[a, b]), whole, "split at byte {cut}");
    }
}

#[test]
fn only_the_last_carriage_return_is_dropped() {
    assert_eq!(feed(&[b"a\r\r\nb\rc\n"]), vec!["a\r", "b\rc"]);
}

#[test]
fn payload_needs_the_exact_prefix() {
    assert_eq!(data_payload("data"), None);
    assert_eq!(data_payload("data:"), None);
    assert_eq!(data_payload("data: "), None);
    assert_eq!(data_payload(" data: x"), None);
    assert_eq!(data_payload("data:[DONE]"), None);
    assert_eq!(data_payload("data:  [DONE]"), Some(" [DONE]"));
    assert_eq!(data_payload("data: [DONE] "), Some("[DONE] "));
}

#[test]
fn lines_survive_any_number_of_cuts() {
    let texts = ["data: chào", "", "你好世界", "data: 😀"];
    let stream: String = texts.iter().map(|t| format!("{t}\n")).collect();
    for size in 1..=stream.len() {
        let parts: Vec<&[u8]> = stream.as_bytes().chunks(size).collect();
        assert_eq!(feed(&parts), texts, "in chunks of {size} bytes");
    }
}
