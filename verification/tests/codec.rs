//! JSON text, documents and values.

use gateway_for_vertex_ai::codec::{from_document, parse, render, to_document};
use gateway_for_vertex_ai::json::JsonValue;

#[test]
fn text_is_read_and_written() {
    let v = parse(r#" {"b":[1,-2,1.5,true,null],"a":"é\n"} "#).unwrap();
    assert_eq!(render(&v), "{\"a\":\"é\\n\",\"b\":[1,-2,1.5,true,null]}");
    assert!(parse("{").is_none());
    assert!(parse("").is_none());
}

#[test]
fn documents_pass_both_ways() {
    let doc: serde_json::Value =
        serde_json::from_str(r#"{"x":{"y":[{"z":18446744073709551615}]},"w":[]}"#).unwrap();
    assert_eq!(to_document(&from_document(doc.clone())), doc);
}

#[test]
fn later_member_of_one_name_counts() {
    assert_eq!(render(&parse(r#"{"a":1,"a":2}"#).unwrap()), r#"{"a":2}"#);
}

#[test]
fn members_are_put_in_and_taken_out() {
    let mut v = JsonValue::object()
        .with("a", JsonValue::count(1))
        .with("b", JsonValue::text("x"))
        .with("a", JsonValue::Bool(false));
    assert_eq!(render(&v), r#"{"a":false,"b":"x"}"#);
    assert_eq!(v.get("a").unwrap().as_bool(), Some(false));
    assert_eq!(v.get("b").unwrap().as_str(), Some("x"));
    assert!(v.get("c").is_none());
    *v.get_mut("b").unwrap() = JsonValue::array(vec![JsonValue::Null]);
    v.remove("a");
    v.remove("zzz");
    assert_eq!(render(&v), r#"{"b":[null]}"#);
    assert!(v.get("b").unwrap().as_array().unwrap()[0].is_null());
    v.get_mut("b").unwrap().as_array_mut().unwrap().push(JsonValue::count(u64::MAX));
    assert_eq!(render(&v.clone()), r#"{"b":[null,18446744073709551615]}"#);
}

#[test]
fn counts_are_integers_without_a_sign() {
    assert_eq!(parse("7").unwrap().as_u64(), Some(7));
    assert_eq!(parse("-7").unwrap().as_u64(), None);
    assert_eq!(parse("7.0").unwrap().as_u64(), None);
    assert_eq!(parse("\"7\"").unwrap().as_u64(), None);
    assert_eq!(JsonValue::count(9).as_u64(), Some(9));
}
