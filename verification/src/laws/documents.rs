//! Laws of documents, tables and texts.

use crate::json::{Json, JsonValue};
use crate::table::Table;
use vstd::prelude::*;

verus! {

/// A member is read where an object has it, and nowhere else.
pub proof fn law_reading_a_member(v: Json, name: Seq<char>)
    ensures
        v is Object && v->Object_0.contains_key(name) ==> v.field(name) == Some(
            v->Object_0[name],
        ),
        !(v is Object && v->Object_0.contains_key(name)) ==> v.field(name) is None,
        crate::json::field_of(Some(v), name) == v.field(name),
        crate::json::field_of(None, name) is None,
{
}

/// A member that is put in is there, every other member stays, and what is no
/// object does not change.
pub proof fn law_putting_a_member_in(v: Json, name: Seq<char>, value: Json, other: Seq<char>)
    ensures
        v is Object ==> v.with_field(name, value) is Object,
        v is Object ==> v.with_field(name, value).field(name) == Some(value),
        other != name ==> v.with_field(name, value).field(other) == v.field(other),
        !(v is Object) ==> v.with_field(name, value) == v,
{
}

/// A member that is taken out is gone, every other member stays, and what is no
/// object does not change.
pub proof fn law_taking_a_member_out(v: Json, name: Seq<char>, other: Seq<char>)
    ensures
        v is Object ==> v.without_field(name) is Object,
        v.without_field(name).field(name) is None,
        other != name ==> v.without_field(name).field(other) == v.field(other),
        !(v is Object) ==> v.without_field(name) == v,
{
}

/// A value is read as what it is and as nothing else.
pub proof fn law_reading_a_value(v: Json)
    ensures
        v matches Json::Text(s) ==> v.text() == Some(s),
        v !is Text ==> v.text() is None,
        v matches Json::Array(a) ==> v.elements() == Some(a),
        v !is Array ==> v.elements() is None,
        v matches Json::Object(m) ==> v.members() == Some(m),
        v !is Object ==> v.members() is None,
        v matches Json::Bool(b) ==> v.flag() == Some(b),
        v !is Bool ==> v.flag() is None,
        v matches Json::Num(n) ==> v.count() == crate::json::count_of(n),
        v !is Num ==> v.count() is None,
{
}

/// Values say what they hold, element by element and member by member.
pub proof fn law_what_a_value_says(v: JsonValue)
    ensures
        v is Null <==> v@ is Null,
        v matches JsonValue::Bool(b) ==> v@ == Json::Bool(b),
        v matches JsonValue::Num(n) ==> v@ == Json::Num(n),
        v matches JsonValue::Text(s) ==> v@ == Json::Text(s@),
        v matches JsonValue::Array(a) ==> {
            &&& v@ is Array
            &&& v@->Array_0.len() == a@.len()
            &&& forall|i: int| 0 <= i < a@.len() ==> #[trigger] v@->Array_0[i] == a@[i]@
        },
        v matches JsonValue::Object(t) ==> t.wf() ==> {
            &&& v@ is Object
            &&& forall|name: Seq<char>| #[trigger]
                v@->Object_0.contains_key(name) <==> t.names().contains(name)
            &&& forall|i: int|
                0 <= i < t.names().len() ==> v@->Object_0[#[trigger] t.names()[i]]
                    == t.items()[i]@
        },
{
    match v {
        JsonValue::Array(a) => {
            crate::json::lemma_all_json(a@);
        },
        JsonValue::Object(t) => {
            crate::json::lemma_all_json(t.items());
            if t.wf() {
                assert forall|i: int| 0 <= i < t.names().len() implies v@->Object_0[#[trigger] t.names()[i]]
                    == t.items()[i]@ by {
                    crate::table::lemma_index_of(t.names(), i);
                    assert(crate::json::all_json(t.items())[i] == t.items()[i]@);
                }
            }
        },
        _ => {},
    }
}

/// What the values in a list say, one for one.
pub proof fn law_what_a_list_says(values: Seq<JsonValue>)
    ensures
        crate::json::all_json(values).len() == values.len(),
        forall|i: int|
            0 <= i < values.len() ==> #[trigger] crate::json::all_json(values)[i] == values[i]@,
{
    crate::json::lemma_all_json(values);
}

/// A table takes each of its names to the value in the same row, and no other
/// name to anything.
pub proof fn law_rows_are_the_table<V>(t: Table<V>)
    requires
        t.wf(),
    ensures
        t.names().len() == t.items().len(),
        forall|i: int, j: int| 0 <= i < j < t.names().len() ==> t.names()[i] != t.names()[j],
        forall|i: int|
            0 <= i < t.names().len() ==> t@.contains_key(#[trigger] t.names()[i])
                && t@[t.names()[i]] == t.items()[i],
        forall|name: Seq<char>| #[trigger] t@.contains_key(name) ==> t.names().contains(name),
{
    assert forall|i: int| 0 <= i < t.names().len() implies t@.contains_key(#[trigger] t.names()[i])
        && t@[t.names()[i]] == t.items()[i] by {
        crate::table::lemma_index_of(t.names(), i);
    }
}

/// A table of models takes each alias to the characters of its model.
pub proof fn law_what_aliases_say(t: Table<String>)
    ensures
        forall|name: Seq<char>| #[trigger]
            crate::config::alias_map(t).contains_key(name) <==> t@.contains_key(name),
        forall|name: Seq<char>|
            t@.contains_key(name) ==> #[trigger] crate::config::alias_map(t)[name] == t@[name]@,
{
}

/// A string that may be missing says its characters, and nothing where it is
/// missing.
pub proof fn law_what_strings_say(s: String, all: Seq<String>)
    ensures
        crate::text::string_of(Some(s)) == Some(s@),
        crate::text::string_of(None) is None,
        crate::sse::texts(all).len() == all.len(),
        forall|i: int| 0 <= i < all.len() ==> #[trigger] crate::sse::texts(all)[i] == all[i]@,
{
}

/// The same of a borrowed string.
pub proof fn law_what_a_borrowed_string_says(s: &str)
    ensures
        crate::text::text_of(Some(s)) == Some(s@),
        crate::text::text_of(None) is None,
{
}

/// The number that decimal digits stand for.
pub open spec fn digits_value(digits: Seq<char>) -> int
    decreases digits.len(),
{
    if digits.len() == 0 {
        0
    } else {
        10 * digits_value(digits.drop_last()) + (digits.last() as int - '0' as int)
    }
}

/// A number is written with decimal digits that stand for it, without a zero
/// before them.
pub proof fn law_decimal_digits(n: nat)
    ensures
        digits_value(crate::text::decimal(n)) == n,
        crate::text::decimal(n).len() > 0,
        forall|i: int|
            0 <= i < crate::text::decimal(n).len() ==> '0' <= #[trigger] crate::text::decimal(n)[i]
                <= '9',
        n > 0 ==> crate::text::decimal(n)[0] != '0',
    decreases n,
{
    let d = crate::text::decimal(n);
    if n < 10 {
        assert(d.drop_last() =~= Seq::empty());
        assert(digits_value(Seq::empty()) == 0);
        assert(digits_value(d) == 10 * digits_value(d.drop_last()) + (d.last() as int - '0' as int));
    } else {
        law_decimal_digits(n / 10);
        assert(d.drop_last() =~= crate::text::decimal(n / 10));
    }
}

/// What a stream says when a line is over the cap.
pub proof fn law_overrun_names_the_cap(limit: usize)
    ensures
        exists|digits: Seq<char>|
            digits_value(digits) == limit && #[trigger] ("SSE line exceeded "@ + digits
                + " bytes without a newline; aborting stream"@) == crate::sse::overrun_message(limit),
{
    law_decimal_digits(limit as nat);
    let digits = crate::text::decimal(limit as nat);
    assert(("SSE line exceeded "@ + digits + " bytes without a newline; aborting stream"@)
        == crate::sse::overrun_message(limit));
}

/// Bytes that are UTF-8 stand for the text that they encode.
pub proof fn law_text_reads_back(text: Seq<char>)
    ensures
        crate::text::decoded(vstd::utf8::encode_utf8(text)) == text,
{
    vstd::utf8::encode_utf8_valid_utf8(text);
    vstd::utf8::encode_utf8_decode_utf8(text);
}

/// An error is an object whose one member `error` is an object whose one member
/// `message` is the message.
pub proof fn law_error_holds_its_message(message: Seq<char>, name: Seq<char>)
    ensures
        crate::reply::error_json(message).field(name) is Some <==> name == "error"@,
        crate::reply::error_json(message).field("error"@) matches Some(e) && (e.field(
            name,
        ) is Some <==> name == "message"@) && e.field("message"@) == Some(Json::Text(message)),
{
}

} // verus!
