//! Preserving thought signatures across turns.
//!
//! A model signs the reasoning behind a tool call and asks for the signature
//! back with the next turn. The signature arrives in a field that a standard
//! client drops, so it travels inside the one field that a client returns
//! unchanged, the id of the tool call:
//!
//! ```text
//! model   -> gateway:  id = "call_abc", signature = "AY89..."
//! gateway -> client:   id = "call_abc__thought__AY89..."
//! client  -> gateway:  id = "call_abc__thought__AY89..."
//! gateway -> model:    id = "call_abc", signature restored
//! ```
//!
//! Nothing is kept between requests.

use crate::json::{Json, JsonValue};
use crate::table::Table;
use crate::text::{chars_of, string_between};
use vstd::prelude::*;

verus! {

// --------------------------------------------------------------- id packing

/// Separates the id from the signature that it carries.
pub const MARKER: &'static str = "__thought__";

/// The characters of the separator.
pub open spec fn marker() -> Seq<char> {
    MARKER@
}

/// Bytes that stand for themselves in a packed id: `[A-Za-z0-9_]`.
pub open spec fn is_plain(b: u8) -> bool {
    ||| 'A' as u8 <= b <= 'Z' as u8
    ||| 'a' as u8 <= b <= 'z' as u8
    ||| '0' as u8 <= b <= '9' as u8
    ||| b == '_' as u8
}

/// The hexadecimal digit for a number below sixteen, in lower case.
pub open spec fn hex_digit(n: int) -> char {
    if n < 10 {
        ('0' as int + n) as char
    } else {
        ('a' as int + (n - 10)) as char
    }
}

/// The characters for one byte: itself, or a hyphen and two digits.
pub open spec fn escaped_byte(b: u8) -> Seq<char> {
    if is_plain(b) {
        seq![b as char]
    } else {
        seq!['-', hex_digit(b as int / 16), hex_digit(b as int % 16)]
    }
}

/// The characters for a sequence of bytes.
pub open spec fn escaped(bytes: Seq<u8>) -> Seq<char>
    decreases bytes.len(),
{
    if bytes.len() == 0 {
        Seq::empty()
    } else {
        escaped(bytes.drop_last()) + escaped_byte(bytes.last())
    }
}

/// The value of a hexadecimal digit in either case.
pub open spec fn hex_value(b: u8) -> Option<int> {
    if '0' as u8 <= b <= '9' as u8 {
        Some(b - '0' as u8)
    } else if 'a' as u8 <= b <= 'f' as u8 {
        Some(b - 'a' as u8 + 10)
    } else if 'A' as u8 <= b <= 'F' as u8 {
        Some(b - 'A' as u8 + 10)
    } else {
        None
    }
}

/// The byte that two hexadecimal digits behind a hyphen stand for; any other two
/// bytes stand for none.
pub open spec fn escape_value(high: u8, low: u8) -> Option<u8> {
    match (hex_value(high), hex_value(low)) {
        (Some(h), Some(l)) => Some((16 * h + l) as u8),
        _ => None,
    }
}

/// The bytes that an escaped text stands for; a hyphen without two bytes that
/// name a byte behind it stands for nothing.
pub open spec fn unescaped(bytes: Seq<u8>) -> Option<Seq<u8>>
    decreases bytes.len(),
{
    if bytes.len() == 0 {
        Some(Seq::empty())
    } else if bytes[0] == '-' as u8 {
        if bytes.len() < 3 {
            None
        } else {
            match (escape_value(bytes[1], bytes[2]), unescaped(bytes.skip(3))) {
                (Some(b), Some(rest)) => Some(seq![b] + rest),
                _ => None,
            }
        }
    } else {
        match unescaped(bytes.skip(1)) {
            Some(rest) => Some(seq![bytes[0]] + rest),
            None => None,
        }
    }
}

/// The signature in an escaped text, where the text holds one.
pub open spec fn signature_in(text: Seq<char>) -> Option<Seq<char>> {
    match unescaped(vstd::utf8::encode_utf8(text)) {
        Some(bytes) => if vstd::utf8::valid_utf8(bytes) {
            Some(vstd::utf8::decode_utf8(bytes))
        } else {
            None
        },
        None => None,
    }
}

/// Whether a byte stands for itself in a packed id.
fn stands_for_itself(b: u8) -> (r: bool)
    ensures
        r == is_plain(b),
{
    (('A' as u8) <= b && b <= ('Z' as u8)) || (('a' as u8) <= b && b <= ('z' as u8)) || (('0' as u8)
        <= b && b <= ('9' as u8)) || b == ('_' as u8)
}

/// The hexadecimal digit for a number, in lower case.
fn to_hex(n: u8) -> (r: char)
    requires
        n < 16,
    ensures
        r == hex_digit(n as int),
{
    if n < 10 {
        (('0' as u8) + n) as char
    } else {
        (('a' as u8) + (n - 10)) as char
    }
}

/// The value of a hexadecimal digit, if the byte is one.
fn from_hex(b: u8) -> (r: Option<u8>)
    ensures
        match r {
            Some(n) => hex_value(b) == Some(n as int) && n < 16,
            None => hex_value(b) is None,
        },
{
    if ('0' as u8) <= b && b <= ('9' as u8) {
        Some(b - ('0' as u8))
    } else if ('a' as u8) <= b && b <= ('f' as u8) {
        Some(b - ('a' as u8) + 10)
    } else if ('A' as u8) <= b && b <= ('F' as u8) {
        Some(b - ('A' as u8) + 10)
    } else {
        None
    }
}

/// Writes a signature with the characters `[A-Za-z0-9_-]` alone.
///
/// Signatures are base64 and hold `+`, `/` and `=`, which no id holds. Every
/// byte outside `[A-Za-z0-9_]` becomes a hyphen and two hexadecimal digits. The
/// hyphen is itself escaped, so the transformation is unambiguous.
pub fn escape_signature(sig: &str) -> (r: String)
    ensures
        r@ == escaped(vstd::utf8::encode_utf8(sig@)),
{
    let bytes = sig.as_bytes();
    let mut out = String::new();
    let mut i: usize = 0;
    assert(bytes@.take(0) =~= Seq::empty());
    while i < bytes.len()
        invariant
            i <= bytes@.len(),
            out@ == escaped(bytes@.take(i as int)),
        decreases bytes@.len() - i,
    {
        let b = bytes[i];
        let ghost before = out@;
        if stands_for_itself(b) {
            out.push(b as char);
        } else {
            out.push('-');
            out.push(to_hex(b / 16));
            out.push(to_hex(b % 16));
        }
        proof {
            assert(out@ =~= before + escaped_byte(b));
            let next = bytes@.take(i + 1);
            assert(next.drop_last() =~= bytes@.take(i as int));
        }
        i += 1;
    }
    assert(bytes@.take(i as int) =~= bytes@);
    out
}

/// Reads a signature back, or nothing where the text is malformed.
pub fn unescape_signature(text: &str) -> (r: Option<String>)
    ensures
        match r {
            Some(s) => signature_in(text@) == Some(s@),
            None => signature_in(text@) is None,
        },
{
    let bytes = text.as_bytes();
    let mut out: Vec<u8> = Vec::new();
    let mut i: usize = 0;
    assert(bytes@.skip(0) =~= bytes@);
    while i < bytes.len()
        invariant
            i <= bytes@.len(),
            bytes@ == vstd::utf8::encode_utf8(text@),
            match unescaped(bytes@.skip(i as int)) {
                Some(rest) => unescaped(bytes@) == Some(out@ + rest),
                None => unescaped(bytes@) is None,
            },
        decreases bytes@.len() - i,
    {
        let ghost rest = bytes@.skip(i as int);
        let ghost before = out@;
        if bytes[i] == ('-' as u8) {
            if bytes.len() - i < 3 {
                return None;
            }
            let high = bytes[i + 1];
            let low = bytes[i + 2];
            let b = match (from_hex(high), from_hex(low)) {
                (Some(h), Some(l)) => 16 * h + l,
                _ => {
                    return None;
                },
            };
            out.push(b);
            i += 3;
            proof {
                assert(rest.skip(3) =~= bytes@.skip(i as int));
                if let Some(tail) = unescaped(rest.skip(3)) {
                    assert(before + (seq![b] + tail) =~= out@ + tail);
                }
            }
        } else {
            let b = bytes[i];
            out.push(b);
            i += 1;
            proof {
                assert(rest.skip(1) =~= bytes@.skip(i as int));
                if let Some(tail) = unescaped(rest.skip(1)) {
                    assert(before + (seq![b] + tail) =~= out@ + tail);
                }
            }
        }
    }
    assert(bytes@.skip(i as int) =~= Seq::empty());
    assert(out@ + Seq::<u8>::empty() =~= out@);
    match String::from_utf8(out) {
        Ok(s) => Some(s),
        Err(_) => None,
    }
}

/// The separator stands in the text at this place.
pub open spec fn marker_at(text: Seq<char>, k: int) -> bool {
    0 <= k && k + marker().len() <= text.len() && text.subrange(k, k + marker().len() as int)
        == marker()
}

/// The separator stands at this place, and nowhere before it.
pub open spec fn first_marker_at(text: Seq<char>, k: int) -> bool {
    marker_at(text, k) && forall|j: int| 0 <= j < k ==> !marker_at(text, j)
}

/// The id that carries a signature, or the id itself where there is none.
pub open spec fn packed(id: Seq<char>, signature: Option<Seq<char>>) -> Seq<char> {
    match signature {
        Some(sig) => id + marker() + escaped(vstd::utf8::encode_utf8(sig)),
        None => id,
    }
}

/// What an id says, split at its first separator: the id proper, and the
/// signature, where what follows the separator holds one.
pub open spec fn unpacked(text: Seq<char>) -> (Seq<char>, Option<Seq<char>>) {
    if exists|k: int| first_marker_at(text, k) {
        let k = choose|k: int| first_marker_at(text, k);
        (text.take(k), signature_in(text.skip(k + marker().len() as int)))
    } else {
        (text, None)
    }
}

/// There is one first separator at most.
proof fn lemma_first_marker(text: Seq<char>, k: int)
    requires
        first_marker_at(text, k),
    ensures
        unpacked(text) == (text.take(k), signature_in(text.skip(k + marker().len() as int))),
{
    let c = choose|k: int| first_marker_at(text, k);
    assert(first_marker_at(text, c));
    if c < k {
        assert(!marker_at(text, c));
    } else if k < c {
        assert(!marker_at(text, k));
    }
}

/// Folds a signature into an id.
pub fn pack_id(id: &str, signature: Option<&str>) -> (r: String)
    ensures
        r@ == packed(id@, crate::text::text_of(signature)),
{
    let mut out = id.to_owned();
    match signature {
        Some(sig) => {
            out.append(MARKER);
            out.append(escape_signature(sig).as_str());
        },
        None => {},
    }
    out
}

/// Splits an id into the id proper and the signature that it carries.
pub fn unpack_id(text: &str) -> (r: (String, Option<String>))
    ensures
        (r.0@, crate::text::string_of(r.1)) == unpacked(text@),
{
    let chars = chars_of(text);
    let mark = chars_of(MARKER);
    let n = mark.len();
    let mut k: usize = 0;
    while k < chars.len() && n <= chars.len() - k
        invariant
            k <= chars@.len(),
            chars@ == text@,
            mark@ == marker(),
            n == mark@.len(),
            forall|j: int| 0 <= j < k ==> !marker_at(text@, j),
        decreases chars@.len() - k,
    {
        let mut j: usize = 0;
        while j < n && chars[k + j] == mark[j]
            invariant
                j <= n,
                n == mark@.len(),
                k + n <= chars.len(),
                forall|i: int| 0 <= i < j ==> chars@[k + i] == mark@[i],
            decreases n - j,
        {
            j += 1;
        }
        if j == n {
            assert(text@.subrange(k as int, k + n) =~= marker());
            proof {
                lemma_first_marker(text@, k as int);
            }
            let id = string_between(&chars, 0, k);
            let rest = string_between(&chars, k + n, chars.len());
            return (id, unescape_signature(rest.as_str()));
        }
        assert(text@.subrange(k as int, k + n)[j as int] != marker()[j as int]);
        k += 1;
    }
    proof {
        reveal_strlit("__thought__");
        assert forall|j: int| !first_marker_at(text@, j) by {
            if marker_at(text@, j) {
                assert(j < k);
            }
        }
    }
    (text.to_owned(), None)
}

/// The bytes of an ASCII text, one for each character.
spec fn ascii_bytes(text: Seq<char>) -> Seq<u8> {
    Seq::new(text.len(), |i: int| text[i] as u8)
}

/// Characters that an id may hold: `[A-Za-z0-9_-]`.
pub open spec fn is_id_char(c: char) -> bool {
    ||| 'A' <= c <= 'Z'
    ||| 'a' <= c <= 'z'
    ||| '0' <= c <= '9'
    ||| c == '_'
    ||| c == '-'
}

/// Every character of the text is one that an id may hold.
pub open spec fn is_id_text(text: Seq<char>) -> bool {
    forall|i: int| 0 <= i < text.len() ==> is_id_char(#[trigger] text[i])
}

proof fn lemma_escaped_byte(b: u8, tail: Seq<u8>)
    ensures
        is_id_text(escaped_byte(b)),
        unescaped(ascii_bytes(escaped_byte(b)) + tail) == (match unescaped(tail) {
            Some(rest) => Some(seq![b] + rest),
            None => None,
        }),
{
    let e = ascii_bytes(escaped_byte(b));
    let all = e + tail;
    if is_plain(b) {
        assert(all.skip(1) =~= tail);
    } else {
        assert(all.skip(3) =~= tail);
        let h = hex_digit(b as int / 16);
        let l = hex_digit(b as int % 16);
        assert(hex_value(h as u8) == Some(b as int / 16));
        assert(hex_value(l as u8) == Some(b as int % 16));
        assert(escape_value(all[1], all[2]) == Some(b));
    }
}

proof fn lemma_escaped(bytes: Seq<u8>, tail: Seq<u8>)
    ensures
        is_id_text(escaped(bytes)),
        unescaped(ascii_bytes(escaped(bytes)) + tail) == (match unescaped(tail) {
            Some(rest) => Some(bytes + rest),
            None => None,
        }),
    decreases bytes.len(),
{
    if bytes.len() == 0 {
        assert(ascii_bytes(escaped(bytes)) + tail =~= tail);
        if let Some(rest) = unescaped(tail) {
            assert(bytes + rest =~= rest);
        }
    } else {
        let last = bytes.last();
        let most = bytes.drop_last();
        let near = ascii_bytes(escaped_byte(last)) + tail;
        lemma_escaped_byte(last, tail);
        lemma_escaped(most, near);
        assert(ascii_bytes(escaped(bytes)) + tail =~= ascii_bytes(escaped(most)) + near);
        if let Some(rest) = unescaped(tail) {
            assert(most + (seq![last] + rest) =~= bytes + rest);
        }
    }
}

/// Reading an escaped signature gives back the signature, whatever it is.
pub proof fn law_escaping_is_unambiguous(sig: Seq<char>)
    ensures
        signature_in(escaped(vstd::utf8::encode_utf8(sig))) == Some(sig),
{
    let bytes = vstd::utf8::encode_utf8(sig);
    let text = escaped(bytes);
    lemma_escaped(bytes, Seq::empty());
    assert(vstd::utf8::is_ascii_chars(text)) by {
        assert forall|i: int| 0 <= i < text.len() implies '\0' <= #[trigger] text[i] <= '\u{7f}' by {
            assert(is_id_char(text[i]));
        }
    }
    vstd::utf8::is_ascii_chars_encode_utf8(text);
    assert(vstd::utf8::encode_utf8(text) =~= ascii_bytes(text));
    assert(ascii_bytes(text) + Seq::<u8>::empty() =~= ascii_bytes(text));
    assert(unescaped(Seq::<u8>::empty()) == Some(Seq::<u8>::empty()));
    assert(bytes + Seq::<u8>::empty() =~= bytes);
    vstd::utf8::encode_utf8_valid_utf8(sig);
    vstd::utf8::encode_utf8_decode_utf8(sig);
}

/// An id that is written with `[A-Za-z0-9_-]` stays within these characters
/// when a signature is folded into it, whatever the signature holds.
pub proof fn law_packed_id_stays_in_charset(id: Seq<char>, signature: Option<Seq<char>>)
    requires
        is_id_text(id),
    ensures
        is_id_text(packed(id, signature)),
{
    reveal_strlit("__thought__");
    assert(is_id_text(marker()));
    if let Some(sig) = signature {
        let tail = escaped(vstd::utf8::encode_utf8(sig));
        lemma_escaped(vstd::utf8::encode_utf8(sig), Seq::empty());
        let all = id + marker() + tail;
        assert forall|i: int| 0 <= i < all.len() implies is_id_char(#[trigger] all[i]) by {
            if i < id.len() {
                assert(all[i] == id[i]);
            } else if i < id.len() + marker().len() {
                assert(all[i] == marker()[i - id.len()]);
            } else {
                assert(all[i] == tail[i - id.len() - marker().len()]);
            }
        }
    }
}

/// An id can carry a signature: no separator begins in it, not even one that
/// the separator behind it completes.
pub open spec fn can_carry(id: Seq<char>) -> bool {
    forall|k: int| 0 <= k < id.len() ==> !marker_at(id + marker(), k)
}

/// Unpacking undoes packing: the id and the signature come back as they were.
/// With a signature this holds of every id that can carry one.
pub proof fn law_unpacking_undoes_packing(id: Seq<char>, sig: Seq<char>)
    requires
        can_carry(id),
    ensures
        unpacked(packed(id, Some(sig))) == (id, Some(sig)),
{
    let tail = escaped(vstd::utf8::encode_utf8(sig));
    let all = id + marker() + tail;
    let n = marker().len() as int;
    assert(all.subrange(id.len() as int, id.len() + n) =~= marker());
    assert forall|k: int| 0 <= k < id.len() implies !marker_at(all, k) by {
        if marker_at(all, k) {
            assert((id + marker()).subrange(k, k + n) =~= all.subrange(k, k + n));
            assert(marker_at(id + marker(), k));
        }
    }
    lemma_first_marker(all, id.len() as int);
    assert(all.take(id.len() as int) =~= id);
    assert(all.skip(id.len() + n) =~= tail);
    law_escaping_is_unambiguous(sig);
}

/// An id without a separator says nothing but itself: it passes through.
pub proof fn law_plain_id_passes_through(id: Seq<char>)
    requires
        forall|k: int| !marker_at(id, k),
    ensures
        packed(id, None) == id,
        unpacked(id) == (id, None::<Seq<char>>),
{
}

// ------------------------------------------------------------ delta merging

/// What a fragment makes of what was collected before it. Strings are joined,
/// objects are merged name by name, and anything else is replaced.
pub open spec fn merged(acc: Json, patch: Json) -> Json
    decreases patch,
{
    match (acc, patch) {
        (Json::Object(a), Json::Object(p)) => Json::Object(
            Map::new(
                |k: Seq<char>| a.contains_key(k) || p.contains_key(k),
                |k: Seq<char>|
                    if !p.contains_key(k) {
                        a[k]
                    } else if !a.contains_key(k) {
                        p[k]
                    } else {
                        merged(a[k], p[k])
                    },
            ),
        ),
        (Json::Text(a), Json::Text(p)) => Json::Text(a + p),
        _ => patch,
    }
}

/// The members after those under some of the names have been merged.
spec fn merged_under(
    a: Map<Seq<char>, Json>,
    p: Map<Seq<char>, Json>,
    names: Seq<Seq<char>>,
) -> Map<Seq<char>, Json> {
    Map::new(
        |k: Seq<char>| a.contains_key(k) || names.contains(k),
        |k: Seq<char>|
            if !names.contains(k) {
                a[k]
            } else if !a.contains_key(k) {
                p[k]
            } else {
                merged(a[k], p[k])
            },
    )
}

proof fn lemma_merged_under(
    a: Map<Seq<char>, Json>,
    p: Map<Seq<char>, Json>,
    names: Seq<Seq<char>>,
    name: Seq<char>,
)
    requires
        !names.contains(name),
    ensures
        merged_under(a, p, names.push(name)) == merged_under(a, p, names).insert(
            name,
            if a.contains_key(name) {
                merged(a[name], p[name])
            } else {
                p[name]
            },
        ),
        merged_under(a, p, names).contains_key(name) == a.contains_key(name),
        a.contains_key(name) ==> merged_under(a, p, names)[name] == a[name],
{
    let more = names.push(name);
    assert forall|k: Seq<char>| more.contains(k) == (names.contains(k) || k == name) by {
        if names.contains(k) {
            assert(more[names.index_of(k)] == k);
        }
        assert(more[names.len() as int] == name);
    }
    assert(merged_under(a, p, more) =~= merged_under(a, p, names).insert(
        name,
        if a.contains_key(name) {
            merged(a[name], p[name])
        } else {
            p[name]
        },
    ));
}

/// Merges a streamed fragment into what was collected before it.
///
/// Fields that nobody here knows are kept, for the signature arrives in one of
/// them. Strings are appended, because arguments are streamed as pieces of
/// text.
pub fn merge_delta(acc: &mut JsonValue, patch: &JsonValue)
    ensures
        final(acc)@ == merged(old(acc)@, patch@),
    decreases patch,
{
    match patch {
        JsonValue::Object(p) => {
            if let JsonValue::Object(a) = acc {
                merge_members(a, p);
                return;
            }
        },
        JsonValue::Text(p) => {
            if let JsonValue::Text(a) = acc {
                a.append(p.as_str());
                return;
            }
        },
        _ => {},
    }
    *acc = patch.clone();
}

/// Merges the members of one object into those of another.
fn merge_members(a: &mut Table<JsonValue>, p: &Table<JsonValue>)
    ensures
        Json::Object(crate::json::members_json(*final(a))) == merged(
            Json::Object(crate::json::members_json(*old(a))),
            Json::Object(crate::json::members_json(*p)),
        ),
    decreases p,
{
    let ghost before = crate::json::members_json(*a);
    let ghost patch = crate::json::members_json(*p);
    let n = p.len();
    let mut i: usize = 0;
    assert(merged_under(before, patch, p.names().take(0)) =~= before);
    while i < n
        invariant
            i <= n,
            n == p.names().len(),
            p.wf(),
            patch == crate::json::members_json(*p),
            crate::json::members_json(*a) == merged_under(
                before,
                patch,
                p.names().take(i as int),
            ),
        decreases n - i,
    {
        let ghost done = p.names().take(i as int);
        let ghost name = p.names()[i as int];
        let ghost start = *a;
        proof {
            p.lemma_items_decrease();
            assert(decreases_to!(p.items() => p.items()[i as int]));
            use_type_invariant(&*a);
            crate::json::lemma_members(*a);
            crate::json::lemma_members(*p);
            if done.contains(name) {
                let j = done.index_of(name);
                assert(p.names()[j] == p.names()[i as int]);
            }
            lemma_merged_under(before, patch, done, name);
            assert(p.names().take(i + 1) =~= done.push(name));
        }
        let value = p.item_at(i);
        match a.get_mut(p.name_at(i).as_str()) {
            Some(existing) => {
                merge_delta(existing, value);
            },
            None => {
                a.insert(p.name_at(i).clone(), value.clone());
            },
        }
        proof {
            use_type_invariant(&*a);
            crate::json::lemma_members(*a);
            assert(crate::json::members_json(*a) =~= merged_under(
                before,
                patch,
                p.names().take(i + 1),
            ));
        }
        i += 1;
    }
    proof {
        assert(p.names().take(n as int) =~= p.names());
        assert(merged_under(before, patch, p.names())
            =~= merged(Json::Object(before), Json::Object(patch))->Object_0);
    }
}

// ------------------------------------------------ responses: packing the ids

/// The signature that a tool call bears in
/// `extra_content.google.thought_signature`.
pub open spec fn signature_of_call(call: Json) -> Option<Seq<char>> {
    match crate::json::field_of(
        crate::json::field_of(call.field("extra_content"@), "google"@),
        "thought_signature"@,
    ) {
        Some(sig) => sig.text(),
        None => None,
    }
}

/// The id of a tool call, where it has one that is a string.
pub open spec fn id_of_call(call: Json) -> Option<Seq<char>> {
    match call.field("id"@) {
        Some(id) => id.text(),
        None => None,
    }
}

/// A tool call for the client: the signature is in the id and nowhere else. A
/// call without a signature, or without an id, stays as it is.
pub open spec fn packed_call(call: Json) -> Json {
    match (signature_of_call(call), id_of_call(call)) {
        (Some(sig), Some(id)) => call.with_field("id"@, Json::Text(packed(id, Some(sig)))).without_field(
            "extra_content"@,
        ),
        _ => call,
    }
}

/// A choice of a response with each of its tool calls packed.
pub open spec fn packed_choice(choice: Json) -> Json {
    match choice.field("message"@) {
        Some(message) => match message.field("tool_calls"@) {
            Some(Json::Array(calls)) => choice.with_field(
                "message"@,
                message.with_field(
                    "tool_calls"@,
                    Json::Array(calls.map_values(|c: Json| packed_call(c))),
                ),
            ),
            _ => choice,
        },
        None => choice,
    }
}

/// A response with each tool call of each choice packed.
pub open spec fn packed_response(body: Json) -> Json {
    match body.field("choices"@) {
        Some(Json::Array(choices)) => body.with_field(
            "choices"@,
            Json::Array(choices.map_values(|c: Json| packed_choice(c))),
        ),
        _ => body,
    }
}

/// The signature that a tool call bears, if it bears one.
pub fn signature_of(tool_call: &JsonValue) -> (r: Option<&str>)
    ensures
        crate::text::text_of(r) == signature_of_call(tool_call@),
{
    match tool_call.get("extra_content") {
        Some(extra) => match extra.get("google") {
            Some(google) => match google.get("thought_signature") {
                Some(sig) => sig.as_str(),
                None => None,
            },
            None => None,
        },
        None => None,
    }
}

/// Folds the signature of a tool call into its id and drops the field in which
/// it came, so that it does not travel twice.
pub fn pack_tool_call(tool_call: &mut JsonValue)
    ensures
        final(tool_call)@ == packed_call(old(tool_call)@),
{
    let sig = match signature_of(tool_call) {
        Some(s) => s.to_owned(),
        None => {
            return;
        },
    };
    let id = match tool_call.get("id") {
        Some(v) => match v.as_str() {
            Some(s) => s.to_owned(),
            None => {
                return;
            },
        },
        None => {
            return;
        },
    };
    let carrier = pack_id(id.as_str(), Some(sig.as_str()));
    tool_call.insert("id", JsonValue::Text(carrier));
    tool_call.remove("extra_content");
}

/// Packs each tool call in a list.
fn pack_tool_calls(calls: &mut Vec<JsonValue>)
    ensures
        crate::json::all_json(final(calls)@) == crate::json::all_json(old(calls)@).map_values(
            |c: Json| packed_call(c),
        ),
{
    let mut i: usize = 0;
    while i < calls.len()
        invariant
            i <= calls@.len(),
            calls@.len() == old(calls)@.len(),
            forall|j: int| 0 <= j < i ==> #[trigger] calls@[j]@ == packed_call(old(calls)@[j]@),
            forall|j: int| i <= j < calls@.len() ==> calls@[j] == old(calls)@[j],
        decreases calls@.len() - i,
    {
        pack_tool_call(&mut calls[i]);
        i += 1;
    }
    proof {
        crate::json::lemma_all_json(calls@);
        crate::json::lemma_all_json(old(calls)@);
        assert(crate::json::all_json(calls@) =~= crate::json::all_json(old(calls)@).map_values(
            |c: Json| packed_call(c),
        ));
    }
}

/// Packs the tool calls of one choice.
fn pack_choice(choice: &mut JsonValue)
    ensures
        final(choice)@ == packed_choice(old(choice)@),
{
    proof {
        crate::json::lemma_same_field(choice@, "message"@);
        if let Some(message) = choice@.field("message"@) {
            crate::json::lemma_same_field(message, "tool_calls"@);
        }
    }
    if let Some(message) = choice.get_mut("message") {
        if let Some(field) = message.get_mut("tool_calls") {
            if let Some(calls) = field.as_array_mut() {
                pack_tool_calls(calls);
            }
        }
    }
}

/// Packs every tool call in a response that was not streamed.
pub fn pack_response(body: &mut JsonValue)
    ensures
        final(body)@ == packed_response(old(body)@),
{
    proof {
        crate::json::lemma_same_field(body@, "choices"@);
    }
    if let Some(field) = body.get_mut("choices") {
        if let Some(choices) = field.as_array_mut() {
            pack_choices(choices);
        }
    }
}

/// Packs the tool calls of each choice in a list.
fn pack_choices(choices: &mut Vec<JsonValue>)
    ensures
        crate::json::all_json(final(choices)@) == crate::json::all_json(old(choices)@).map_values(
            |c: Json| packed_choice(c),
        ),
{
    let mut i: usize = 0;
    while i < choices.len()
        invariant
            i <= choices@.len(),
            choices@.len() == old(choices)@.len(),
            forall|j: int| 0 <= j < i ==> #[trigger] choices@[j]@ == packed_choice(old(choices)@[j]@),
            forall|j: int| i <= j < choices@.len() ==> choices@[j] == old(choices)@[j],
        decreases choices@.len() - i,
    {
        pack_choice(&mut choices[i]);
        i += 1;
    }
    proof {
        crate::json::lemma_all_json(choices@);
        crate::json::lemma_all_json(old(choices)@);
        assert(crate::json::all_json(choices@) =~= crate::json::all_json(old(choices)@).map_values(
            |c: Json| packed_choice(c),
        ));
    }
}

// ---------------------------------------------- requests: restoring the ids

/// The `extra_content` of a call with the signature put in, where it and its
/// `google` member are objects or not there yet.
pub open spec fn with_signature(extra: Json, sig: Seq<char>) -> Json {
    match extra {
        Json::Object(_) => {
            let google = match extra.field("google"@) {
                Some(g) => g,
                None => Json::Object(Map::empty()),
            };
            extra.with_field("google"@, google.with_field("thought_signature"@, Json::Text(sig)))
        },
        _ => extra,
    }
}

/// A tool call for the model: its own id again, and the signature back in its
/// place.
pub open spec fn restored_call(call: Json) -> Json {
    match id_of_call(call) {
        Some(text) => {
            let (id, signature) = unpacked(text);
            let plain = call.with_field("id"@, Json::Text(id));
            match signature {
                Some(sig) => {
                    let extra = match plain.field("extra_content"@) {
                        Some(e) => e,
                        None => Json::Object(Map::empty()),
                    };
                    plain.with_field("extra_content"@, with_signature(extra, sig))
                },
                None => plain,
            }
        },
        None => call,
    }
}

/// A message with the id of the tool call that it answers unpacked.
pub open spec fn restored_result(message: Json) -> Json {
    match message.field("tool_call_id"@) {
        Some(Json::Text(text)) => message.with_field("tool_call_id"@, Json::Text(unpacked(text).0)),
        _ => message,
    }
}

/// A message with each of its tool calls restored.
pub open spec fn restored_calls(message: Json) -> Json {
    match message.field("tool_calls"@) {
        Some(Json::Array(calls)) => message.with_field(
            "tool_calls"@,
            Json::Array(calls.map_values(|c: Json| restored_call(c))),
        ),
        _ => message,
    }
}

/// A message for the model.
pub open spec fn restored_message(message: Json) -> Json {
    restored_calls(restored_result(message))
}

/// A request for the model.
pub open spec fn restored_request(body: Json) -> Json {
    match body.field("messages"@) {
        Some(Json::Array(messages)) => body.with_field(
            "messages"@,
            Json::Array(messages.map_values(|m: Json| restored_message(m))),
        ),
        _ => body,
    }
}

/// Puts the signature that an id carries back where the model looks for it.
pub fn restore_tool_call(call: &mut JsonValue)
    ensures
        final(call)@ == restored_call(old(call)@),
{
    let (id, signature) = match call.get("id") {
        Some(v) => match v.as_str() {
            Some(text) => unpack_id(text),
            None => {
                return;
            },
        },
        None => {
            return;
        },
    };
    call.insert("id", JsonValue::Text(id));
    let sig = match signature {
        Some(s) => s,
        None => {
            return;
        },
    };
    proof {
        crate::json::lemma_field_twice(
            call@,
            "extra_content"@,
            Json::Object(Map::empty()),
            with_signature(Json::Object(Map::empty()), sig@),
        );
    }
    // Other content of the client in `extra_content.google` is kept.
    if call.get("extra_content").is_none() {
        call.insert("extra_content", JsonValue::object());
    }
    if let Some(extra) = call.get_mut("extra_content") {
        put_signature(extra, sig);
    }
}

/// Writes a signature into the `extra_content` of a call.
fn put_signature(extra: &mut JsonValue, sig: String)
    ensures
        final(extra)@ == with_signature(old(extra)@, sig@),
{
    if extra.as_object().is_none() {
        return;
    }
    proof {
        let none = Json::Object(Map::empty());
        crate::json::lemma_field_twice(
            extra@,
            "google"@,
            none,
            none.with_field("thought_signature"@, Json::Text(sig@)),
        );
    }
    if extra.get("google").is_none() {
        extra.insert("google", JsonValue::object());
    }
    if let Some(google) = extra.get_mut("google") {
        google.insert("thought_signature", JsonValue::Text(sig));
    }
}

/// Unpacks one message: the id that a tool result answers, and each tool call
/// of an assistant.
fn restore_message(message: &mut JsonValue)
    ensures
        final(message)@ == restored_message(old(message)@),
{
    let id: Option<String> = match message.get("tool_call_id") {
        Some(v) => match v.as_str() {
            Some(text) => Some(unpack_id(text).0),
            None => None,
        },
        None => None,
    };
    if let Some(id) = id {
        message.insert("tool_call_id", JsonValue::Text(id));
    }
    proof {
        crate::json::lemma_same_field(message@, "tool_calls"@);
    }
    if let Some(field) = message.get_mut("tool_calls") {
        if let Some(calls) = field.as_array_mut() {
            restore_tool_calls(calls);
        }
    }
}

/// Restores each tool call in a list.
fn restore_tool_calls(calls: &mut Vec<JsonValue>)
    ensures
        crate::json::all_json(final(calls)@) == crate::json::all_json(old(calls)@).map_values(
            |c: Json| restored_call(c),
        ),
{
    let mut i: usize = 0;
    while i < calls.len()
        invariant
            i <= calls@.len(),
            calls@.len() == old(calls)@.len(),
            forall|j: int| 0 <= j < i ==> #[trigger] calls@[j]@ == restored_call(old(calls)@[j]@),
            forall|j: int| i <= j < calls@.len() ==> calls@[j] == old(calls)@[j],
        decreases calls@.len() - i,
    {
        restore_tool_call(&mut calls[i]);
        i += 1;
    }
    proof {
        crate::json::lemma_all_json(calls@);
        crate::json::lemma_all_json(old(calls)@);
        assert(crate::json::all_json(calls@) =~= crate::json::all_json(old(calls)@).map_values(
            |c: Json| restored_call(c),
        ));
    }
}

/// Undoes the packing on the way back to the model.
///
/// Ids stand in two places, in the tool calls of assistant messages and in the
/// tool results that answer them. The model matches the two by id, so both are
/// unpacked.
pub fn restore_request(body: &mut JsonValue)
    ensures
        final(body)@ == restored_request(old(body)@),
{
    proof {
        crate::json::lemma_same_field(body@, "messages"@);
    }
    if let Some(field) = body.get_mut("messages") {
        if let Some(messages) = field.as_array_mut() {
            restore_messages(messages);
        }
    }
}

/// Restores each message in a list.
fn restore_messages(messages: &mut Vec<JsonValue>)
    ensures
        crate::json::all_json(final(messages)@) == crate::json::all_json(old(messages)@).map_values(
            |m: Json| restored_message(m),
        ),
{
    let mut i: usize = 0;
    while i < messages.len()
        invariant
            i <= messages@.len(),
            messages@.len() == old(messages)@.len(),
            forall|j: int|
                0 <= j < i ==> #[trigger] messages@[j]@ == restored_message(old(messages)@[j]@),
            forall|j: int| i <= j < messages@.len() ==> messages@[j] == old(messages)@[j],
        decreases messages@.len() - i,
    {
        restore_message(&mut messages[i]);
        i += 1;
    }
    proof {
        crate::json::lemma_all_json(messages@);
        crate::json::lemma_all_json(old(messages)@);
        assert(crate::json::all_json(messages@) =~= crate::json::all_json(
            old(messages)@,
        ).map_values(|m: Json| restored_message(m)));
    }
}

// ---------------------------------------------------- streamed tool calls

/// The `usage` object of a chunk, if this is the chunk that carries it.
pub fn usage_of(chunk: &JsonValue) -> (r: Option<&Table<JsonValue>>)
    ensures
        match r {
            Some(t) => chunk@.field("usage"@) == Some(Json::Object(crate::json::members_json(*t)))
                && t.wf(),
            None => !(chunk@.field("usage"@) matches Some(Json::Object(_))),
        },
{
    match chunk.get("usage") {
        Some(usage) => usage.as_object(),
        None => None,
    }
}

/// The number by which a fragment says to which call it belongs.
pub open spec fn call_index(delta: Json) -> u64 {
    match delta.field("index"@) {
        Some(index) => match index.count() {
            Some(n) => n,
            None => 0,
        },
        None => 0,
    }
}

/// The numbers of the calls that have been collected.
pub open spec fn call_indices(calls: Seq<(u64, Json)>) -> Seq<u64> {
    calls.map_values(|c: (u64, Json)| c.0)
}

/// No two of the calls have one number.
pub open spec fn separate(calls: Seq<(u64, Json)>) -> bool {
    forall|i: int, j: int| 0 <= i < j < calls.len() ==> calls[i].0 != calls[j].0
}

/// The calls after one more fragment: merged into the call of its number, or
/// the beginning of a new one.
pub open spec fn absorbed(calls: Seq<(u64, Json)>, delta: Json) -> Seq<(u64, Json)> {
    let index = call_index(delta);
    if call_indices(calls).contains(index) {
        let i = call_indices(calls).index_of(index);
        calls.update(i, (index, merged(calls[i].1, delta)))
    } else {
        calls.push((index, delta))
    }
}

/// The calls after some fragments, one after the other.
pub open spec fn absorbed_all(calls: Seq<(u64, Json)>, deltas: Seq<Json>) -> Seq<(u64, Json)>
    decreases deltas.len(),
{
    if deltas.len() == 0 {
        calls
    } else {
        absorbed(absorbed_all(calls, deltas.drop_last()), deltas.last())
    }
}

/// The same calls, by increasing number.
pub open spec fn is_index_order(calls: Seq<(u64, Json)>, order: Seq<(u64, Json)>) -> bool {
    &&& forall|c: (u64, Json)| #[trigger] order.contains(c) <==> calls.contains(c)
    &&& forall|i: int, j: int| 0 <= i < j < order.len() ==> order[i].0 < order[j].0
}

/// The calls by increasing number.
pub open spec fn in_index_order(calls: Seq<(u64, Json)>) -> Seq<(u64, Json)> {
    choose|order: Seq<(u64, Json)>| is_index_order(calls, order)
}

/// The consolidated tool calls: by increasing number, with packed ids.
pub open spec fn finished(calls: Seq<(u64, Json)>) -> Seq<Json> {
    in_index_order(calls).map_values(|c: (u64, Json)| packed_call(c.1))
}

/// Collects the fragments of tool calls across chunks, so that signatures can
/// be folded into ids.
///
/// A signature may come in another chunk than the id that it belongs to, before
/// it or after it, and an id that was sent cannot be taken back. So fragments
/// are held until the stream ends. Only pieces of one text, such as arguments,
/// have to come in their order. Text of the answer is not held.
pub struct ToolCallAccumulator {
    /// Fragments belong together by their `index`; calls that are made side by
    /// side come interleaved under different ones.
    indices: Vec<u64>,
    calls: Vec<JsonValue>,
}

impl View for ToolCallAccumulator {
    type V = Seq<(u64, Json)>;

    closed spec fn view(&self) -> Seq<(u64, Json)> {
        Seq::new(self.indices@.len(), |i: int| (self.indices@[i], self.calls@[i]@))
    }
}

impl ToolCallAccumulator {
    /// Each number has one call, and no number stands twice.
    #[verifier::type_invariant]
    closed spec fn wf(self) -> bool {
        &&& self.indices@.len() == self.calls@.len()
        &&& forall|i: int, j: int|
            0 <= i < j < self.indices@.len() ==> self.indices@[i] != self.indices@[j]
    }

    /// No calls yet.
    pub fn new() -> (r: Self)
        ensures
            r@ == Seq::<(u64, Json)>::empty(),
    {
        let r = ToolCallAccumulator { indices: Vec::new(), calls: Vec::new() };
        assert(r@ =~= Seq::<(u64, Json)>::empty());
        r
    }

    /// Whether no call has begun.
    pub fn is_empty(&self) -> (r: bool)
        ensures
            r == (self@.len() == 0),
    {
        self.indices.len() == 0
    }

    fn find(&self, index: u64) -> (r: Option<usize>)
        ensures
            match r {
                Some(i) => i < self@.len() && self@[i as int].0 == index,
                None => !call_indices(self@).contains(index),
            },
    {
        let mut i: usize = 0;
        while i < self.indices.len()
            invariant
                i <= self@.len(),
                self@.len() == self.indices@.len(),
                forall|j: int| 0 <= j < i ==> self@[j].0 != index,
            decreases self@.len() - i,
        {
            if self.indices[i] == index {
                return Some(i);
            }
            i += 1;
        }
        None
    }

    /// Takes in one fragment.
    fn absorb_one(&mut self, delta: &JsonValue)
        ensures
            final(self)@ == absorbed(old(self)@, delta@),
    {
        proof {
            use_type_invariant(&*self);
        }
        let index = match delta.get("index") {
            Some(v) => match v.as_u64() {
                Some(n) => n,
                None => 0,
            },
            None => 0,
        };
        match self.find(index) {
            Some(i) => {
                proof {
                    let all = call_indices(self@);
                    assert(all[i as int] == index);
                    let k = all.index_of(index);
                    assert(all[k] == index && 0 <= k < all.len());
                    assert(self@[k].0 == index);
                }
                let mut call = JsonValue::Null;
                std::mem::swap(&mut call, &mut self.calls[i]);
                merge_delta(&mut call, delta);
                self.calls[i] = call;
                assert(self@ =~= absorbed(old(self)@, delta@));
            },
            None => {
                let mut whole = ToolCallAccumulator::new();
                std::mem::swap(self, &mut whole);
                let ToolCallAccumulator { indices: mut indices, calls: mut calls } = whole;
                indices.push(index);
                calls.push(delta.clone());
                proof {
                    let now = Seq::new(indices@.len(), |i: int| (indices@[i], calls@[i]@));
                    assert(now =~= absorbed(old(self)@, delta@));
                    assert forall|j: int| 0 <= j < old(self)@.len() implies indices@[j] != index by {
                        assert(call_indices(old(self)@)[j] == old(self)@[j].0);
                    }
                }
                *self = ToolCallAccumulator { indices, calls };
                assert(self@ =~= absorbed(old(self)@, delta@));
            },
        }
    }

    /// Takes in the `tool_calls` array of one streamed delta.
    pub fn absorb(&mut self, deltas: &[JsonValue])
        ensures
            final(self)@ == absorbed_all(old(self)@, crate::json::all_json(deltas@)),
            separate(old(self)@),
            separate(final(self)@),
    {
        proof {
            use_type_invariant(&*self);
        }
        let ghost all = crate::json::all_json(deltas@);
        proof {
            crate::json::lemma_all_json(deltas@);
        }
        let mut i: usize = 0;
        assert(all.take(0) =~= Seq::empty());
        while i < deltas.len()
            invariant
                i <= deltas@.len(),
                all.len() == deltas@.len(),
                forall|j: int| 0 <= j < deltas@.len() ==> #[trigger] all[j] == deltas@[j]@,
                self@ == absorbed_all(old(self)@, all.take(i as int)),
            decreases deltas@.len() - i,
        {
            self.absorb_one(&deltas[i]);
            proof {
                let next = all.take(i + 1);
                assert(next.drop_last() =~= all.take(i as int));
                assert(next.last() == deltas@[i as int]@);
            }
            i += 1;
        }
        assert(all.take(i as int) =~= all);
        proof {
            use_type_invariant(&*self);
        }
    }
}

/// A list by strictly increasing number is settled by what it contains.
proof fn lemma_same_order(a: Seq<(u64, Json)>, b: Seq<(u64, Json)>)
    requires
        forall|c: (u64, Json)| #[trigger] a.contains(c) <==> b.contains(c),
        forall|i: int, j: int| 0 <= i < j < a.len() ==> a[i].0 < a[j].0,
        forall|i: int, j: int| 0 <= i < j < b.len() ==> b[i].0 < b[j].0,
    ensures
        a == b,
    decreases a.len(),
{
    if a.len() == 0 {
        if b.len() > 0 {
            assert(b.contains(b[0]));
            assert(a.contains(b[0]));
        }
        assert(a =~= b);
    } else {
        assert(a.contains(a.last()));
        assert(b.contains(a.last()));
        assert(b.contains(b.last()));
        assert(a.contains(b.last()));
        let i = a.index_of(b.last());
        let j = b.index_of(a.last());
        assert(a[i] == b.last() && b[j] == a.last());
        assert(i == a.len() - 1);
        let x = a.drop_last();
        let y = b.drop_last();
        assert forall|c: (u64, Json)| #[trigger] x.contains(c) <==> y.contains(c) by {
            if x.contains(c) {
                let k = x.index_of(c);
                assert(a[k] == c);
                assert(a.contains(c));
                assert(b.contains(c));
                let l = b.index_of(c);
                assert(b[l] == c);
                assert(y[l] == c);
            }
            if y.contains(c) {
                let k = y.index_of(c);
                assert(b[k] == c);
                assert(b.contains(c));
                assert(a.contains(c));
                let l = a.index_of(c);
                assert(a[l] == c);
                assert(x[l] == c);
            }
        }
        lemma_same_order(x, y);
        assert(a =~= x.push(a.last()));
        assert(b =~= y.push(b.last()));
    }
}

/// There is one order by increasing number.
pub proof fn law_index_order_is_unique(calls: Seq<(u64, Json)>, order: Seq<(u64, Json)>)
    requires
        is_index_order(calls, order),
    ensures
        in_index_order(calls) == order,
{
    let chosen = in_index_order(calls);
    assert(is_index_order(calls, chosen));
    assert forall|c: (u64, Json)| #[trigger] chosen.contains(c) <==> order.contains(c) by {
        assert(chosen.contains(c) <==> calls.contains(c));
        assert(order.contains(c) <==> calls.contains(c));
    }
    lemma_same_order(chosen, order);
}

impl ToolCallAccumulator {
    /// The consolidated `tool_calls` array, ids packed, by increasing number.
    pub fn finish(self) -> (r: Vec<JsonValue>)
        ensures
            crate::json::all_json(r@) == finished(self@),
            separate(self@),
    {
        proof {
            use_type_invariant(&self);
        }
        let ghost all = self@;
        let ToolCallAccumulator { indices, calls: mut rest } = self;
        // The calls so far, by increasing number.
        let mut keys: Vec<u64> = Vec::new();
        let mut out: Vec<JsonValue> = Vec::new();
        let ghost mut order: Seq<(u64, Json)> = Seq::empty();
        let mut left: usize = rest.len();
        while left > 0
            invariant
                left == rest@.len(),
                left <= all.len(),
                indices@.len() == all.len(),
                separate(all),
                forall|i: int| 0 <= i < all.len() ==> #[trigger] all[i].0 == indices@[i],
                forall|i: int| 0 <= i < left ==> #[trigger] rest@[i]@ == all[i].1,
                keys@.len() == order.len(),
                out@.len() == order.len(),
                forall|i: int| 0 <= i < order.len() ==> #[trigger] keys@[i] == order[i].0,
                forall|i: int| 0 <= i < order.len() ==> #[trigger] out@[i]@ == packed_call(order[i].1),
                is_index_order(all.skip(left as int), order),
            decreases left,
        {
            left -= 1;
            let index = indices[left];
            let mut call = rest.pop().unwrap();
            let ghost entry = all[left as int];
            pack_tool_call(&mut call);
            let mut k: usize = 0;
            while k < keys.len() && keys[k] < index
                invariant
                    k <= keys@.len(),
                    keys@.len() == order.len(),
                    forall|i: int| 0 <= i < order.len() ==> #[trigger] keys@[i] == order[i].0,
                    forall|i: int| 0 <= i < k ==> #[trigger] order[i].0 < index,
                decreases keys@.len() - k,
            {
                k += 1;
            }
            let ghost before = order;
            keys.insert(k, index);
            out.insert(k, call);
            proof {
                order = before.insert(k as int, entry);
                let later = all.skip(left + 1);
                let now = all.skip(left as int);
                assert forall|c: (u64, Json)| #[trigger] order.contains(c) <==> now.contains(c) by {
                    lemma_insert_contains(before, k as int, entry, c);
                    assert(now =~= later.insert(0, entry));
                    lemma_insert_contains(later, 0, entry, c);
                    assert(before.contains(c) <==> later.contains(c));
                }
                assert forall|i: int| 0 <= i < before.len() implies before[i].0 != entry.0 by {
                    assert(before.contains(before[i]));
                    assert(later.contains(before[i]));
                    let j = later.index_of(before[i]);
                    assert(all[left + 1 + j] == before[i]);
                }
            }
        }
        proof {
            assert(all.skip(0) =~= all);
            law_index_order_is_unique(all, order);
            crate::json::lemma_all_json(out@);
            assert(crate::json::all_json(out@) =~= finished(all));
        }
        out
    }
}

/// What a list contains after an insertion.
proof fn lemma_insert_contains<A>(s: Seq<A>, k: int, a: A, c: A)
    requires
        0 <= k <= s.len(),
    ensures
        s.insert(k, a).contains(c) <==> s.contains(c) || c == a,
{
    let t = s.insert(k, a);
    if s.contains(c) {
        let i = s.index_of(c);
        assert(t[if i < k { i } else { i + 1 }] == c);
    }
    assert(t[k] == a);
    if t.contains(c) && c != a {
        let i = t.index_of(c);
        assert(s[if i < k { i } else { i - 1 }] == c);
    }
}

impl Default for ToolCallAccumulator {
    fn default() -> (r: Self)
        ensures
            r@ == Seq::<(u64, Json)>::empty(),
    {
        ToolCallAccumulator::new()
    }
}

// --------------------------------------------------------------------- laws

/// Merging loses no field, known or unknown: one that only one side has stays
/// as it is, and one that both sides have is merged in turn.
pub proof fn law_merging_keeps_every_field(acc: Json, patch: Json, name: Seq<char>)
    requires
        acc is Object,
        patch is Object,
    ensures
        merged(acc, patch) is Object,
        merged(acc, patch).field(name) == (match (acc.field(name), patch.field(name)) {
            (Some(a), Some(p)) => Some(merged(a, p)),
            (Some(a), None) => Some(a),
            (None, p) => p,
        }),
{
}

/// A signature stays with its call when later fragments without one are merged
/// in, and comes to it when it arrives later than the rest. The same holds of
/// the id. So it does not matter in which fragment either of them comes.
pub proof fn law_signature_survives_merging(acc: Json, patch: Json)
    requires
        acc is Object,
        patch is Object,
    ensures
        patch.field("extra_content"@) is None ==> signature_of_call(merged(acc, patch))
            == signature_of_call(acc),
        acc.field("extra_content"@) is None ==> signature_of_call(merged(acc, patch))
            == signature_of_call(patch),
        patch.field("id"@) is None ==> id_of_call(merged(acc, patch)) == id_of_call(acc),
        acc.field("id"@) is None ==> id_of_call(merged(acc, patch)) == id_of_call(patch),
{
    law_merging_keeps_every_field(acc, patch, "extra_content"@);
    law_merging_keeps_every_field(acc, patch, "id"@);
}

/// The arguments of a call, as far as they have come.
pub open spec fn arguments_of_call(call: Json) -> Option<Seq<char>> {
    match crate::json::field_of(call.field("function"@), "arguments"@) {
        Some(arguments) => arguments.text(),
        None => None,
    }
}

/// Arguments that come in pieces are joined, not replaced.
pub proof fn law_arguments_are_joined(acc: Json, patch: Json)
    requires
        arguments_of_call(acc) is Some,
        arguments_of_call(patch) is Some,
    ensures
        arguments_of_call(merged(acc, patch)) == Some(
            arguments_of_call(acc)->0 + arguments_of_call(patch)->0,
        ),
{
    let a = acc.field("function"@)->0;
    let p = patch.field("function"@)->0;
    law_merging_keeps_every_field(acc, patch, "function"@);
    law_merging_keeps_every_field(a, p, "arguments"@);
    assert(merged(a, p).field("arguments"@) == Some(
        merged(a.field("arguments"@)->0, p.field("arguments"@)->0),
    ));
}

/// Fragments may be taken in together or in parts.
pub proof fn law_absorbing_in_parts(calls: Seq<(u64, Json)>, a: Seq<Json>, b: Seq<Json>)
    ensures
        absorbed_all(calls, a + b) == absorbed_all(absorbed_all(calls, a), b),
    decreases b.len(),
{
    if b.len() == 0 {
        assert(a + b =~= a);
    } else {
        law_absorbing_in_parts(calls, a, b.drop_last());
        assert((a + b).drop_last() =~= a + b.drop_last());
    }
}

/// However many fragments are taken in, no two calls have one number.
pub proof fn law_calls_stay_separate(calls: Seq<(u64, Json)>, deltas: Seq<Json>)
    requires
        separate(calls),
    ensures
        separate(absorbed_all(calls, deltas)),
    decreases deltas.len(),
{
    if deltas.len() > 0 {
        let before = absorbed_all(calls, deltas.drop_last());
        law_calls_stay_separate(calls, deltas.drop_last());
        let index = call_index(deltas.last());
        assert(absorbed_all(calls, deltas) == absorbed(before, deltas.last()));
        lemma_index_of_call(before, index);
        if !call_indices(before).contains(index) {
            assert forall|i: int| 0 <= i < before.len() implies before[i].0 != index by {
                assert(call_indices(before)[i] == before[i].0);
            }
        }
    }
}

/// The number of a call that was collected stands where its call does.
proof fn lemma_index_of_call(calls: Seq<(u64, Json)>, index: u64)
    ensures
        call_indices(calls).contains(index) ==> {
            let i = call_indices(calls).index_of(index);
            0 <= i < calls.len() && calls[i].0 == index
        },
{
    if call_indices(calls).contains(index) {
        let i = call_indices(calls).index_of(index);
        assert(call_indices(calls)[i] == index);
    }
}

/// What was collected under a number.
pub open spec fn call_under(calls: Seq<(u64, Json)>, index: u64) -> Option<Json> {
    if call_indices(calls).contains(index) {
        Some(calls[call_indices(calls).index_of(index)].1)
    } else {
        None
    }
}

/// Fragments merged one after the other into what there was before them, if
/// there was anything.
pub open spec fn merged_into(start: Option<Json>, fragments: Seq<Json>) -> Option<Json>
    decreases fragments.len(),
{
    if fragments.len() == 0 {
        start
    } else {
        match merged_into(start, fragments.drop_last()) {
            Some(acc) => Some(merged(acc, fragments.last())),
            None => Some(fragments.last()),
        }
    }
}

/// The fragments of the call with this number, in the order in which they came.
pub open spec fn fragments_under(deltas: Seq<Json>, index: u64) -> Seq<Json>
    decreases deltas.len(),
{
    if deltas.len() == 0 {
        Seq::empty()
    } else {
        let before = fragments_under(deltas.drop_last(), index);
        if call_index(deltas.last()) == index {
            before.push(deltas.last())
        } else {
            before
        }
    }
}

/// What is collected of a call is made of what there was of it and of its own
/// fragments, and of no others.
pub proof fn law_parallel_calls_do_not_mix(
    calls: Seq<(u64, Json)>,
    deltas: Seq<Json>,
    index: u64,
)
    requires
        separate(calls),
    ensures
        call_under(absorbed_all(calls, deltas), index) == merged_into(
            call_under(calls, index),
            fragments_under(deltas, index),
        ),
    decreases deltas.len(),
{
    if deltas.len() > 0 {
        let last = deltas.last();
        let most = deltas.drop_last();
        let before = absorbed_all(calls, most);
        let after = absorbed(before, last);
        let own = call_index(last);
        law_parallel_calls_do_not_mix(calls, most, index);
        law_calls_stay_separate(calls, most);
        law_calls_stay_separate(calls, deltas);
        assert(absorbed_all(calls, deltas) == after);
        lemma_index_of_call(before, own);
        lemma_index_of_call(before, index);
        lemma_index_of_call(after, index);
        if own == index {
            let f = fragments_under(deltas, index);
            assert(f.drop_last() =~= fragments_under(most, index));
        }
        if call_indices(before).contains(own) {
            let i = call_indices(before).index_of(own);
            assert(call_indices(after) =~= call_indices(before));
        } else {
            assert(call_indices(after) =~= call_indices(before).push(own));
            let all = call_indices(after);
            assert(all[before.len() as int] == own);
            if call_indices(before).contains(index) {
                let i = call_indices(before).index_of(index);
                assert(all[i] == index);
                assert(after[all.index_of(index)].0 == index);
            } else if own != index && all.contains(index) {
                let i = all.index_of(index);
                assert(call_indices(before)[i] == index);
            }
        }
    }
}

/// Where no two calls have one number, a call is among them if it is the one
/// under its number.
proof fn lemma_contains_call(calls: Seq<(u64, Json)>, c: (u64, Json))
    requires
        separate(calls),
    ensures
        calls.contains(c) <==> call_under(calls, c.0) == Some(c.1),
{
    lemma_index_of_call(calls, c.0);
    if calls.contains(c) {
        let j = calls.index_of(c);
        assert(call_indices(calls)[j] == c.0);
    }
    if call_under(calls, c.0) == Some(c.1) {
        let i = call_indices(calls).index_of(c.0);
        assert(calls[i] == c);
    }
}

/// Calls that are the same under each number come out the same.
proof fn lemma_same_finish(a: Seq<(u64, Json)>, b: Seq<(u64, Json)>)
    requires
        separate(a),
        separate(b),
        forall|index: u64| #[trigger] call_under(a, index) == call_under(b, index),
    ensures
        finished(a) == finished(b),
{
    let order = lemma_order_exists(a);
    law_index_order_is_unique(a, order);
    assert forall|c: (u64, Json)| #[trigger] order.contains(c) <==> b.contains(c) by {
        lemma_contains_call(a, c);
        lemma_contains_call(b, c);
        assert(order.contains(c) <==> a.contains(c));
        assert(call_under(a, c.0) == call_under(b, c.0));
    }
    law_index_order_is_unique(b, order);
}

/// What comes out depends on the fragments of each call, in their order, and not
/// on how the fragments of several calls were interleaved.
pub proof fn law_interleaving_does_not_matter(
    calls: Seq<(u64, Json)>,
    a: Seq<Json>,
    b: Seq<Json>,
)
    requires
        separate(calls),
        forall|index: u64| #[trigger] fragments_under(a, index) == fragments_under(b, index),
    ensures
        finished(absorbed_all(calls, a)) == finished(absorbed_all(calls, b)),
{
    law_calls_stay_separate(calls, a);
    law_calls_stay_separate(calls, b);
    assert forall|index: u64| #[trigger]
        call_under(absorbed_all(calls, a), index) == call_under(absorbed_all(calls, b), index) by {
        law_parallel_calls_do_not_mix(calls, a, index);
        law_parallel_calls_do_not_mix(calls, b, index);
        assert(fragments_under(a, index) == fragments_under(b, index));
    }
    lemma_same_finish(absorbed_all(calls, a), absorbed_all(calls, b));
}

/// Two fragments do not contradict each other: a member that both have, such as
/// `index`, is the same in both.
pub open spec fn agree(d1: Json, d2: Json) -> bool {
    &&& d1 is Object
    &&& d2 is Object
    &&& forall|name: Seq<char>|
        #![trigger d1.field(name)]
        #![trigger d2.field(name)]
        d1.field(name) is Some && d2.field(name) is Some ==> d1.field(name) == d2.field(name)
}

/// Fragments that agree may be merged in either order.
proof fn lemma_merging_commutes(start: Option<Json>, d1: Json, d2: Json)
    requires
        agree(d1, d2),
    ensures
        merged_into(start, seq![d1, d2]) == merged_into(start, seq![d2, d1]),
{
    lemma_merge_pair(start, d1, d2);
    lemma_merge_pair(start, d2, d1);
    let (m1, m2) = (d1->Object_0, d2->Object_0);
    assert forall|name: Seq<char>| m1.contains_key(name) && m2.contains_key(name) implies m1[name]
        == m2[name] by {
        assert(d1.field(name) == d2.field(name));
    }
    assert(merged(d1, d2)->Object_0 =~= merged(d2, d1)->Object_0);
    if let Some(Json::Object(a)) = start {
        let x = merged(merged(Json::Object(a), d1), d2);
        let y = merged(merged(Json::Object(a), d2), d1);
        assert(x->Object_0 =~= y->Object_0);
    }
}

/// Two fragments merged one after the other.
proof fn lemma_merge_pair(start: Option<Json>, d1: Json, d2: Json)
    ensures
        merged_into(start, seq![d1, d2]) == Some(
            match start {
                Some(acc) => merged(merged(acc, d1), d2),
                None => merged(d1, d2),
            },
        ),
{
    let pair = seq![d1, d2];
    assert(pair.drop_last() =~= seq![d1]);
    assert(seq![d1].drop_last() =~= Seq::<Json>::empty());
    assert(merged_into(start, Seq::<Json>::empty()) == start);
    assert(merged_into(start, seq![d1]) == Some(
        match start {
            Some(acc) => merged(acc, d1),
            None => d1,
        },
    ));
}

/// Fragments may be merged together or in parts.
proof fn lemma_merging_in_parts(start: Option<Json>, a: Seq<Json>, b: Seq<Json>)
    ensures
        merged_into(start, a + b) == merged_into(merged_into(start, a), b),
    decreases b.len(),
{
    if b.len() == 0 {
        assert(a + b =~= a);
    } else {
        lemma_merging_in_parts(start, a, b.drop_last());
        assert((a + b).drop_last() =~= a + b.drop_last());
    }
}

/// The fragments of a call in joined lists.
proof fn lemma_fragments_in_parts(a: Seq<Json>, b: Seq<Json>, index: u64)
    ensures
        fragments_under(a + b, index) == fragments_under(a, index) + fragments_under(b, index),
    decreases b.len(),
{
    if b.len() == 0 {
        assert(a + b =~= a);
        assert(fragments_under(a, index) + Seq::<Json>::empty() =~= fragments_under(a, index));
    } else {
        lemma_fragments_in_parts(a, b.drop_last(), index);
        assert((a + b).drop_last() =~= a + b.drop_last());
        assert(fragments_under(a + b, index) =~= fragments_under(a, index) + fragments_under(
            b,
            index,
        ));
    }
}

/// The fragments of a call among two.
proof fn lemma_fragments_of_pair(d1: Json, d2: Json, index: u64)
    ensures
        fragments_under(seq![d1, d2], index) == (if call_index(d1) == index {
            seq![d1]
        } else {
            Seq::empty()
        }) + (if call_index(d2) == index {
            seq![d2]
        } else {
            Seq::empty()
        }),
{
    let pair = seq![d1, d2];
    assert(pair.drop_last() =~= seq![d1]);
    assert(seq![d1].drop_last() =~= Seq::<Json>::empty());
    assert(fragments_under(Seq::<Json>::empty(), index) == Seq::<Json>::empty());
    assert(fragments_under(seq![d1], index) =~= (if call_index(d1) == index {
        seq![d1]
    } else {
        Seq::empty()
    }));
    assert(fragments_under(pair, index) =~= (if call_index(d1) == index {
        seq![d1]
    } else {
        Seq::empty()
    }) + (if call_index(d2) == index {
        seq![d2]
    } else {
        Seq::empty()
    }));
}

/// Two fragments that follow each other may come in either order, whatever came
/// before them and whatever comes after: fragments of different calls, and those
/// of one call that agree, as when one has the id and the other the signature.
pub proof fn law_fragments_may_be_swapped(
    calls: Seq<(u64, Json)>,
    before: Seq<Json>,
    d1: Json,
    d2: Json,
    after: Seq<Json>,
)
    requires
        separate(calls),
        call_index(d1) != call_index(d2) || agree(d1, d2),
    ensures
        finished(absorbed_all(calls, before + seq![d1, d2] + after)) == finished(
            absorbed_all(calls, before + seq![d2, d1] + after),
        ),
{
    let a = before + seq![d1, d2] + after;
    let b = before + seq![d2, d1] + after;
    law_calls_stay_separate(calls, a);
    law_calls_stay_separate(calls, b);
    assert forall|index: u64| #[trigger]
        call_under(absorbed_all(calls, a), index) == call_under(absorbed_all(calls, b), index) by {
        let start = call_under(calls, index);
        let (x, y) = (fragments_under(seq![d1, d2], index), fragments_under(seq![d2, d1], index));
        let early = fragments_under(before, index);
        let late = fragments_under(after, index);
        law_parallel_calls_do_not_mix(calls, a, index);
        law_parallel_calls_do_not_mix(calls, b, index);
        lemma_fragments_in_parts(before + seq![d1, d2], after, index);
        lemma_fragments_in_parts(before, seq![d1, d2], index);
        lemma_fragments_in_parts(before + seq![d2, d1], after, index);
        lemma_fragments_in_parts(before, seq![d2, d1], index);
        lemma_fragments_of_pair(d1, d2, index);
        lemma_fragments_of_pair(d2, d1, index);
        lemma_merging_in_parts(start, early + x, late);
        lemma_merging_in_parts(start, early, x);
        lemma_merging_in_parts(start, early + y, late);
        lemma_merging_in_parts(start, early, y);
        if call_index(d1) == index && call_index(d2) == index {
            assert(x =~= seq![d1, d2]);
            assert(y =~= seq![d2, d1]);
            lemma_merging_commutes(merged_into(start, early), d1, d2);
        } else {
            assert(x =~= y);
        }
    }
    lemma_same_finish(absorbed_all(calls, a), absorbed_all(calls, b));
}

/// The place in an order by increasing number at which a new number belongs.
proof fn lemma_place(order: Seq<(u64, Json)>, index: u64) -> (k: int)
    requires
        forall|i: int, j: int| 0 <= i < j < order.len() ==> order[i].0 < order[j].0,
        forall|i: int| 0 <= i < order.len() ==> order[i].0 != index,
    ensures
        0 <= k <= order.len(),
        forall|i: int| 0 <= i < k ==> order[i].0 < index,
        forall|i: int| k <= i < order.len() ==> index < order[i].0,
    decreases order.len(),
{
    if order.len() == 0 || order.last().0 < index {
        order.len() as int
    } else {
        let most = order.drop_last();
        let k = lemma_place(most, index);
        assert forall|i: int| 0 <= i < order.len() implies (i < k ==> order[i].0 < index) && (k <= i
            ==> index < order[i].0) by {
            if i < most.len() {
                assert(order[i] == most[i]);
            }
        }
        k
    }
}

/// Calls of which no two have one number can be put in order.
pub proof fn lemma_order_exists(calls: Seq<(u64, Json)>) -> (order: Seq<(u64, Json)>)
    requires
        separate(calls),
    ensures
        is_index_order(calls, order),
        order.len() == calls.len(),
    decreases calls.len(),
{
    if calls.len() == 0 {
        Seq::empty()
    } else {
        let most = calls.drop_last();
        let entry = calls.last();
        let before = lemma_order_exists(most);
        assert forall|i: int| 0 <= i < before.len() implies before[i].0 != entry.0 by {
            assert(before.contains(before[i]));
            assert(most.contains(before[i]));
        }
        let k = lemma_place(before, entry.0);
        let order = before.insert(k, entry);
        assert forall|c: (u64, Json)| #[trigger] order.contains(c) <==> calls.contains(c) by {
            lemma_insert_contains(before, k, entry, c);
            lemma_insert_contains(most, most.len() as int, entry, c);
            assert(most.insert(most.len() as int, entry) =~= calls);
            assert(before.contains(c) <==> most.contains(c));
        }
        order
    }
}

/// Every call that was collected comes out once, packed, by increasing number.
pub proof fn law_every_call_comes_out_in_order(deltas: Seq<Json>)
    ensures
        ({
            let calls = absorbed_all(Seq::empty(), deltas);
            &&& is_index_order(calls, in_index_order(calls))
            &&& finished(calls).len() == calls.len()
            &&& forall|i: int|
                0 <= i < calls.len() ==> #[trigger] finished(calls)[i] == packed_call(
                    in_index_order(calls)[i].1,
                )
        }),
{
    let calls = absorbed_all(Seq::empty(), deltas);
    law_calls_stay_separate(Seq::empty(), deltas);
    let order = lemma_order_exists(calls);
    law_index_order_is_unique(calls, order);
}

/// A call that is packed bears its signature in its id and nowhere else; one
/// without a signature, or without an id, is untouched.
pub proof fn law_signature_travels_once(call: Json)
    ensures
        signature_of_call(call) is None || id_of_call(call) is None ==> packed_call(call) == call,
        signature_of_call(call) is Some && id_of_call(call) is Some ==> {
            &&& id_of_call(packed_call(call)) == Some(
                packed(id_of_call(call)->0, signature_of_call(call)),
            )
            &&& packed_call(call).field("extra_content"@) is None
        },
{
    lemma_names();
}

/// The names of the members of a tool call differ.
proof fn lemma_names()
    ensures
        "id"@ != "extra_content"@,
        "tool_call_id"@ != "tool_calls"@,
        "google"@ != "thought_signature"@,
{
    reveal_strlit("id");
    reveal_strlit("extra_content");
    reveal_strlit("tool_call_id");
    reveal_strlit("tool_calls");
    reveal_strlit("google");
    reveal_strlit("thought_signature");
    assert("id"@.len() != "extra_content"@.len());
    assert("tool_call_id"@.len() != "tool_calls"@.len());
    assert("google"@.len() != "thought_signature"@.len());
}

/// The client left room for the signature: it sent no `extra_content`, or an
/// object, and in it no `google`, or an object.
pub open spec fn has_room(echo: Json) -> bool {
    match echo.field("extra_content"@) {
        Some(extra) => extra is Object && match extra.field("google"@) {
            Some(google) => google is Object,
            None => true,
        },
        None => true,
    }
}

/// A signature survives a turn. A call that was packed for the client comes
/// back with the same id, whatever else the client kept or dropped; restored
/// for the model it has its own id and its signature again. A tool result that
/// answers the packed id answers the call's own id again.
pub proof fn law_signature_survives_a_turn(call: Json, echo: Json, result: Json)
    requires
        signature_of_call(call) is Some,
        id_of_call(call) matches Some(id) && can_carry(id),
        id_of_call(echo) == id_of_call(packed_call(call)),
        has_room(echo),
        result.field("tool_call_id"@) == packed_call(call).field("id"@),
    ensures
        id_of_call(restored_call(echo)) == id_of_call(call),
        signature_of_call(restored_call(echo)) == signature_of_call(call),
        restored_message(result).field("tool_call_id"@) == call.field("id"@),
{
    let id = id_of_call(call)->0;
    let sig = signature_of_call(call)->0;
    lemma_names();
    law_signature_travels_once(call);
    law_unpacking_undoes_packing(id, sig);
}

/// Restoring a call puts the signature in and changes no other member of it,
/// nor any other content of the client in `extra_content.google`.
pub proof fn law_restoring_keeps_other_content(echo: Json, name: Seq<char>)
    ensures
        name != "id"@ && name != "extra_content"@ ==> restored_call(echo).field(name)
            == echo.field(name),
        name != "google"@ ==> crate::json::field_of(
            restored_call(echo).field("extra_content"@),
            name,
        ) == crate::json::field_of(echo.field("extra_content"@), name),
        name != "thought_signature"@ ==> crate::json::field_of(
            crate::json::field_of(restored_call(echo).field("extra_content"@), "google"@),
            name,
        ) == crate::json::field_of(
            crate::json::field_of(echo.field("extra_content"@), "google"@),
            name,
        ),
{
    lemma_names();
}

/// A call whose id carries nothing is left alone.
pub proof fn law_plain_call_is_left_alone(call: Json)
    requires
        id_of_call(call) matches Some(id) ==> forall|k: int| !marker_at(id, k),
    ensures
        restored_call(call) == call,
{
    if let Some(id) = id_of_call(call) {
        law_plain_id_passes_through(id);
        crate::json::lemma_same_field(call, "id"@);
    }
}

/// A message has nothing to do with tool calls.
pub open spec fn is_plain_message(message: Json) -> bool {
    &&& !(message.field("tool_call_id"@) matches Some(Json::Text(_)))
    &&& !(message.field("tool_calls"@) matches Some(Json::Array(_)))
}

/// A request without tool calls is left alone.
pub proof fn law_plain_request_is_left_alone(body: Json)
    requires
        body.field("messages"@) matches Some(Json::Array(messages)) ==> forall|i: int|
            0 <= i < messages.len() ==> is_plain_message(#[trigger] messages[i]),
    ensures
        restored_request(body) == body,
{
    if let Some(Json::Array(messages)) = body.field("messages"@) {
        assert(messages.map_values(|m: Json| restored_message(m)) =~= messages);
        crate::json::lemma_same_field(body, "messages"@);
    }
}

/// An element of an array that is a member of an object.
pub open spec fn element_of(v: Option<Json>, name: Seq<char>, i: int) -> Option<Json> {
    match crate::json::field_of(v, name) {
        Some(Json::Array(all)) => if 0 <= i < all.len() {
            Some(all[i])
        } else {
            None
        },
        _ => None,
    }
}

/// A tool call in a response: that of choice `i`, number `j`.
pub open spec fn response_call(body: Json, i: int, j: int) -> Option<Json> {
    element_of(
        crate::json::field_of(element_of(Some(body), "choices"@, i), "message"@),
        "tool_calls"@,
        j,
    )
}

/// A message in a request.
pub open spec fn request_message(body: Json, k: int) -> Option<Json> {
    element_of(Some(body), "messages"@, k)
}

/// A tool call in a request: that of message `k`, number `l`.
pub open spec fn request_call(body: Json, k: int, l: int) -> Option<Json> {
    element_of(request_message(body, k), "tool_calls"@, l)
}

/// Each tool call of a response is packed where it stands.
proof fn lemma_response_call(body: Json, i: int, j: int)
    ensures
        response_call(packed_response(body), i, j) == (match response_call(body, i, j) {
            Some(call) => Some(packed_call(call)),
            None => None,
        }),
{
    if let Some(Json::Array(choices)) = body.field("choices"@) {
        if 0 <= i < choices.len() {
            let mapped = choices.map_values(|c: Json| packed_choice(c));
            assert(mapped[i] == packed_choice(choices[i]));
        }
    }
}

/// Each message, and each tool call, of a request is restored where it stands.
proof fn lemma_request_call(body: Json, k: int, l: int)
    ensures
        request_message(restored_request(body), k) == (match request_message(body, k) {
            Some(message) => Some(restored_message(message)),
            None => None,
        }),
        request_call(restored_request(body), k, l) == (match request_call(body, k, l) {
            Some(call) => Some(restored_call(call)),
            None => None,
        }),
{
    lemma_names();
    if let Some(Json::Array(messages)) = body.field("messages"@) {
        if 0 <= k < messages.len() {
            let mapped = messages.map_values(|m: Json| restored_message(m));
            assert(mapped[k] == restored_message(messages[k]));
            assert(restored_result(messages[k]).field("tool_calls"@) == messages[k].field(
                "tool_calls"@,
            ));
        }
    }
}

/// A signature survives the way from a response to the next request. A signed
/// call of the response goes to the client with its id packed; the client
/// echoes that id in a call of the request and in a tool result, and may drop
/// anything else. In the restored request the call has its own id and its
/// signature, and the result answers that id.
pub proof fn law_signature_comes_back_in_the_next_request(
    response: Json,
    i: int,
    j: int,
    request: Json,
    k: int,
    l: int,
    m: int,
)
    requires
        response_call(response, i, j) matches Some(call) && signature_of_call(call) is Some && (
        id_of_call(call) matches Some(id) && can_carry(id)),
        request_call(request, k, l) matches Some(echo) && has_room(echo) && id_of_call(echo)
            == id_of_call(response_call(packed_response(response), i, j)->0),
        request_message(request, m) matches Some(result) && result.field("tool_call_id"@)
            == response_call(packed_response(response), i, j)->0.field("id"@),
    ensures
        request_call(restored_request(request), k, l) matches Some(call) && id_of_call(call)
            == id_of_call(response_call(response, i, j)->0) && signature_of_call(call)
            == signature_of_call(response_call(response, i, j)->0),
        request_message(restored_request(request), m) matches Some(result) && result.field(
            "tool_call_id"@,
        ) == response_call(response, i, j)->0.field("id"@),
{
    lemma_response_call(response, i, j);
    lemma_request_call(request, k, l);
    lemma_request_call(request, m, 0);
    law_signature_survives_a_turn(
        response_call(response, i, j)->0,
        request_call(request, k, l)->0,
        request_message(request, m)->0,
    );
}

/// The same holds of a call that was streamed in fragments. What goes out in
/// place `i` is made of the fragments under one number; what the client echoes
/// of it is restored to the id and the signature that came in them.
pub proof fn law_streamed_signature_comes_back(
    deltas: Seq<Json>,
    i: int,
    echo: Json,
    result: Json,
)
    requires
        0 <= i < finished(absorbed_all(Seq::empty(), deltas)).len(),
        ({
            let calls = absorbed_all(Seq::empty(), deltas);
            let call = in_index_order(calls)[i].1;
            &&& signature_of_call(call) is Some
            &&& id_of_call(call) matches Some(id) && can_carry(id)
            &&& id_of_call(echo) == id_of_call(finished(calls)[i])
            &&& result.field("tool_call_id"@) == finished(calls)[i].field("id"@)
        }),
        has_room(echo),
    ensures
        ({
            let (index, call) = in_index_order(absorbed_all(Seq::empty(), deltas))[i];
            &&& merged_into(None, fragments_under(deltas, index)) == Some(call)
            &&& id_of_call(restored_call(echo)) == id_of_call(call)
            &&& signature_of_call(restored_call(echo)) == signature_of_call(call)
            &&& restored_message(result).field("tool_call_id"@) == call.field("id"@)
        }),
{
    let calls = absorbed_all(Seq::empty(), deltas);
    let order = in_index_order(calls);
    let (index, call) = order[i];
    law_every_call_comes_out_in_order(deltas);
    law_signature_survives_a_turn(call, echo, result);
    law_parallel_calls_do_not_mix(Seq::empty(), deltas, index);
    law_calls_stay_separate(Seq::empty(), deltas);
    assert(call_indices(Seq::empty()) =~= Seq::empty());
    assert(order.contains(order[i]));
    assert(calls.contains(order[i]));
    let j = calls.index_of(order[i]);
    assert(call_indices(calls)[j] == index);
    lemma_index_of_call(calls, index);
}

} // verus!
