//! Laws of packed ids.

use vstd::prelude::*;

verus! {

proof fn lemma_hex_digit(n: int)
    requires
        0 <= n < 16,
    ensures
        crate::thought::hex_digit(n) == "0123456789abcdef"@[n],
{
    reveal_strlit("0123456789abcdef");
    let all = "0123456789abcdef"@;
    assert(all.len() == 16);
    assert(all[0] == '0' && all[1] == '1' && all[2] == '2' && all[3] == '3');
    assert(all[4] == '4' && all[5] == '5' && all[6] == '6' && all[7] == '7');
    assert(all[8] == '8' && all[9] == '9' && all[10] == 'a' && all[11] == 'b');
    assert(all[12] == 'c' && all[13] == 'd' && all[14] == 'e' && all[15] == 'f');
}

/// A byte is the hexadecimal digit of a number, in either case.
pub open spec fn is_digit_of(b: u8, n: int) -> bool {
    0 <= n < 16 && (b == "0123456789abcdef"@[n] as u8 || b == "0123456789ABCDEF"@[n] as u8)
}

proof fn lemma_hex_value(b: u8)
    ensures
        forall|n: int| #[trigger] is_digit_of(b, n) ==> crate::thought::hex_value(b) == Some(n),
        crate::thought::hex_value(b) matches Some(n) ==> is_digit_of(b, n),
{
    reveal_strlit("0123456789abcdef");
    reveal_strlit("0123456789ABCDEF");
    let low = "0123456789abcdef"@;
    let up = "0123456789ABCDEF"@;
    assert(low[0] == '0' && low[1] == '1' && low[2] == '2' && low[3] == '3');
    assert(low[4] == '4' && low[5] == '5' && low[6] == '6' && low[7] == '7');
    assert(low[8] == '8' && low[9] == '9' && low[10] == 'a' && low[11] == 'b');
    assert(low[12] == 'c' && low[13] == 'd' && low[14] == 'e' && low[15] == 'f');
    assert(up[0] == '0' && up[1] == '1' && up[2] == '2' && up[3] == '3');
    assert(up[4] == '4' && up[5] == '5' && up[6] == '6' && up[7] == '7');
    assert(up[8] == '8' && up[9] == '9' && up[10] == 'A' && up[11] == 'B');
    assert(up[12] == 'C' && up[13] == 'D' && up[14] == 'E' && up[15] == 'F');
}

/// In a packed id a letter, a digit or an underscore of the signature stands for
/// itself; any other byte is a hyphen and its two hexadecimal digits.
pub proof fn law_how_a_byte_is_escaped(bytes: Seq<u8>, b: u8)
    ensures
        crate::thought::escaped(Seq::empty()) == Seq::<char>::empty(),
        crate::thought::escaped(bytes.push(b)) == crate::thought::escaped(bytes) + (if ('A' as u8
            <= b <= 'Z' as u8) || ('a' as u8 <= b <= 'z' as u8) || ('0' as u8 <= b <= '9' as u8)
            || b == '_' as u8 {
            seq![b as char]
        } else {
            seq!['-', "0123456789abcdef"@[b as int / 16], "0123456789abcdef"@[b as int % 16]]
        }),
{
    lemma_hex_digit(b as int / 16);
    lemma_hex_digit(b as int % 16);
    assert(bytes.push(b).drop_last() =~= bytes);
}

/// The id that carries a signature is the id, the separator and the escaped
/// bytes of the signature; without a signature it is the id.
pub proof fn law_what_a_packed_id_is(id: Seq<char>, sig: Seq<char>)
    ensures
        crate::thought::packed(id, None) == id,
        crate::thought::packed(id, Some(sig)) == id + "__thought__"@ + crate::thought::escaped(
            vstd::utf8::encode_utf8(sig),
        ),
{
}

/// How an escaped text is read from its front. A byte other than a hyphen stands
/// for itself. A hyphen stands, with two hexadecimal digits behind it, for the
/// byte that they name; without them nothing is read.
pub proof fn law_how_escapes_are_read(bytes: Seq<u8>)
    ensures
        bytes.len() == 0 ==> crate::thought::unescaped(bytes) == Some(Seq::<u8>::empty()),
        bytes.len() > 0 && bytes[0] != '-' as u8 ==> crate::thought::unescaped(bytes) == (match crate::thought::unescaped(
            bytes.skip(1),
        ) {
            Some(rest) => Some(seq![bytes[0]] + rest),
            None => None,
        }),
        forall|h: int, l: int|
            bytes.len() >= 3 && bytes[0] == '-' as u8 && #[trigger] is_digit_of(bytes[1], h)
                && #[trigger] is_digit_of(bytes[2], l) ==> crate::thought::unescaped(bytes) == (match crate::thought::unescaped(
                bytes.skip(3),
            ) {
                Some(rest) => Some(seq![(16 * h + l) as u8] + rest),
                None => None,
            }),
        bytes.len() > 0 && bytes[0] == '-' as u8 && (bytes.len() < 3 || (forall|h: int|
            !#[trigger] is_digit_of(bytes[1], h)) || (forall|l: int|
            !#[trigger] is_digit_of(bytes[2], l))) ==> crate::thought::unescaped(bytes) is None,
{
    if bytes.len() >= 3 {
        lemma_hex_value(bytes[1]);
        lemma_hex_value(bytes[2]);
        if let Some(h) = crate::thought::hex_value(bytes[1]) {
            assert(is_digit_of(bytes[1], h));
        }
        if let Some(l) = crate::thought::hex_value(bytes[2]) {
            assert(is_digit_of(bytes[2], l));
        }
    }
}

/// A text holds a signature where its escapes can be read and give the bytes of
/// that signature.
pub proof fn law_which_signature_a_text_holds(text: Seq<char>, sig: Seq<char>)
    ensures
        crate::thought::signature_in(text) == Some(sig) <==> crate::thought::unescaped(
            vstd::utf8::encode_utf8(text),
        ) == Some(vstd::utf8::encode_utf8(sig)),
{
    vstd::utf8::encode_utf8_valid_utf8(sig);
    vstd::utf8::encode_utf8_decode_utf8(sig);
    if let Some(bytes) = crate::thought::unescaped(vstd::utf8::encode_utf8(text)) {
        if vstd::utf8::valid_utf8(bytes) {
            vstd::utf8::decode_utf8_encode_utf8(bytes);
        }
    }
}

/// An id is split at the first separator in it: before it stands the id proper,
/// behind it what may hold a signature. Without a separator it is the id proper.
pub proof fn law_where_an_id_is_split(id: Seq<char>, tail: Seq<char>)
    ensures
        (forall|k: int|
            0 <= k < id.len() ==> #[trigger] (id + "__thought__"@ + tail).subrange(k, k + 11)
                != "__thought__"@) ==> crate::thought::unpacked(id + "__thought__"@ + tail) == (
            id,
            crate::thought::signature_in(tail),
        ),
        (forall|k: int|
            0 <= k && k + 11 <= id.len() ==> #[trigger] id.subrange(k, k + 11) != "__thought__"@)
            ==> crate::thought::unpacked(id) == (id, None::<Seq<char>>),
{
    reveal_strlit("__thought__");
    assert("__thought__"@.len() == 11);
    let all = id + "__thought__"@ + tail;
    let n = id.len() as int;
    if forall|k: int| 0 <= k < id.len() ==> #[trigger] all.subrange(k, k + 11) != "__thought__"@ {
        assert(all.subrange(n, n + 11) =~= "__thought__"@);
        assert(crate::thought::first_marker_at(all, n));
        let c = choose|k: int| crate::thought::first_marker_at(all, k);
        assert(crate::thought::first_marker_at(all, c));
        if c < n {
            assert(all.subrange(c, c + 11) != "__thought__"@);
        }
        if n < c {
            assert(!crate::thought::marker_at(all, n));
        }
        assert(all.take(n) =~= id);
        assert(all.skip(n + 11) =~= tail);
    }
    if forall|k: int|
        0 <= k && k + 11 <= id.len() ==> #[trigger] id.subrange(k, k + 11) != "__thought__"@ {
        assert forall|k: int| !crate::thought::first_marker_at(id, k) by {
            if crate::thought::marker_at(id, k) {
                assert(id.subrange(k, k + 11) != "__thought__"@);
            }
        }
    }
}

} // verus!
