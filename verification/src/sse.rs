//! Turning a byte stream into lines of server-sent events.
//!
//! A chunk of a stream ends anywhere: in the middle of a line, and in the
//! middle of a character. So bytes are collected as they come, and a line is
//! decoded when its newline has arrived, not before.

use crate::text::{decimal_text, decode_lossy, same_text, strip_prefix};
use vstd::prelude::*;
use vstd::slice::slice_subrange;

verus! {

/// The cap on a single line. One event can be large, as when it carries an
/// image; this is a guard against a stream that never ends a line.
pub const DEFAULT_MAX_LINE_BYTES: usize = 32 * 1024 * 1024;

/// The byte that ends a line.
pub const NEWLINE: u8 = 10;

/// The byte that may stand before a newline and is not part of the line.
pub const CARRIAGE_RETURN: u8 = 13;

/// The lines that end in these bytes, without their newlines, and the bytes
/// that follow the last newline.
pub open spec fn split_lines(bytes: Seq<u8>) -> (Seq<Seq<u8>>, Seq<u8>)
    decreases bytes.len(),
{
    if bytes.len() == 0 {
        (Seq::empty(), Seq::empty())
    } else {
        let (lines, open) = split_lines(bytes.drop_last());
        if bytes.last() == NEWLINE {
            (lines.push(open), Seq::empty())
        } else {
            (lines, open.push(bytes.last()))
        }
    }
}

/// A line without the carriage return at its end, if there is one.
pub open spec fn without_cr(line: Seq<u8>) -> Seq<u8> {
    if line.len() > 0 && line.last() == CARRIAGE_RETURN {
        line.drop_last()
    } else {
        line
    }
}

/// The text of a line.
pub open spec fn line_text(line: Seq<u8>) -> Seq<char> {
    crate::text::decoded(without_cr(line))
}

/// None of these lines is longer than the cap.
pub open spec fn all_within(lines: Seq<Seq<u8>>, cap: usize) -> bool {
    forall|i: int| 0 <= i < lines.len() ==> (#[trigger] lines[i]).len() <= cap
}

/// No single line is longer than the cap, neither one that ends nor the open one.
pub open spec fn within_cap(bytes: Seq<u8>, cap: usize) -> bool {
    let (lines, open) = split_lines(bytes);
    all_within(lines, cap) && open.len() <= cap
}

/// The texts of strings.
pub open spec fn texts(strings: Seq<String>) -> Seq<Seq<char>> {
    strings.map_values(|s: String| s@)
}

/// What is said of a line that grew beyond the cap.
pub open spec fn overrun_message(limit: usize) -> Seq<char> {
    "SSE line exceeded "@ + crate::text::decimal(limit as nat)
        + " bytes without a newline; aborting stream"@
}

/// Joined lists of lines are within the cap where both are.
proof fn lemma_all_within_join(a: Seq<Seq<u8>>, b: Seq<Seq<u8>>, cap: usize)
    ensures
        all_within(a + b, cap) <==> all_within(a, cap) && all_within(b, cap),
{
    if all_within(a + b, cap) {
        assert forall|i: int| 0 <= i < a.len() implies (#[trigger] a[i]).len() <= cap by {
            assert((a + b)[i] == a[i]);
        }
        assert forall|i: int| 0 <= i < b.len() implies (#[trigger] b[i]).len() <= cap by {
            assert((a + b)[a.len() + i] == b[i]);
        }
    }
}

/// Decodes a line.
fn line_string(line: &[u8]) -> (r: String)
    ensures
        r@ == line_text(line@),
        r@.len() == 0 <==> without_cr(line@).len() == 0,
{
    let n = line.len();
    if n > 0 && line[n - 1] == CARRIAGE_RETURN {
        let body = slice_subrange(line, 0, n - 1);
        assert(body@ =~= without_cr(line@));
        decode_lossy(body)
    } else {
        decode_lossy(line)
    }
}

/// Collects chunks and gives out the lines that are complete.
pub struct LineAccumulator {
    buf: Vec<u8>,
    limit: usize,
}

impl LineAccumulator {
    /// The bytes of the line that has no end yet.
    pub closed spec fn pending(self) -> Seq<u8> {
        self.buf@
    }

    /// How many bytes a line may have.
    pub closed spec fn cap(self) -> usize {
        self.limit
    }

    /// Nothing collected, and the default cap.
    pub fn new() -> (r: Self)
        ensures
            r.pending() == Seq::<u8>::empty(),
            r.cap() == DEFAULT_MAX_LINE_BYTES,
    {
        LineAccumulator { buf: Vec::new(), limit: DEFAULT_MAX_LINE_BYTES }
    }

    /// Nothing collected, and a cap of one's own, as for a host that streams
    /// media larger than usual.
    pub fn with_limit(limit: usize) -> (r: Self)
        ensures
            r.pending() == Seq::<u8>::empty(),
            r.cap() == limit,
    {
        LineAccumulator { buf: Vec::new(), limit }
    }

    /// Takes in a chunk and gives out the lines that it completes.
    ///
    /// The bytes behind the last newline are kept for the next call. Where a
    /// single line is longer than the cap, whether it has its end or still grows,
    /// the lines are lost and an error says so. The cap is on a line, not on the
    /// chunk: lines within it are given out however many there are.
    pub fn push(&mut self, chunk: &[u8]) -> (r: Result<Vec<String>, String>)
        ensures
            ({
                let (lines, open) = split_lines(old(self).pending() + chunk@);
                &&& final(self).pending() == open
                &&& final(self).cap() == old(self).cap()
                &&& r is Ok <==> within_cap(old(self).pending() + chunk@, old(self).cap())
                &&& r matches Ok(out) ==> texts(out@) == lines.map_values(
                    |line: Seq<u8>| line_text(line),
                )
                &&& r matches Err(message) ==> message@ == overrun_message(old(self).cap())
            }),
    {
        let ghost all = self.buf@ + chunk@;
        self.buf.extend_from_slice(chunk);
        assert(self.buf@ =~= all);
        let mut lines: Vec<String> = Vec::new();
        let mut over = false;
        let mut start: usize = 0;
        let mut i: usize = 0;
        proof {
            assert(all.take(0) =~= Seq::empty());
            assert(all.subrange(0, 0) =~= Seq::empty());
            assert(texts(lines@) =~= split_lines(all.take(0)).0.map_values(
                |line: Seq<u8>| line_text(line),
            ));
        }
        while i < self.buf.len()
            invariant
                self.buf@ == all,
                self.limit == old(self).limit,
                over == !all_within(split_lines(all.take(i as int)).0, self.limit),
                start <= i <= all.len(),
                split_lines(all.take(i as int)).1 == all.subrange(start as int, i as int),
                texts(lines@) == split_lines(all.take(i as int)).0.map_values(
                    |line: Seq<u8>| line_text(line),
                ),
            decreases all.len() - i,
        {
            let ghost before = lines@;
            proof {
                assert(all.take(i + 1).drop_last() =~= all.take(i as int));
                assert(all.subrange(start as int, i as int).push(all[i as int]) =~= all.subrange(
                    start as int,
                    i + 1,
                ));
            }
            if self.buf[i] == NEWLINE {
                let ghost open = split_lines(all.take(i as int)).1;
                let ghost done = split_lines(all.take(i as int)).0;
                let line = line_string(slice_subrange(self.buf.as_slice(), start, i));
                lines.push(line);
                if i - start > self.limit {
                    over = true;
                }
                start = i + 1;
                proof {
                    lemma_all_within_join(done, seq![open], self.limit);
                    assert(done + seq![open] =~= done.push(open));
                    assert(seq![open][0] == open);
                    assert(split_lines(all.take(i + 1)).0 == done.push(open));
                    assert(done.push(open).map_values(|line: Seq<u8>| line_text(line))
                        =~= done.map_values(|line: Seq<u8>| line_text(line)).push(line_text(open)));
                    assert(texts(lines@) =~= texts(before).push(line@));
                    assert(all.subrange(start as int, i + 1) =~= Seq::empty());
                    assert(texts(lines@) =~= split_lines(all.take(i + 1)).0.map_values(
                        |line: Seq<u8>| line_text(line),
                    ));
                }
            }
            i += 1;
        }
        assert(all.take(i as int) =~= all);
        if start > 0 {
            let rest = self.buf.split_off(start);
            self.buf = rest;
        } else {
            assert(all.subrange(0, i as int) =~= all);
        }
        if over || self.buf.len() > self.limit {
            let mut message = "SSE line exceeded ".to_owned();
            message.append(decimal_text(self.limit).as_str());
            message.append(" bytes without a newline; aborting stream");
            return Err(message);
        }
        Ok(lines)
    }

    /// What is left when the stream ends without a newline at its end.
    pub fn finish(&mut self) -> (r: Option<String>)
        ensures
            final(self).pending() == Seq::<u8>::empty(),
            final(self).cap() == old(self).cap(),
            r is None <==> without_cr(old(self).pending()).len() == 0,
            r matches Some(line) ==> line@ == line_text(old(self).pending()),
    {
        if self.buf.is_empty() {
            return None;
        }
        let line = line_string(self.buf.as_slice());
        self.buf = Vec::new();
        if line.as_str().is_empty() {
            None
        } else {
            Some(line)
        }
    }
}

impl Default for LineAccumulator {
    fn default() -> (r: Self)
        ensures
            r.pending() == Seq::<u8>::empty(),
            r.cap() == DEFAULT_MAX_LINE_BYTES,
    {
        LineAccumulator::new()
    }
}

/// The payload of a line of an event stream: what follows `data:` and at most
/// one space, unless it is empty or the end sign `[DONE]`.
pub open spec fn payload_of(line: Seq<char>) -> Option<Seq<char>> {
    if "data:"@.is_prefix_of(line) {
        let rest = line.skip("data:"@.len() as int);
        let rest = if rest.len() > 0 && rest[0] == ' ' {
            rest.skip(1)
        } else {
            rest
        };
        if rest.len() == 0 || rest == "[DONE]"@ {
            None
        } else {
            Some(rest)
        }
    } else {
        None
    }
}

/// Strips the `data:` prefix from a line.
///
/// Comments, blank lines and the end sign carry no payload. Exactly one space
/// is stripped behind the prefix; more belong to the payload.
pub fn data_payload(line: &str) -> (r: Option<&str>)
    ensures
        match r {
            Some(payload) => payload_of(line@) == Some(payload@),
            None => payload_of(line@) is None,
        },
{
    let rest = match strip_prefix(line, "data:") {
        Some(rest) => rest,
        None => {
            return None;
        },
    };
    proof {
        reveal_strlit(" ");
        assert("data:"@.is_prefix_of(line@));
        assert(rest@ =~= line@.skip("data:"@.len() as int));
        if rest@.len() > 0 && rest@[0] == ' ' {
            assert(" "@ =~= rest@.subrange(0, 1));
            assert(" "@.is_prefix_of(rest@));
        }
    }
    let rest = match strip_prefix(rest, " ") {
        Some(more) => {
            assert(more@ =~= rest@.skip(1));
            more
        },
        None => rest,
    };
    if rest.is_empty() || same_text(rest, "[DONE]") {
        return None;
    }
    Some(rest)
}

/// Cutting bytes in two and reading the second part behind what the first left
/// open gives the lines of the whole, and leaves open what the whole does. So
/// it does not matter where a stream is cut into chunks.
pub proof fn law_chunks_do_not_matter(a: Seq<u8>, b: Seq<u8>)
    ensures
        split_lines(a + b).0 == split_lines(a).0 + split_lines(split_lines(a).1 + b).0,
        split_lines(a + b).1 == split_lines(split_lines(a).1 + b).1,
    decreases b.len(),
{
    let (lines, open) = split_lines(a);
    if b.len() == 0 {
        assert(a + b =~= a);
        assert(open + b =~= open);
        lemma_open_has_no_newline(a);
        lemma_one_line(open);
        assert(lines + Seq::<Seq<u8>>::empty() =~= lines);
    } else {
        let most = b.drop_last();
        law_chunks_do_not_matter(a, most);
        assert((a + b).drop_last() =~= a + most);
        assert((open + b).drop_last() =~= open + most);
        let (more, rest) = split_lines(open + most);
        if b.last() == NEWLINE {
            assert((lines + more).push(rest) =~= lines + more.push(rest));
        }
    }
}

/// The bytes behind the last newline hold none.
proof fn lemma_open_has_no_newline(bytes: Seq<u8>)
    ensures
        !split_lines(bytes).1.contains(NEWLINE),
    decreases bytes.len(),
{
    if bytes.len() > 0 {
        lemma_open_has_no_newline(bytes.drop_last());
        let open = split_lines(bytes.drop_last()).1;
        if open.push(bytes.last()).contains(NEWLINE) && bytes.last() != NEWLINE {
            let i = open.push(bytes.last()).index_of(NEWLINE);
            assert(open[i] == NEWLINE);
        }
    }
}

/// Bytes without a newline are one open line.
proof fn lemma_one_line(bytes: Seq<u8>)
    requires
        !bytes.contains(NEWLINE),
    ensures
        split_lines(bytes) == (Seq::<Seq<u8>>::empty(), bytes),
    decreases bytes.len(),
{
    if bytes.len() > 0 {
        let most = bytes.drop_last();
        assert(bytes[bytes.len() - 1] == bytes.last());
        if most.contains(NEWLINE) {
            assert(bytes[most.index_of(NEWLINE)] == NEWLINE);
        }
        lemma_one_line(most);
        assert(most.push(bytes.last()) =~= bytes);
    } else {
        assert(bytes =~= Seq::empty());
    }
}

/// A byte below 128 in the encoding of a character is that character.
proof fn lemma_ascii_scalar(s: u32, i: int)
    requires
        0 <= i < vstd::utf8::encode_scalar(s).len(),
        vstd::utf8::encode_scalar(s)[i] < 128,
    ensures
        vstd::utf8::encode_scalar(s)[i] == s,
        i == vstd::utf8::encode_scalar(s).len() - 1,
{
    assert(vstd::utf8::has_width_1_encoding(s) ==> vstd::utf8::leading_byte_width_1(s) == s)
        by (bit_vector);
    assert(vstd::utf8::leading_byte_width_2(s) >= 128) by (bit_vector);
    assert(vstd::utf8::leading_byte_width_3(s) >= 128) by (bit_vector);
    assert(vstd::utf8::leading_byte_width_4(s) >= 128) by (bit_vector);
    assert(vstd::utf8::last_continuation_byte(s) >= 128) by (bit_vector);
    assert(vstd::utf8::second_last_continuation_byte(s) >= 128) by (bit_vector);
    assert(vstd::utf8::third_last_continuation_byte(s) >= 128) by (bit_vector);
}

/// A byte below 128 in the encoding of a text is one of its characters, and the
/// last character where it is the last byte.
proof fn lemma_ascii_byte(text: Seq<char>, i: int)
    requires
        0 <= i < vstd::utf8::encode_utf8(text).len(),
        vstd::utf8::encode_utf8(text)[i] < 128,
    ensures
        text.contains(vstd::utf8::encode_utf8(text)[i] as char),
        i == vstd::utf8::encode_utf8(text).len() - 1 ==> text.last() == vstd::utf8::encode_utf8(
            text,
        )[i] as char,
    decreases text.len(),
{
    let bytes = vstd::utf8::encode_utf8(text);
    let first = vstd::utf8::encode_scalar(text[0] as u32);
    let rest = text.drop_first();
    if i < first.len() {
        assert(bytes[i] == first[i]);
        lemma_ascii_scalar(text[0] as u32, i);
        vstd::utf8::char_u32_cast(text[0], text[0] as u32);
        assert(text[0] == bytes[i] as char);
        assert(text.contains(text[0]));
        if i == bytes.len() - 1 {
            assert(vstd::utf8::encode_utf8(rest).len() == 0);
            if rest.len() > 0 {
                vstd::utf8::encode_utf8_first_scalar(rest);
            }
        }
    } else {
        assert(bytes[i] == vstd::utf8::encode_utf8(rest)[i - first.len()]);
        lemma_ascii_byte(rest, i - first.len());
        assert(text[rest.index_of(bytes[i] as char) + 1] == bytes[i] as char);
        assert(rest.last() == text.last());
    }
}

/// A text without a newline is one line when a newline follows it.
proof fn lemma_text_line(text: Seq<char>)
    requires
        !text.contains('\n'),
    ensures
        !vstd::utf8::encode_utf8(text).contains(NEWLINE),
{
    let bytes = vstd::utf8::encode_utf8(text);
    if bytes.contains(NEWLINE) {
        lemma_ascii_byte(text, bytes.index_of(NEWLINE));
    }
}

/// Chunks put together again.
pub open spec fn joined(chunks: Seq<Seq<u8>>) -> Seq<u8>
    decreases chunks.len(),
{
    if chunks.len() == 0 {
        Seq::empty()
    } else {
        joined(chunks.drop_last()) + chunks.last()
    }
}

/// The lines that chunks give out one after the other, where these bytes were
/// open before them, and the bytes that they leave open.
pub open spec fn lines_of_chunks(pending: Seq<u8>, chunks: Seq<Seq<u8>>) -> (Seq<Seq<u8>>, Seq<u8>)
    decreases chunks.len(),
{
    if chunks.len() == 0 {
        (Seq::empty(), pending)
    } else {
        let (lines, open) = lines_of_chunks(pending, chunks.drop_last());
        let (more, rest) = split_lines(open + chunks.last());
        (lines + more, rest)
    }
}

/// Each of the chunks is taken in without an error.
pub open spec fn all_accepted(pending: Seq<u8>, chunks: Seq<Seq<u8>>, cap: usize) -> bool
    decreases chunks.len(),
{
    chunks.len() > 0 ==> {
        &&& all_accepted(pending, chunks.drop_last(), cap)
        &&& within_cap(lines_of_chunks(pending, chunks.drop_last()).1 + chunks.last(), cap)
    }
}

/// An open line only grows with what is read behind it.
proof fn lemma_open_line_grows(open: Seq<u8>, b: Seq<u8>, cap: usize)
    requires
        !open.contains(NEWLINE),
        within_cap(open + b, cap),
    ensures
        open.len() <= cap,
    decreases b.len(),
{
    if b.len() == 0 {
        assert(open + b =~= open);
        lemma_one_line(open);
    } else {
        let most = b.drop_last();
        assert((open + b).drop_last() =~= open + most);
        let (lines, rest) = split_lines(open + most);
        if b.last() == NEWLINE {
            lemma_all_within_join(lines, seq![rest], cap);
            assert(lines + seq![rest] =~= lines.push(rest));
            assert(seq![rest][0] == rest);
        }
        lemma_open_line_grows(open, most, cap);
    }
}

/// However a stream is cut into chunks, its lines are those of its bytes, and so
/// is what is left open. Whether a line is over the cap depends on the bytes
/// alone, too.
pub proof fn law_cuts_do_not_matter(pending: Seq<u8>, chunks: Seq<Seq<u8>>, cap: usize)
    requires
        !pending.contains(NEWLINE),
        pending.len() <= cap,
    ensures
        lines_of_chunks(pending, chunks) == split_lines(pending + joined(chunks)),
        all_accepted(pending, chunks, cap) <==> within_cap(pending + joined(chunks), cap),
    decreases chunks.len(),
{
    if chunks.len() == 0 {
        assert(pending + joined(chunks) =~= pending);
        lemma_one_line(pending);
    } else {
        let most = pending + joined(chunks.drop_last());
        let last = chunks.last();
        law_cuts_do_not_matter(pending, chunks.drop_last(), cap);
        law_chunks_do_not_matter(most, last);
        assert(pending + joined(chunks) =~= most + last);
        let (lines, open) = split_lines(most);
        lemma_open_has_no_newline(most);
        lemma_all_within_join(lines, split_lines(open + last).0, cap);
        if within_cap(most + last, cap) {
            lemma_open_line_grows(open, last, cap);
        }
    }
}

/// A text that is one line: it has no newline, and no carriage return at its
/// end.
pub open spec fn is_line(text: Seq<char>) -> bool {
    !text.contains('\n') && (text.len() > 0 ==> text.last() != '\r')
}

/// The bytes of some texts, each ended by a newline.
pub open spec fn encoded_lines(lines: Seq<Seq<char>>) -> Seq<u8>
    decreases lines.len(),
{
    if lines.len() == 0 {
        Seq::empty()
    } else {
        encoded_lines(lines.drop_last()) + vstd::utf8::encode_utf8(lines.last()).push(NEWLINE)
    }
}

/// Lines of text read back as they were.
proof fn lemma_lines_read_back(lines: Seq<Seq<char>>)
    requires
        forall|i: int| 0 <= i < lines.len() ==> is_line(#[trigger] lines[i]),
    ensures
        split_lines(encoded_lines(lines)).0.map_values(|line: Seq<u8>| line_text(line)) == lines,
        split_lines(encoded_lines(lines)).1 == Seq::<u8>::empty(),
    decreases lines.len(),
{
    let read = split_lines(encoded_lines(lines)).0.map_values(|line: Seq<u8>| line_text(line));
    if lines.len() == 0 {
        assert(read =~= lines);
    } else {
        let most = lines.drop_last();
        let text = lines.last();
        let bytes = vstd::utf8::encode_utf8(text);
        let last = bytes.push(NEWLINE);
        assert forall|i: int| 0 <= i < most.len() implies is_line(#[trigger] most[i]) by {
            assert(most[i] == lines[i]);
        }
        assert(is_line(lines[lines.len() - 1]));
        lemma_lines_read_back(most);
        law_chunks_do_not_matter(encoded_lines(most), last);
        assert(Seq::<u8>::empty() + last =~= last);
        lemma_text_line(text);
        lemma_one_line(bytes);
        assert(last.drop_last() =~= bytes);
        if bytes.len() > 0 && bytes.last() == CARRIAGE_RETURN {
            lemma_ascii_byte(text, bytes.len() - 1);
        }
        vstd::utf8::encode_utf8_valid_utf8(text);
        vstd::utf8::encode_utf8_decode_utf8(text);
        let done = split_lines(encoded_lines(most)).0;
        assert(split_lines(encoded_lines(lines)).0 =~= done.push(bytes));
        assert(read =~= done.map_values(|line: Seq<u8>| line_text(line)).push(text));
        assert(read =~= lines);
    }
}

/// Lines of text come out as they went in, however many there are and wherever
/// their bytes are cut, byte by byte or in the middle of a character. A line has
/// no newline of its own, and no carriage return at its end.
pub proof fn law_text_survives_any_cuts(lines: Seq<Seq<char>>, chunks: Seq<Seq<u8>>)
    requires
        forall|i: int| 0 <= i < lines.len() ==> is_line(#[trigger] lines[i]),
        joined(chunks) == encoded_lines(lines),
    ensures
        lines_of_chunks(Seq::empty(), chunks).0.map_values(|line: Seq<u8>| line_text(line))
            == lines,
        lines_of_chunks(Seq::empty(), chunks).1 == Seq::<u8>::empty(),
{
    law_cuts_do_not_matter(Seq::empty(), chunks, 0);
    assert(Seq::<u8>::empty() + joined(chunks) =~= joined(chunks));
    lemma_lines_read_back(lines);
}

/// A carriage return before the newline is not part of the line.
pub proof fn law_both_line_endings(text: Seq<char>)
    requires
        !text.contains('\n'),
    ensures
        ({
            let line = vstd::utf8::encode_utf8(text).push(CARRIAGE_RETURN).push(NEWLINE);
            &&& split_lines(line).0.map_values(|line: Seq<u8>| line_text(line)) == seq![text]
            &&& split_lines(line).1 == Seq::<u8>::empty()
        }),
{
    let bytes = vstd::utf8::encode_utf8(text);
    let with_cr = bytes.push(CARRIAGE_RETURN);
    lemma_text_line(text);
    if with_cr.contains(NEWLINE) {
        let i = with_cr.index_of(NEWLINE);
        assert(bytes[i] == NEWLINE);
    }
    lemma_one_line(with_cr);
    assert(with_cr.push(NEWLINE).drop_last() =~= with_cr);
    assert(with_cr.drop_last() =~= bytes);
    vstd::utf8::encode_utf8_valid_utf8(text);
    vstd::utf8::encode_utf8_decode_utf8(text);
    let lines = Seq::<Seq<u8>>::empty().push(with_cr);
    assert(lines.map_values(|line: Seq<u8>| line_text(line)) =~= seq![text]);
}

} // verus!
