//! Laws of streams: lines, chunks, turns and their ends.

use crate::forward::Turn;
use crate::json::{Json, JsonValue};
use crate::observe::Usage;
use crate::thought::ToolCallAccumulator;
use vstd::prelude::*;

verus! {

// -------------------------------------------------------------------- lines

/// Lines put together again, each with a newline behind it.
pub open spec fn with_newlines(lines: Seq<Seq<u8>>) -> Seq<u8>
    decreases lines.len(),
{
    if lines.len() == 0 {
        Seq::empty()
    } else {
        with_newlines(lines.drop_last()) + lines.last().push(10)
    }
}

/// The lines and the open rest are the bytes that came, cut at the newlines and
/// nowhere else: put together they are the bytes, and none of them holds a
/// newline.
pub proof fn law_lines_are_the_bytes(bytes: Seq<u8>)
    ensures
        ({
            let (lines, open) = crate::sse::split_lines(bytes);
            &&& with_newlines(lines) + open == bytes
            &&& forall|i: int| 0 <= i < lines.len() ==> !(#[trigger] lines[i]).contains(10)
            &&& !open.contains(10)
        }),
    decreases bytes.len(),
{
    let (lines, open) = crate::sse::split_lines(bytes);
    if bytes.len() == 0 {
        assert(with_newlines(lines) + open =~= bytes);
    } else {
        let most = bytes.drop_last();
        let (before, rest) = crate::sse::split_lines(most);
        law_lines_are_the_bytes(most);
        assert(bytes =~= most.push(bytes.last()));
        if bytes.last() == 10 {
            assert(lines.drop_last() =~= before);
            assert(with_newlines(lines) =~= with_newlines(before) + rest.push(10));
            assert(with_newlines(lines) + open =~= bytes);
            assert forall|i: int| 0 <= i < lines.len() implies !(#[trigger] lines[i]).contains(
                10,
            ) by {
                if i < before.len() {
                    assert(lines[i] == before[i]);
                }
            }
        } else {
            assert(with_newlines(lines) + open =~= bytes);
            if open.contains(10) {
                let i = open.index_of(10);
                assert(open[i] == 10);
                assert(rest[i] == 10);
            }
        }
    }
}

/// The text of a line is what its bytes encode, without one carriage return at
/// its end; where they are not UTF-8 it is the text that stands in for them.
pub proof fn law_text_of_a_line(line: Seq<u8>)
    ensures
        !vstd::utf8::valid_utf8(line) && (line.len() > 0 ==> line.last() != 13)
            ==> crate::sse::line_text(line) == crate::text::lossy_text(line),
        vstd::utf8::valid_utf8(line) && (line.len() > 0 ==> line.last() != 13)
            ==> crate::sse::line_text(line) == vstd::utf8::decode_utf8(line),
        !vstd::utf8::valid_utf8(line) ==> crate::sse::line_text(line.push(13))
            == crate::text::lossy_text(line),
        vstd::utf8::valid_utf8(line) ==> crate::sse::line_text(line.push(13))
            == vstd::utf8::decode_utf8(line),
        crate::sse::without_cr(line.push(13)) == line,
        line.len() == 0 || line.last() != 13 ==> crate::sse::without_cr(line) == line,
{
    assert(line.push(13).drop_last() =~= line);
}

/// The open rest is the longest piece at the end without a newline.
proof fn lemma_open_is_the_end(bytes: Seq<u8>)
    ensures
        ({
            let open = crate::sse::split_lines(bytes).1;
            &&& open.len() <= bytes.len()
            &&& bytes.subrange(bytes.len() - open.len(), bytes.len() as int) == open
            &&& !open.contains(10)
            &&& open.len() < bytes.len() ==> bytes[bytes.len() - open.len() - 1] == 10
        }),
    decreases bytes.len(),
{
    let open = crate::sse::split_lines(bytes).1;
    law_lines_are_the_bytes(bytes);
    if bytes.len() > 0 {
        let most = bytes.drop_last();
        let rest = crate::sse::split_lines(most).1;
        lemma_open_is_the_end(most);
        if bytes.last() != 10 {
            assert(open =~= rest.push(bytes.last()));
            assert forall|k: int| 0 <= k < rest.len() implies bytes[bytes.len() - open.len() + k]
                == rest[k] by {
                assert(most.subrange(most.len() - rest.len(), most.len() as int)[k] == rest[k]);
            }
        }
        assert(bytes.subrange(bytes.len() - open.len(), bytes.len() as int) =~= open);
    }
}

/// A piece of the bytes without a newline.
pub open spec fn is_run(bytes: Seq<u8>, i: int, j: int) -> bool {
    0 <= i <= j <= bytes.len() && forall|k: int| i <= k < j ==> #[trigger] bytes[k] != 10
}

/// Bytes are within the cap where no piece of them without a newline is longer.
pub proof fn law_the_cap_is_on_a_single_line(bytes: Seq<u8>, cap: usize)
    ensures
        crate::sse::within_cap(bytes, cap) <==> forall|i: int, j: int| #[trigger]
            is_run(bytes, i, j) ==> j - i <= cap,
    decreases bytes.len(),
{
    let (lines, open) = crate::sse::split_lines(bytes);
    lemma_open_is_the_end(bytes);
    let start = bytes.len() - open.len();
    assert forall|k: int| start <= k < bytes.len() implies #[trigger] bytes[k] != 10 by {
        assert(bytes.subrange(start, bytes.len() as int)[k - start] == bytes[k]);
        assert(open[k - start] == bytes[k]);
    }
    assert(is_run(bytes, start, bytes.len() as int));
    if bytes.len() == 0 {
        assert(forall|i: int, j: int| #[trigger] is_run(bytes, i, j) ==> j - i <= cap);
    } else {
        let most = bytes.drop_last();
        let (before, rest) = crate::sse::split_lines(most);
        law_the_cap_is_on_a_single_line(most, cap);
        assert forall|i: int, j: int| #[trigger] is_run(most, i, j) <==> is_run(bytes, i, j) && j
            < bytes.len() by {
            if is_run(most, i, j) {
                assert forall|k: int| i <= k < j implies #[trigger] bytes[k] != 10 by {
                    assert(most[k] == bytes[k]);
                }
            }
            if is_run(bytes, i, j) && j < bytes.len() {
                assert forall|k: int| i <= k < j implies #[trigger] most[k] != 10 by {
                    assert(most[k] == bytes[k]);
                }
            }
        }
        // Within the cap as a whole means within it up to the last byte.
        if bytes.last() == 10 {
            if crate::sse::within_cap(bytes, cap) {
                assert(lines[before.len() as int] == rest);
                assert forall|i: int| 0 <= i < before.len() implies (#[trigger] before[i]).len()
                    <= cap by {
                    assert(lines[i] == before[i]);
                }
            }
        }
        if crate::sse::within_cap(bytes, cap) {
            assert(crate::sse::within_cap(most, cap));
            assert forall|i: int, j: int| #[trigger] is_run(bytes, i, j) implies j - i <= cap by {
                if j < bytes.len() {
                    assert(is_run(most, i, j));
                } else if i < start {
                    assert(bytes[start - 1] == 10);
                }
            }
        }
        if forall|i: int, j: int| #[trigger] is_run(bytes, i, j) ==> j - i <= cap {
            assert forall|i: int, j: int| #[trigger] is_run(most, i, j) implies j - i <= cap by {
                assert(is_run(bytes, i, j));
            }
            assert(crate::sse::within_cap(most, cap));
            if bytes.last() == 10 {
                assert forall|i: int| 0 <= i < lines.len() implies (#[trigger] lines[i]).len()
                    <= cap by {
                    if i < before.len() {
                        assert(lines[i] == before[i]);
                    }
                }
            }
        }
    }
}

/// The payload of a line is what follows `data:` and one space, or what follows
/// `data:` where no space does. An empty one and the sign `[DONE]` are none, and
/// a line without `data:` at its front has none.
pub proof fn law_what_the_payload_is(line: Seq<char>, text: Seq<char>)
    ensures
        crate::sse::payload_of("data: "@ + text) == (if text.len() == 0 || text == "[DONE]"@ {
            None
        } else {
            Some(text)
        }),
        (text.len() > 0 ==> text[0] != ' ') ==> crate::sse::payload_of("data:"@ + text) == (
        if text.len() == 0 || text == "[DONE]"@ {
            None
        } else {
            Some(text)
        }),
        line.len() < 5 || line.take(5) != "data:"@ ==> crate::sse::payload_of(line) is None,
{
    reveal_strlit("data:");
    reveal_strlit("data: ");
    assert("data:"@.len() == 5 && "data: "@.len() == 6);
    let spaced = "data: "@ + text;
    let plain = "data:"@ + text;
    assert("data:"@ =~= spaced.subrange(0, 5));
    assert("data:"@ =~= plain.subrange(0, 5));
    assert(spaced.skip(5)[0] == ' ');
    assert(spaced.skip(5).skip(1) =~= text);
    assert(plain.skip(5) =~= text);
    if "data:"@.is_prefix_of(line) {
        assert(line.take(5) =~= "data:"@);
    }
}

// ------------------------------------------------------------------- chunks

/// This is the first choice of a chunk: the first element of `choices`, or its
/// member `0` where it is an object.
pub open spec fn is_head(chunk: Json, choice: Json) -> bool {
    chunk.field("choices"@) matches Some(choices) && match choices {
        Json::Array(all) => all.len() > 0 && all[0] == choice,
        _ => choices.field("0"@) == Some(choice),
    }
}

/// The delta of the first choice carries these fragments of tool calls.
pub open spec fn carries(chunk: Json, choice: Json, delta: Json, fragments: Seq<Json>) -> bool {
    &&& is_head(chunk, choice)
    &&& choice.field("delta"@) == Some(delta)
    &&& delta.field("tool_calls"@) == Some(Json::Array(fragments))
}

/// The first choice names this reason for the end of the turn.
pub open spec fn names_reason(chunk: Json, choice: Json, reason: Json) -> bool {
    &&& is_head(chunk, choice)
    &&& choice.field("finish_reason"@) == Some(reason)
    &&& reason != Json::Null
}

/// A chunk carries fragments of tool calls.
pub open spec fn has_fragments(chunk: Json) -> bool {
    exists|choice: Json, delta: Json, fragments: Seq<Json>|
        carries(chunk, choice, delta, fragments)
}

/// A chunk ends the turn.
pub open spec fn ends(chunk: Json) -> bool {
    exists|choice: Json, reason: Json| names_reason(chunk, choice, reason)
}

/// A choice without the tool calls in its delta; all else in it stays.
pub open spec fn choice_stripped(choice: Json, out: Json) -> bool {
    &&& forall|name: Seq<char>|
        name != "delta"@ ==> #[trigger] out.field(name) == choice.field(name)
    &&& out.field("delta"@) matches Some(delta) && delta is Object && delta.field(
        "tool_calls"@,
    ) is None && forall|name: Seq<char>|
        name != "tool_calls"@ ==> #[trigger] delta.field(name) == crate::json::field_of(
            choice.field("delta"@),
            name,
        )
}

/// A chunk as it passes on. Fragments of tool calls are taken out of the delta of
/// its first choice, and all else stays; a chunk without them stays as it is.
pub open spec fn chunk_passes(chunk: Json, out: Json) -> bool {
    if has_fragments(chunk) {
        &&& forall|name: Seq<char>|
            name != "choices"@ ==> #[trigger] out.field(name) == chunk.field(name)
        &&& match chunk.field("choices"@) {
            Some(Json::Array(all)) => out.field("choices"@) matches Some(Json::Array(now))
                && now.len() == all.len() && choice_stripped(all[0], now[0]) && forall|i: int|
                1 <= i < all.len() ==> #[trigger] now[i] == all[i],
            Some(all) => out.field("choices"@) matches Some(now) && now is Object && (now.field(
                "0"@,
            ) matches Some(head) && choice_stripped(all.field("0"@)->0, head)) && forall|
                name: Seq<char>,
            |
                name != "0"@ ==> #[trigger] now.field(name) == all.field(name),
            None => false,
        }
    } else {
        out == chunk
    }
}

/// The delta of the first choice holds something beside tool calls.
pub open spec fn says_more(chunk: Json) -> bool {
    exists|choice: Json, name: Seq<char>| #[trigger]
        is_head(chunk, choice) && #[trigger] crate::json::field_of(
            choice.field("delta"@),
            name,
        ) is Some && name != "tool_calls"@
}

proof fn lemma_names()
    ensures
        "delta"@ != "finish_reason"@,
        "usage"@ != "choices"@,
        "index"@ != "delta"@,
        "index"@ != "finish_reason"@,
        "role"@ != "tool_calls"@,
        "object"@ != "model"@,
        "object"@ != "choices"@,
        "model"@ != "choices"@,
        "usage"@ != "object"@,
        "usage"@ != "model"@,
        "prompt_tokens"@ != "completion_tokens"@,
        "prompt_tokens"@ != "completion_tokens_details"@,
        "completion_tokens"@ != "completion_tokens_details"@,
{
    reveal_strlit("delta");
    reveal_strlit("finish_reason");
    reveal_strlit("usage");
    reveal_strlit("choices");
    reveal_strlit("index");
    reveal_strlit("role");
    reveal_strlit("tool_calls");
    reveal_strlit("object");
    reveal_strlit("model");
    reveal_strlit("prompt_tokens");
    reveal_strlit("completion_tokens");
    reveal_strlit("completion_tokens_details");
    assert("delta"@.len() == 5 && "finish_reason"@.len() == 13 && "usage"@.len() == 5);
    assert("choices"@.len() == 7 && "index"@.len() == 5 && "role"@.len() == 4);
    assert("tool_calls"@.len() == 10 && "object"@.len() == 6 && "model"@.len() == 5);
    assert("prompt_tokens"@.len() == 13 && "completion_tokens"@.len() == 17);
    assert("completion_tokens_details"@.len() == 25);
    assert("index"@[0] != "delta"@[0]);
    assert("usage"@[0] != "model"@[0]);
}

proof fn lemma_chunk(chunk: Json)
    ensures
        forall|choice: Json| #[trigger]
            is_head(chunk, choice) <==> crate::forward::first_choice_in(chunk) == Some(choice),
        crate::forward::fragments_in(chunk) is Some <==> has_fragments(chunk),
        crate::forward::ends_turn(chunk) <==> ends(chunk),
        forall|choice: Json, delta: Json, fragments: Seq<Json>| #[trigger]
            carries(chunk, choice, delta, fragments) ==> crate::forward::fragments_in(chunk)
                == Some(fragments),
{
    if let Some(choice) = crate::forward::first_choice_in(chunk) {
        assert(is_head(chunk, choice));
        if let Some(fragments) = crate::forward::fragments_in(chunk) {
            assert(carries(chunk, choice, choice.field("delta"@)->0, fragments));
        }
        if crate::forward::ends_turn(chunk) {
            assert(names_reason(chunk, choice, choice.field("finish_reason"@)->0));
        }
    }
}

proof fn lemma_passing(chunk: Json)
    ensures
        chunk_passes(chunk, crate::forward::passing(chunk)),
{
    lemma_chunk(chunk);
    if has_fragments(chunk) {
        let out = crate::forward::passing(chunk);
        let choice = crate::forward::first_choice_in(chunk)->0;
        assert(choice_stripped(choice, crate::forward::choice_without_calls(choice)));
    }
}

/// Nothing of a text chunk is lost and nothing is held back: a chunk without
/// fragments of tool calls that does not end the turn is sent on as it is.
pub proof fn law_text_chunks_pass_on(turn: Turn, chunk: Json)
    requires
        !has_fragments(chunk),
        !ends(chunk),
    ensures
        crate::forward::sent_on(chunk) == Some(chunk),
        turn.after(chunk).calls == turn.calls,
        turn.after(chunk).held == turn.held,
{
    lemma_chunk(chunk);
}

/// The same of a line of the stream: the event of a text chunk goes out at once,
/// whatever members its delta has.
pub proof fn law_text_lines_pass_on(turn: Turn, line: Seq<char>, payload: Seq<char>, chunk: Json)
    requires
        crate::sse::payload_of(line) == Some(payload),
        crate::codec::parsed(payload) == Some(chunk),
        !has_fragments(chunk),
        !ends(chunk),
    ensures
        crate::forward::line_sent_on(line) == Some(
            "data: "@ + crate::codec::rendered(chunk) + "\n\n"@,
        ),
        turn.after_line(line).calls == turn.calls,
        turn.after_line(line).held == turn.held,
{
    lemma_chunk(chunk);
}

/// Fragments of tool calls are taken out of a chunk and collected, in the order
/// in which they stand. What else the delta says goes out at once; where it says
/// nothing else, nothing goes out.
pub proof fn law_fragments_are_taken_out(
    turn: Turn,
    chunk: Json,
    choice: Json,
    delta: Json,
    fragments: Seq<Json>,
)
    requires
        carries(chunk, choice, delta, fragments),
    ensures
        turn.after(chunk).calls == crate::thought::absorbed_all(turn.calls, fragments),
        !ends(chunk) && says_more(chunk) ==> (crate::forward::sent_on(chunk) matches Some(out)
            && chunk_passes(chunk, out)),
        !ends(chunk) && !says_more(chunk) ==> crate::forward::sent_on(chunk) is None,
        !ends(chunk) ==> turn.after(chunk).held == turn.held,
{
    lemma_chunk(chunk);
    lemma_passing(chunk);
    let members = delta->Object_0;
    if says_more(chunk) {
        let (head, name) = choose|head: Json, name: Seq<char>| #[trigger]
            is_head(chunk, head) && #[trigger] crate::json::field_of(
                head.field("delta"@),
                name,
            ) is Some && name != "tool_calls"@;
        assert(head == choice);
        assert(members.contains_key(name));
    } else {
        assert forall|name: Seq<char>| #[trigger] members.contains_key(name) implies name
            == "tool_calls"@ by {
            assert(is_head(chunk, choice));
            assert(crate::json::field_of(choice.field("delta"@), name) is Some);
        }
    }
}

/// A chunk that ends the turn is held back, without fragments of tool calls and
/// otherwise as it came, and sends nothing on.
pub proof fn law_the_end_is_held_back(turn: Turn, chunk: Json)
    requires
        ends(chunk),
    ensures
        crate::forward::sent_on(chunk) is None,
        turn.after(chunk).held matches Some(held) && chunk_passes(chunk, held),
        !has_fragments(chunk) ==> turn.after(chunk).calls == turn.calls,
{
    lemma_chunk(chunk);
    lemma_passing(chunk);
}

/// The token counts of a chunk replace those before; a chunk without a `usage`
/// object leaves them.
pub proof fn law_usage_is_the_latest(turn: Turn, chunk: Json)
    ensures
        chunk.field("usage"@) matches Some(Json::Object(members)) ==> turn.after(chunk).usage
            == Some(crate::observe::usage_in(members)) && crate::forward::usage_within(chunk)
            == Some(crate::observe::usage_in(members)),
        !(chunk.field("usage"@) matches Some(Json::Object(_))) ==> turn.after(chunk).usage
            == turn.usage && crate::forward::usage_within(chunk) is None,
{
}

/// A line without a payload is dropped. A payload that is no JSON is sent on with
/// its line. A payload that is a chunk does what the chunk does, and an event
/// goes out if and only if the chunk sends something on.
pub proof fn law_what_a_line_does(turn: Turn, line: Seq<char>, payload: Seq<char>, chunk: Json)
    ensures
        crate::sse::payload_of(line) is None ==> crate::forward::line_sent_on(line) is None
            && turn.after_line(line) == turn,
        crate::sse::payload_of(line) == Some(payload) && crate::codec::parsed(payload) is None
            ==> crate::forward::line_sent_on(line) == Some(line + "\n\n"@) && turn.after_line(line)
            == turn,
        crate::sse::payload_of(line) == Some(payload) && crate::codec::parsed(payload) == Some(
            chunk,
        ) ==> {
            &&& turn.after_line(line) == turn.after(chunk)
            &&& crate::forward::line_sent_on(line) is Some <==> crate::forward::sent_on(
                chunk,
            ) is Some
            &&& crate::forward::sent_on(chunk) matches Some(out) ==> crate::forward::line_sent_on(
                line,
            ) == Some("data: "@ + crate::codec::rendered(out) + "\n\n"@)
        },
{
}

/// A turn begins with no calls, no token counts and no end.
pub proof fn law_how_a_turn_begins()
    ensures
        Turn::start().calls.len() == 0,
        Turn::start().usage is None,
        Turn::start().held is None,
{
}

/// The chunk that is held is the last one of the stream that ended the turn,
/// without fragments of tool calls and otherwise as it came. There is none where
/// no chunk did.
pub proof fn law_the_last_end_is_held(chunks: Seq<Json>, k: int)
    ensures
        (forall|i: int| 0 <= i < chunks.len() ==> !ends(#[trigger] chunks[i]))
            ==> Turn::start().after_all(chunks).held is None,
        0 <= k < chunks.len() && ends(chunks[k]) && (forall|i: int|
            k < i < chunks.len() ==> !ends(#[trigger] chunks[i])) ==> (
        Turn::start().after_all(chunks).held matches Some(held) && chunk_passes(chunks[k], held)),
    decreases chunks.len(),
{
    if chunks.len() > 0 {
        let most = chunks.drop_last();
        let last = chunks.last();
        law_the_last_end_is_held(most, k);
        lemma_chunk(last);
        lemma_passing(last);
        assert(last == chunks[chunks.len() - 1]);
        assert forall|i: int| 0 <= i < most.len() implies most[i] == chunks[i] by {}
        if forall|i: int| 0 <= i < chunks.len() ==> !ends(#[trigger] chunks[i]) {
            assert forall|i: int| 0 <= i < most.len() implies !ends(#[trigger] most[i]) by {
                assert(!ends(chunks[i]));
            }
        }
        if 0 <= k < most.len() && ends(chunks[k]) && (forall|i: int|
            k < i < chunks.len() ==> !ends(#[trigger] chunks[i])) {
            assert forall|i: int| k < i < most.len() implies !ends(#[trigger] most[i]) by {
                assert(!ends(chunks[i]));
            }
            assert(!ends(chunks[chunks.len() - 1]));
        }
    }
}

// ------------------------------------------------------------------ the end

/// An object holds these token counts and nothing else.
pub open spec fn is_usage(v: Json, u: Usage) -> bool {
    &&& v is Object
    &&& v.field("prompt_tokens"@) == Some(Json::Num(crate::json::number_of(u.prompt_tokens)))
    &&& v.field("completion_tokens"@) == Some(
        Json::Num(crate::json::number_of(u.completion_tokens)),
    )
    &&& v.field("completion_tokens_details"@) matches Some(details) && details is Object
        && details.field("reasoning_tokens"@) == Some(
        Json::Num(crate::json::number_of(u.reasoning_tokens)),
    ) && forall|name: Seq<char>|
        name != "reasoning_tokens"@ ==> #[trigger] details.field(name) is None
    &&& forall|name: Seq<char>|
        name != "prompt_tokens"@ && name != "completion_tokens"@ && name
            != "completion_tokens_details"@ ==> #[trigger] v.field(name) is None
}

/// Where a chunk that ends the turn was held back, the last chunk is that chunk:
/// it agrees with it in every member other than `usage`, so in its choices, its
/// reason and its id, with or without tool calls. It keeps a `usage` of its own,
/// and gets the counted tokens where it has none.
pub proof fn law_the_last_chunk_is_the_one_held(turn: Turn, model: Seq<char>, held: Json)
    requires
        turn.held == Some(held),
        held is Object,
    ensures
        ({
            let last = turn.closing(model).last();
            &&& last is Object
            &&& forall|name: Seq<char>|
                name != "usage"@ ==> #[trigger] last.field(name) == held.field(name)
            &&& held.field("usage"@) is Some ==> last.field("usage"@) == held.field("usage"@)
            &&& held.field("usage"@) is None && turn.usage is None ==> last.field(
                "usage"@,
            ) is None
            &&& held.field("usage"@) is None ==> (turn.usage matches Some(u) ==> (last.field(
                "usage"@,
            ) matches Some(v) && is_usage(v, u)))
        }),
{
    lemma_names();
}

/// Where no chunk ended the turn, the last one is made up: it names the model and
/// says what happened, `tool_calls` where there were any and otherwise `stop`.
pub proof fn law_an_end_that_is_made_up(turn: Turn, model: Seq<char>)
    requires
        turn.held is None,
    ensures
        ({
            let last = turn.closing(model).last();
            &&& last is Object
            &&& last.field("object"@) == Some(Json::Text("chat.completion.chunk"@))
            &&& last.field("model"@) == Some(Json::Text(model))
            &&& last.field("choices"@) matches Some(Json::Array(choices)) && choices.len() == 1 && {
                &&& choices[0] is Object
                &&& choices[0].field("index"@) == Some(Json::Num(crate::json::number_of(0)))
                &&& choices[0].field("delta"@) == Some(Json::Object(Map::empty()))
                &&& choices[0].field("finish_reason"@) == Some(
                    Json::Text(
                        if turn.calls.len() > 0 {
                            "tool_calls"@
                        } else {
                            "stop"@
                        },
                    ),
                )
                &&& forall|name: Seq<char>|
                    name != "index"@ && name != "delta"@ && name != "finish_reason"@
                        ==> #[trigger] choices[0].field(name) is None
            }
            &&& forall|name: Seq<char>|
                name != "object"@ && name != "model"@ && name != "choices"@ && name != "usage"@
                    ==> #[trigger] last.field(name) is None
            &&& turn.usage is None ==> last.field("usage"@) is None
            &&& turn.usage matches Some(u) ==> (last.field("usage"@) matches Some(v) && is_usage(
                v,
                u,
            ))
        }),
{
    lemma_names();
    let base = crate::forward::inferred_end(model, turn.calls.len() > 0);
    let last = turn.closing(model).last();
    assert(base.field("usage"@) is None);
    assert(last.field("choices"@) == base.field("choices"@));
    assert(last.field("object"@) == base.field("object"@));
    assert(last.field("model"@) == base.field("model"@));
}

/// Tool calls that were collected go out in one chunk of their own, all of them
/// and consolidated, just before the last chunk; without any there is none. That
/// chunk is the held one with this choice in place of its own and without token
/// counts, and ends nothing.
pub proof fn law_tool_calls_go_out_before_the_end(turn: Turn, model: Seq<char>)
    requires
        turn.held matches Some(held) ==> held is Object,
    ensures
        ({
            let closing = turn.closing(model);
            &&& turn.calls.len() == 0 ==> closing.len() == 1
            &&& turn.calls.len() > 0 ==> closing.len() == 2 && closing[0] is Object && {
                &&& closing[0].field("usage"@) is None
                &&& forall|name: Seq<char>|
                    name != "choices"@ && name != "usage"@ ==> #[trigger] closing[0].field(name)
                        == crate::json::field_of(turn.held, name)
                &&& closing[0].field("choices"@) matches Some(Json::Array(choices))
                    && choices.len() == 1 && {
                    &&& choices[0] is Object
                    &&& choices[0].field("index"@) == Some(Json::Num(crate::json::number_of(0)))
                    &&& choices[0].field("finish_reason"@) == Some(Json::Null)
                    &&& choices[0].field("delta"@) matches Some(delta) && delta is Object && {
                        &&& delta.field("role"@) == Some(Json::Text("assistant"@))
                        &&& delta.field("tool_calls"@) == Some(
                            Json::Array(crate::thought::finished(turn.calls)),
                        )
                        &&& forall|name: Seq<char>|
                            name != "role"@ && name != "tool_calls"@ ==> #[trigger] delta.field(
                                name,
                            ) is None
                    }
                    &&& forall|name: Seq<char>|
                        name != "index"@ && name != "delta"@ && name != "finish_reason"@
                            ==> #[trigger] choices[0].field(name) is None
                }
            }
        }),
{
    lemma_names();
    if turn.calls.len() > 0 {
        let choice = crate::forward::calls_choice(crate::thought::finished(turn.calls));
        assert(turn.closing(model)[0].field("choices"@) == Some(Json::Array(seq![choice])));
    }
}

/// A chunk of tool calls for any reference: the reference with this choice in
/// place of its own and without token counts. Nothing is an empty object.
pub proof fn law_a_chunk_of_tool_calls(reference: Json, calls: Seq<Json>, name: Seq<char>)
    requires
        reference is Object || reference is Null,
    ensures
        crate::forward::calls_chunk(reference, calls) is Object,
        name != "choices"@ && name != "usage"@ ==> crate::forward::calls_chunk(
            reference,
            calls,
        ).field(name) == reference.field(name),
        crate::forward::calls_chunk(reference, calls).field("usage"@) is None,
        crate::forward::calls_chunk(reference, calls).field("choices"@) == Some(
            Json::Array(seq![crate::forward::calls_choice(calls)]),
        ),
        carries(
            crate::forward::calls_chunk(reference, calls),
            crate::forward::calls_choice(calls),
            crate::forward::calls_choice(calls).field("delta"@)->0,
            calls,
        ),
        crate::forward::calls_choice(calls).field("delta"@)->0.field("role"@) == Some(
            Json::Text("assistant"@),
        ),
        !ends(crate::forward::calls_chunk(reference, calls)),
{
    lemma_names();
}

/// An event is `data:`, a space, the document and an empty line; the sign of
/// completion has `[DONE]` for a document.
pub proof fn law_what_an_event_is(v: Json)
    ensures
        crate::forward::event(v) == "data: "@ + crate::codec::rendered(v) + "\n\n"@,
        crate::forward::done_event() == "data: "@ + "[DONE]"@ + "\n\n"@,
{
    reveal_strlit("data: ");
    reveal_strlit("[DONE]");
    reveal_strlit("\n\n");
    reveal_strlit("data: [DONE]\n\n");
    assert(crate::forward::done_event() =~= "data: "@ + "[DONE]"@ + "\n\n"@);
}

/// How a stream ends. Cut in the middle of an event, it reports that and nothing
/// else. Otherwise each of the last chunks goes out as an event, in their order,
/// and behind them the sign of completion unless reading failed.
pub proof fn law_what_ends_a_stream(turn: Turn, model: Seq<char>, failed: bool)
    ensures
        crate::forward::ending(turn, model, true, failed) == seq![
            "data: "@ + crate::codec::rendered(
                crate::reply::error_json("upstream ended before the response completed"@),
            ) + "\n\n"@,
        ],
        ({
            let frames = crate::forward::ending(turn, model, false, failed);
            let closing = turn.closing(model);
            &&& frames.len() == closing.len() + if failed {
                0int
            } else {
                1
            }
            &&& forall|i: int|
                0 <= i < closing.len() ==> #[trigger] frames[i] == "data: "@
                    + crate::codec::rendered(closing[i]) + "\n\n"@
            &&& !failed ==> frames.last() == "data: [DONE]\n\n"@
        }),
{
    let closing = turn.closing(model);
    let frames = crate::forward::ending(turn, model, false, failed);
    assert forall|i: int| 0 <= i < closing.len() implies #[trigger] frames[i] == "data: "@
        + crate::codec::rendered(closing[i]) + "\n\n"@ by {
        assert(frames[i] == crate::forward::event(closing[i]));
    }
}

/// A turn is made of what was collected, counted and held back.
pub proof fn law_what_a_turn_is_made_of(
    tools: ToolCallAccumulator,
    usage: Option<Usage>,
    held: JsonValue,
)
    ensures
        crate::forward::turn_of(tools, usage, None).calls == tools@,
        crate::forward::turn_of(tools, usage, None).usage == usage,
        crate::forward::turn_of(tools, usage, None).held is None,
        crate::forward::turn_of(tools, usage, Some(held)).calls == tools@,
        crate::forward::turn_of(tools, usage, Some(held)).usage == usage,
        crate::forward::turn_of(tools, usage, Some(held)).held == Some(held@),
{
}

// ------------------------------------------------------------ whole answers

/// Of a whole answer the tool calls are packed where it is a success, and it is
/// sent on as it is where it is not.
pub proof fn law_whole_answers(status: u16, payload: Json)
    ensures
        status >= 200 && status < 300 ==> crate::forward::settled(status, payload)
            == crate::thought::packed_response(payload),
        status < 200 || status >= 300 ==> crate::forward::settled(status, payload) == payload,
{
}

/// The text of an answer is its document where it is JSON, and otherwise the
/// message of an error.
pub proof fn law_text_of_an_answer(text: Seq<char>, v: Json)
    ensures
        crate::codec::parsed(text) == Some(v) ==> crate::forward::payload_in(text) == v,
        crate::codec::parsed(text) is None ==> crate::forward::payload_in(text)
            == crate::reply::error_json(text),
{
}

} // verus!
