//! Laws of tool calls: packed in answers, restored in requests, collected from
//! streams.

use crate::json::Json;
use vstd::prelude::*;

verus! {

/// The names of the members that are told apart here.
proof fn lemma_names()
    ensures
        "id"@ != "extra_content"@,
        "tool_call_id"@ != "tool_calls"@,
{
    reveal_strlit("id");
    reveal_strlit("extra_content");
    reveal_strlit("tool_call_id");
    reveal_strlit("tool_calls");
    assert("id"@.len() != "extra_content"@.len());
    assert("tool_call_id"@.len() != "tool_calls"@.len());
}

/// A call bears this signature in `extra_content.google.thought_signature`.
pub open spec fn bears(call: Json, sig: Seq<char>) -> bool {
    call.field("extra_content"@) matches Some(extra) && extra.field("google"@) matches Some(google)
        && google.field("thought_signature"@) == Some(Json::Text(sig))
}

/// A call has this id.
pub open spec fn has_id(call: Json, id: Seq<char>) -> bool {
    call.field("id"@) == Some(Json::Text(id))
}

/// A call as it goes to the client. One with an id and a signature has the
/// signature in its id and `extra_content` no more; every other member stays.
/// Any other call stays as it is.
pub open spec fn call_packed(call: Json, out: Json) -> bool {
    &&& forall|id: Seq<char>, sig: Seq<char>| #[trigger]
        bears(call, sig) && #[trigger] has_id(call, id) ==> {
            &&& out is Object
            &&& out.field("id"@) == Some(
                Json::Text(
                    id + "__thought__"@ + crate::thought::escaped(vstd::utf8::encode_utf8(sig)),
                ),
            )
            &&& out.field("extra_content"@) is None
            &&& forall|name: Seq<char>|
                name != "id"@ && name != "extra_content"@ ==> #[trigger] out.field(name)
                    == call.field(name)
        }
    &&& (forall|sig: Seq<char>| !#[trigger] bears(call, sig)) || (forall|id: Seq<char>|
        !#[trigger] has_id(call, id)) ==> out == call
}

/// A message as it goes to the client: each of its tool calls is packed, and
/// every other member stays.
pub open spec fn message_packed(message: Json, out: Json) -> bool {
    &&& forall|name: Seq<char>|
        name != "tool_calls"@ ==> #[trigger] out.field(name) == message.field(name)
    &&& match message.field("tool_calls"@) {
        Some(Json::Array(calls)) => out.field("tool_calls"@) matches Some(Json::Array(packed))
            && packed.len() == calls.len() && forall|j: int|
            0 <= j < calls.len() ==> call_packed(calls[j], #[trigger] packed[j]),
        _ => out == message,
    }
}

/// A choice as it goes to the client: its message is packed, and every other
/// member stays.
pub open spec fn choice_packed(choice: Json, out: Json) -> bool {
    &&& forall|name: Seq<char>|
        name != "message"@ ==> #[trigger] out.field(name) == choice.field(name)
    &&& match choice.field("message"@) {
        Some(message) => out.field("message"@) matches Some(packed) && message_packed(
            message,
            packed,
        ),
        None => out == choice,
    }
}

proof fn lemma_call_packed(call: Json)
    ensures
        call_packed(call, crate::thought::packed_call(call)),
{
    lemma_names();
    let out = crate::thought::packed_call(call);
    assert forall|id: Seq<char>, sig: Seq<char>| #[trigger]
        bears(call, sig) && #[trigger] has_id(call, id) implies {
        &&& out is Object
        &&& out.field("id"@) == Some(
            Json::Text(id + "__thought__"@ + crate::thought::escaped(vstd::utf8::encode_utf8(sig))),
        )
        &&& out.field("extra_content"@) is None
        &&& forall|name: Seq<char>|
            name != "id"@ && name != "extra_content"@ ==> #[trigger] out.field(name) == call.field(
                name,
            )
    } by {
        assert(crate::thought::signature_of_call(call) == Some(sig));
        assert(crate::thought::id_of_call(call) == Some(id));
    }
    if let Some(sig) = crate::thought::signature_of_call(call) {
        assert(bears(call, sig));
    }
    if let Some(id) = crate::thought::id_of_call(call) {
        assert(has_id(call, id));
    }
}

/// A tool call is packed as described, and the signature that is read of a call
/// is the one that it bears. So is its id.
pub proof fn law_packing_a_call(call: Json, id: Seq<char>, sig: Seq<char>)
    ensures
        call_packed(call, crate::thought::packed_call(call)),
        crate::thought::signature_of_call(call) == Some(sig) <==> bears(call, sig),
        crate::thought::id_of_call(call) == Some(id) <==> has_id(call, id),
{
    lemma_call_packed(call);
}

/// A whole answer that is packed differs from the answer in its tool calls
/// alone. There are as many choices and calls as before; every member of the
/// answer other than `choices`, of a choice other than `message`, and of a message other
/// than `tool_calls` is the same.
pub proof fn law_packing_changes_tool_calls_alone(body: Json)
    ensures
        ({
            let out = crate::thought::packed_response(body);
            &&& forall|name: Seq<char>|
                name != "choices"@ ==> #[trigger] out.field(name) == body.field(name)
            &&& match body.field("choices"@) {
                Some(Json::Array(choices)) => out.field("choices"@) matches Some(
                    Json::Array(packed),
                ) && packed.len() == choices.len() && forall|i: int|
                    0 <= i < choices.len() ==> choice_packed(choices[i], #[trigger] packed[i]),
                _ => out == body,
            }
        }),
{
    if let Some(Json::Array(choices)) = body.field("choices"@) {
        let out = crate::thought::packed_response(body);
        let packed = out.field("choices"@)->0->Array_0;
        assert(packed.len() == choices.len());
        assert forall|i: int| 0 <= i < choices.len() implies choice_packed(
            choices[i],
            #[trigger] packed[i],
        ) by {
            let choice = choices[i];
            assert(packed[i] == crate::thought::packed_choice(choice));
            if let Some(message) = choice.field("message"@) {
                crate::json::lemma_same_field(choice, "message"@);
                if let Some(Json::Array(calls)) = message.field("tool_calls"@) {
                    let now = packed[i].field("message"@)->0;
                    let list = now.field("tool_calls"@)->0->Array_0;
                    assert(list.len() == calls.len());
                    assert forall|j: int| 0 <= j < calls.len() implies call_packed(
                        calls[j],
                        #[trigger] list[j],
                    ) by {
                        assert(list[j] == crate::thought::packed_call(calls[j]));
                        lemma_call_packed(calls[j]);
                    }
                    assert(message_packed(message, now));
                } else {
                    assert(message_packed(message, message));
                }
            }
        }
    }
}

/// What is under `google` once the signature is there: the signature, and all
/// that was there besides.
pub open spec fn google_restored(before: Option<Json>, out: Json, sig: Seq<char>) -> bool {
    &&& out is Object
    &&& out.field("thought_signature"@) == Some(Json::Text(sig))
    &&& forall|name: Seq<char>|
        name != "thought_signature"@ ==> #[trigger] out.field(name) == crate::json::field_of(
            before,
            name,
        )
}

/// What is under `extra_content` once the signature is there. Where the client
/// left no room for it, nothing changes.
pub open spec fn extra_restored(before: Option<Json>, out: Option<Json>, sig: Seq<char>) -> bool {
    let google = crate::json::field_of(before, "google"@);
    if (before matches Some(extra) && !(extra is Object)) || (google matches Some(g) && !(
    g is Object)) {
        out == before
    } else {
        out matches Some(extra) && extra is Object && (extra.field("google"@) matches Some(g)
            && google_restored(google, g, sig)) && forall|name: Seq<char>|
            name != "google"@ ==> #[trigger] extra.field(name) == crate::json::field_of(
                before,
                name,
            )
    }
}

/// A call as it goes to the model: its own id, the signature that its id carried
/// back in its place, and every other member as the client wrote it.
pub open spec fn call_restored(call: Json, out: Json) -> bool {
    match call.field("id"@) {
        Some(Json::Text(text)) => {
            &&& out.field("id"@) == Some(Json::Text(crate::thought::unpacked(text).0))
            &&& match crate::thought::unpacked(text).1 {
                Some(sig) => extra_restored(
                    call.field("extra_content"@),
                    out.field("extra_content"@),
                    sig,
                ),
                None => out.field("extra_content"@) == call.field("extra_content"@),
            }
            &&& forall|name: Seq<char>|
                name != "id"@ && name != "extra_content"@ ==> #[trigger] out.field(name)
                    == call.field(name)
        },
        _ => out == call,
    }
}

/// A message as it goes to the model: the id that it answers is unpacked, each of
/// its tool calls is restored, and every other member is as the client wrote it.
pub open spec fn message_restored(message: Json, out: Json) -> bool {
    &&& forall|name: Seq<char>|
        name != "tool_call_id"@ && name != "tool_calls"@ ==> #[trigger] out.field(name)
            == message.field(name)
    &&& match message.field("tool_call_id"@) {
        Some(Json::Text(text)) => out.field("tool_call_id"@) == Some(
            Json::Text(crate::thought::unpacked(text).0),
        ),
        other => out.field("tool_call_id"@) == other,
    }
    &&& match message.field("tool_calls"@) {
        Some(Json::Array(calls)) => out.field("tool_calls"@) matches Some(Json::Array(restored))
            && restored.len() == calls.len() && forall|j: int|
            0 <= j < calls.len() ==> call_restored(calls[j], #[trigger] restored[j]),
        other => out.field("tool_calls"@) == other,
    }
    &&& !(message is Object) ==> out == message
}

/// A tool call is restored as described.
pub proof fn law_restoring_a_call(call: Json)
    ensures
        call_restored(call, crate::thought::restored_call(call)),
{
    lemma_names();
    let out = crate::thought::restored_call(call);
    if let Some(Json::Text(text)) = call.field("id"@) {
        if let Some(sig) = crate::thought::unpacked(text).1 {
            let before = call.field("extra_content"@);
            let plain = call.with_field("id"@, Json::Text(crate::thought::unpacked(text).0));
            assert(plain.field("extra_content"@) == before);
            if let Some(extra) = before {
                if let Some(google) = extra.field("google"@) {
                    crate::json::lemma_same_field(extra, "google"@);
                }
            }
            assert(extra_restored(before, out.field("extra_content"@), sig));
        }
    }
}

/// A message is restored as described: the output of a tool, and whatever else a
/// message holds, reaches the model as the client wrote it.
pub proof fn law_restoring_a_message(message: Json)
    ensures
        message_restored(message, crate::thought::restored_message(message)),
{
    lemma_names();
    let out = crate::thought::restored_message(message);
    if let Some(Json::Array(calls)) = message.field("tool_calls"@) {
        let list = out.field("tool_calls"@)->0->Array_0;
        assert(crate::thought::restored_result(message).field("tool_calls"@) == message.field(
            "tool_calls"@,
        ));
        assert(list.len() == calls.len());
        assert forall|j: int| 0 <= j < calls.len() implies call_restored(
            calls[j],
            #[trigger] list[j],
        ) by {
            assert(list[j] == crate::thought::restored_call(calls[j]));
            law_restoring_a_call(calls[j]);
        }
    }
}

/// A restored request has as many messages as that of the client, each restored
/// where it stands, and every other member as the client wrote it.
pub proof fn law_restoring_changes_ids_alone(body: Json)
    ensures
        ({
            let out = crate::thought::restored_request(body);
            &&& forall|name: Seq<char>|
                name != "messages"@ ==> #[trigger] out.field(name) == body.field(name)
            &&& match body.field("messages"@) {
                Some(Json::Array(messages)) => out.field("messages"@) matches Some(
                    Json::Array(restored),
                ) && restored.len() == messages.len() && forall|i: int|
                    0 <= i < messages.len() ==> message_restored(
                        messages[i],
                        #[trigger] restored[i],
                    ),
                _ => out == body,
            }
        }),
{
    if let Some(Json::Array(messages)) = body.field("messages"@) {
        let out = crate::thought::restored_request(body);
        let restored = out.field("messages"@)->0->Array_0;
        assert(restored.len() == messages.len());
        assert forall|i: int| 0 <= i < messages.len() implies message_restored(
            messages[i],
            #[trigger] restored[i],
        ) by {
            assert(restored[i] == crate::thought::restored_message(messages[i]));
            law_restoring_a_message(messages[i]);
        }
    }
}

/// What a fragment makes of what was there. Two texts are joined. Of two objects
/// a member that one of them has stays, and members that both have are merged in
/// turn. Anything else is replaced.
pub proof fn law_what_merging_gives(acc: Json, patch: Json, name: Seq<char>)
    ensures
        acc is Text && patch is Text ==> crate::thought::merged(acc, patch) == Json::Text(
            acc->Text_0 + patch->Text_0,
        ),
        acc is Object && patch is Object ==> crate::thought::merged(acc, patch) is Object,
        acc is Object && patch is Object && patch.field(name) is None ==> crate::thought::merged(
            acc,
            patch,
        ).field(name) == acc.field(name),
        acc is Object && patch is Object && acc.field(name) is None ==> crate::thought::merged(
            acc,
            patch,
        ).field(name) == patch.field(name),
        acc is Object && patch is Object && acc.field(name) is Some && patch.field(name) is Some
            ==> crate::thought::merged(acc, patch).field(name) == Some(
            crate::thought::merged(acc.field(name)->0, patch.field(name)->0),
        ),
        !(acc is Text && patch is Text) && !(acc is Object && patch is Object)
            ==> crate::thought::merged(acc, patch) == patch,
{
}

/// A fragment belongs to the call of its `index`, and to call zero where that is
/// missing or no count.
pub proof fn law_to_which_call_a_fragment_belongs(delta: Json, n: u64)
    ensures
        (delta.field("index"@) matches Some(Json::Num(x)) && crate::json::count_of(x) == Some(n))
            ==> crate::thought::call_index(delta) == n,
        !(delta.field("index"@) matches Some(Json::Num(x)) && crate::json::count_of(x) is Some)
            ==> crate::thought::call_index(delta) == 0,
{
}

/// A fragment is merged into the call with its number and changes no other; the
/// first fragment of a number begins a call behind those there are.
pub proof fn law_absorbing_a_fragment(calls: Seq<(u64, Json)>, before: Seq<Json>, delta: Json)
    requires
        forall|i: int, j: int| 0 <= i < j < calls.len() ==> calls[i].0 != calls[j].0,
    ensures
        crate::thought::absorbed_all(calls, Seq::empty()) == calls,
        crate::thought::absorbed_all(calls, before.push(delta)) == crate::thought::absorbed(
            crate::thought::absorbed_all(calls, before),
            delta,
        ),
        forall|i: int|
            0 <= i < calls.len() && (#[trigger] calls[i]).0 == crate::thought::call_index(delta)
                ==> crate::thought::absorbed(calls, delta) == calls.update(
                i,
                (calls[i].0, crate::thought::merged(calls[i].1, delta)),
            ),
        (forall|i: int|
            0 <= i < calls.len() ==> (#[trigger] calls[i]).0 != crate::thought::call_index(delta))
            ==> crate::thought::absorbed(calls, delta) == calls.push(
            (crate::thought::call_index(delta), delta),
        ),
{
    assert(before.push(delta).drop_last() =~= before);
    let index = crate::thought::call_index(delta);
    let all = crate::thought::call_indices(calls);
    assert forall|i: int| 0 <= i < calls.len() && (#[trigger] calls[i]).0 == index implies crate::thought::absorbed(
        calls,
        delta,
    ) == calls.update(i, (calls[i].0, crate::thought::merged(calls[i].1, delta))) by {
        assert(all[i] == index);
        let k = all.index_of(index);
        assert(all[k] == index && 0 <= k < all.len());
        assert(calls[k].0 == index);
    }
    if forall|i: int| 0 <= i < calls.len() ==> (#[trigger] calls[i]).0 != index {
        if all.contains(index) {
            let k = all.index_of(index);
            assert(calls[k].0 == index);
        }
    }
}

/// The calls that were collected come out packed, each once, in the order of
/// their numbers.
pub proof fn law_what_comes_out(calls: Seq<(u64, Json)>)
    requires
        forall|i: int, j: int| 0 <= i < j < calls.len() ==> calls[i].0 != calls[j].0,
    ensures
        ({
            let order = crate::thought::in_index_order(calls);
            let out = crate::thought::finished(calls);
            &&& order.len() == calls.len()
            &&& forall|c: (u64, Json)| #[trigger] order.contains(c) <==> calls.contains(c)
            &&& forall|i: int, j: int| 0 <= i < j < order.len() ==> order[i].0 < order[j].0
            &&& out.len() == order.len()
            &&& forall|i: int| 0 <= i < out.len() ==> call_packed(order[i].1, #[trigger] out[i])
        }),
{
    let order = crate::thought::lemma_order_exists(calls);
    crate::thought::law_index_order_is_unique(calls, order);
    let out = crate::thought::finished(calls);
    assert forall|i: int| 0 <= i < out.len() implies call_packed(order[i].1, #[trigger] out[i]) by {
        assert(out[i] == crate::thought::packed_call(order[i].1));
        lemma_call_packed(order[i].1);
    }
}

} // verus!
