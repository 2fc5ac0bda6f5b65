//! The chat completions protocol.
//!
//! It serves the models of the house, models of other publishers
//! (`meta/llama-...`) and endpoints that are addressed by a number.

use crate::config::{Config, Settings};
use crate::forward::{model_of, upstream_error};
use crate::json::{Json, JsonValue};
use crate::reply::Reply;
use crate::routes::{check_auth, unauthorized};
use crate::table::Table;
use crate::text::chars_of;
use crate::thought::restore_request;
use vstd::prelude::*;

verus! {

/// A name that already says where it belongs: one with a publisher before a
/// slash, or the number of an endpoint.
pub open spec fn is_complete_name(name: Seq<char>) -> bool {
    ||| name.contains('/')
    ||| forall|i: int| 0 <= i < name.len() ==> '0' <= #[trigger] name[i] <= '9'
}

/// The name with a publisher before it, where it has none.
pub open spec fn with_publisher(name: Seq<char>) -> Seq<char> {
    if is_complete_name(name) {
        name
    } else {
        "google/"@ + name
    }
}

/// The model that a name stands for.
pub open spec fn resolved(aliases: Map<Seq<char>, Seq<char>>, raw: Seq<char>) -> Seq<char> {
    with_publisher(
        if aliases.contains_key(raw) {
            aliases[raw]
        } else {
            raw
        },
    )
}

/// Whether a name already says where it belongs.
fn says_where(name: &str) -> (r: bool)
    ensures
        r == is_complete_name(name@),
{
    let chars = chars_of(name);
    let mut all_digits = true;
    let mut i: usize = 0;
    while i < chars.len()
        invariant
            i <= chars@.len(),
            chars@ == name@,
            forall|j: int| 0 <= j < i ==> #[trigger] chars@[j] != '/',
            all_digits == (forall|j: int| 0 <= j < i ==> '0' <= #[trigger] chars@[j] <= '9'),
        decreases chars@.len() - i,
    {
        let c = chars[i];
        if c == '/' {
            assert(name@[i as int] == '/');
            return true;
        }
        if c < '0' || '9' < c {
            all_digits = false;
            assert(!('0' <= chars@[i as int] && chars@[i as int] <= '9'));
        }
        i += 1;
    }
    all_digits
}

/// Resolves an alias, then puts the publisher before a bare name.
///
/// A name with a slash is left alone, and so is one of digits only: it is the
/// number of an endpoint.
pub fn resolve_model(aliases: &Table<String>, raw: String) -> (r: String)
    ensures
        r@ == resolved(crate::config::alias_map(*aliases), raw@),
{
    let name = match aliases.get(raw.as_str()) {
        Some(model) => model.clone(),
        None => raw,
    };
    if says_where(name.as_str()) {
        name
    } else {
        let mut out = "google/".to_owned();
        out.append(name.as_str());
        out
    }
}

/// Members that a client may send and that the service rejects. None of them
/// has an effect on the answer, so they are dropped.
pub open spec fn dropped_fields() -> Seq<Seq<char>> {
    seq!["prompt_cache_key"@, "safety_identifier"@, "store"@, "metadata"@]
}

/// A body without these members.
pub open spec fn without_all(body: Json, names: Seq<Seq<char>>) -> Json {
    match body {
        Json::Object(m) => Json::Object(m.remove_keys(names.to_set())),
        _ => body,
    }
}

/// The body that is sent to the service: the model resolved, the members that
/// it rejects dropped, and the signatures of tool calls back in their places.
pub open spec fn outgoing_body(aliases: Map<Seq<char>, Seq<char>>, body: Json) -> Json {
    let named = body.with_field(
        "model"@,
        Json::Text(resolved(aliases, crate::forward::model_in(body))),
    );
    crate::thought::restored_request(without_all(named, dropped_fields()))
}

/// The request asks for more than one choice.
pub open spec fn asks_for_choices(body: Json) -> bool {
    match body.field("n"@) {
        Some(n) => n.count() matches Some(k) && k > 1,
        None => false,
    }
}

/// The request asks for a stream.
pub open spec fn asks_for_stream(body: Json) -> bool {
    match body.field("stream"@) {
        Some(flag) => flag == Json::Bool(true),
        None => false,
    }
}

/// What is said to a request for more than one choice.
pub open spec fn choices_message() -> Seq<char> {
    "n > 1 is not supported: tool call signatures are tracked for one choice only"@
}

/// A request as it goes to the service.
pub struct Outgoing {
    pub url: String,
    pub body: JsonValue,
    pub streaming: bool,
}

/// What is made of a request: one to the service, unless it asks for more than
/// one choice.
pub open spec fn answers(cfg: Settings, body: Json, r: Result<Outgoing, Reply>) -> bool {
    let out = outgoing_body(cfg.aliases, body);
    match r {
        Ok(o) => {
            &&& !asks_for_choices(out)
            &&& o.url@ == cfg.openai_base() + "/chat/completions"@
            &&& o.body@ == out
            &&& o.streaming == asks_for_stream(out)
        },
        Err(reply) => {
            &&& asks_for_choices(out)
            &&& reply.status == 502
            &&& reply.body@ == crate::reply::error_json(choices_message())
        },
    }
}

/// Drops the members that the service rejects.
fn drop_fields(body: &mut JsonValue)
    ensures
        final(body)@ == without_all(old(body)@, dropped_fields()),
{
    body.remove("prompt_cache_key");
    body.remove("safety_identifier");
    body.remove("store");
    body.remove("metadata");
    proof {
        let names = dropped_fields();
        if let Json::Object(m) = old(body)@ {
            assert forall|name: Seq<char>| names.to_set().contains(name) == (name
                == "prompt_cache_key"@ || name == "safety_identifier"@ || name == "store"@ || name
                == "metadata"@) by {
                assert(names[0] == "prompt_cache_key"@);
                assert(names[1] == "safety_identifier"@);
                assert(names[2] == "store"@);
                assert(names[3] == "metadata"@);
            }
            assert(body@->Object_0 =~= m.remove_keys(names.to_set()));
        }
    }
}

/// Makes the request to the service out of that of a client.
///
/// Only the model and the dropped members change, and the ids of tool calls
/// that carry signatures. Everything else goes out as the client wrote it.
///
/// More than one choice is refused: tool calls are tracked for the first only.
pub fn chat(cfg: &Config, body: JsonValue) -> (r: Result<Outgoing, Reply>)
    ensures
        answers(cfg@, body@, r),
{
    let mut body = body;
    let model = resolve_model(cfg.aliases(), model_of(&body));
    body.insert("model", JsonValue::Text(model));
    drop_fields(&mut body);
    restore_request(&mut body);
    let choices = match body.get("n") {
        Some(n) => n.as_u64(),
        None => None,
    };
    if let Some(n) = choices {
        if n > 1 {
            return Err(
                upstream_error(
                    "n > 1 is not supported: tool call signatures are tracked for one choice only".to_owned(),
                ),
            );
        }
    }
    let flag = match body.get("stream") {
        Some(flag) => flag.as_bool(),
        None => None,
    };
    let streaming = match flag {
        Some(b) => b,
        None => false,
    };
    let mut url = cfg.openai_base();
    url.append("/chat/completions");
    Ok(Outgoing { url, body, streaming })
}

/// Checks the key, then makes the request to the service.
pub fn chat_completions(cfg: &Config, authorization: Option<&str>, body: JsonValue) -> (r: Result<
    Outgoing,
    Reply,
>)
    ensures
        if crate::routes::authorized(cfg@.gateway_key, crate::text::text_of(authorization)) {
            answers(cfg@, body@, r)
        } else {
            r matches Err(reply) && reply.status == 401 && reply.body@ == crate::reply::error_json(
                "Invalid gateway API key"@,
            )
        },
{
    if !check_auth(cfg, authorization) {
        return Err(unauthorized());
    }
    chat(cfg, body)
}

/// The members that the service rejects never reach it.
pub proof fn law_rejected_members_are_dropped(
    aliases: Map<Seq<char>, Seq<char>>,
    body: Json,
    name: Seq<char>,
)
    requires
        dropped_fields().contains(name),
    ensures
        outgoing_body(aliases, body).field(name) is None,
{
    lemma_member_names();
    assert(dropped_fields().to_set().contains(name));
}

/// A request names the model that its name stands for.
pub proof fn law_model_is_resolved(aliases: Map<Seq<char>, Seq<char>>, body: Json)
    requires
        body is Object,
    ensures
        outgoing_body(aliases, body).field("model"@) == Some(
            Json::Text(resolved(aliases, crate::forward::model_in(body))),
        ),
{
    lemma_member_names();
}

/// Every other member goes out as the client wrote it.
pub proof fn law_everything_else_passes_through(
    aliases: Map<Seq<char>, Seq<char>>,
    body: Json,
    name: Seq<char>,
)
    requires
        !dropped_fields().contains(name),
        name != "model"@,
        name != "messages"@,
    ensures
        outgoing_body(aliases, body).field(name) == body.field(name),
{
}

/// What a client asks for with `n` and `stream` is what is looked at.
pub proof fn law_wishes_pass_through(aliases: Map<Seq<char>, Seq<char>>, body: Json)
    ensures
        asks_for_choices(outgoing_body(aliases, body)) == asks_for_choices(body),
        asks_for_stream(outgoing_body(aliases, body)) == asks_for_stream(body),
{
    lemma_member_names();
    law_everything_else_passes_through(aliases, body, "n"@);
    law_everything_else_passes_through(aliases, body, "stream"@);
}

/// Messages that have nothing to do with tool calls go out as they came.
pub proof fn law_plain_messages_pass_through(aliases: Map<Seq<char>, Seq<char>>, body: Json)
    requires
        body.field("messages"@) matches Some(Json::Array(messages)) ==> forall|i: int|
            0 <= i < messages.len() ==> crate::thought::is_plain_message(#[trigger] messages[i]),
    ensures
        outgoing_body(aliases, body).field("messages"@) == body.field("messages"@),
{
    lemma_member_names();
    let named = body.with_field(
        "model"@,
        Json::Text(resolved(aliases, crate::forward::model_in(body))),
    );
    let kept = without_all(named, dropped_fields());
    assert(kept.field("messages"@) == body.field("messages"@));
    crate::thought::law_plain_request_is_left_alone(kept);
}

/// A name that was resolved stands for itself, unless it is an alias again.
pub proof fn law_resolved_name_is_final(aliases: Map<Seq<char>, Seq<char>>, raw: Seq<char>)
    requires
        !aliases.contains_key(resolved(aliases, raw)),
    ensures
        resolved(aliases, resolved(aliases, raw)) == resolved(aliases, raw),
{
    reveal_strlit("google/");
    let name = if aliases.contains_key(raw) {
        aliases[raw]
    } else {
        raw
    };
    if !is_complete_name(name) {
        assert(("google/"@ + name)[6] == '/');
    }
}

/// The names of the members of a request differ.
proof fn lemma_member_names()
    ensures
        !dropped_fields().contains("model"@),
        !dropped_fields().contains("messages"@),
        !dropped_fields().contains("n"@),
        !dropped_fields().contains("stream"@),
        "model"@ != "messages"@,
        "n"@ != "model"@,
        "n"@ != "messages"@,
        "stream"@ != "model"@,
        "stream"@ != "messages"@,
{
    reveal_strlit("prompt_cache_key");
    reveal_strlit("safety_identifier");
    reveal_strlit("store");
    reveal_strlit("metadata");
    reveal_strlit("model");
    reveal_strlit("messages");
    reveal_strlit("n");
    reveal_strlit("stream");
    assert("prompt_cache_key"@.len() == 16 && "safety_identifier"@.len() == 17);
    assert("store"@.len() == 5 && "metadata"@.len() == 8);
    assert("model"@.len() == 5 && "messages"@.len() == 8);
    assert("n"@.len() == 1 && "stream"@.len() == 6);
    assert("store"@[0] != "model"@[0]);
    assert("metadata"@[2] != "messages"@[2]);
}

} // verus!
