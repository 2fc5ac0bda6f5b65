//! The endpoints that no protocol has to itself, and the check of the key.

use crate::config::Config;
use crate::json::{Json, JsonValue};
use crate::reply::{error_body, Reply, OK, UNAUTHORIZED};
use crate::text::{same_text, strip_prefix};
use vstd::prelude::*;

verus! {

/// The caller may go on: there is no key to present, or the `authorization`
/// header presents it as a bearer token.
pub open spec fn authorized(key: Seq<char>, authorization: Option<Seq<char>>) -> bool {
    key.len() == 0 || authorization == Some("Bearer "@ + key)
}

/// Checks the bearer token of a caller against the configured key.
///
/// An empty key means that nothing is checked, which is safe only where nobody
/// else can reach the gateway.
pub fn check_auth(cfg: &Config, authorization: Option<&str>) -> (r: bool)
    ensures
        r == authorized(cfg@.gateway_key, crate::text::text_of(authorization)),
{
    let expected = cfg.gateway_key();
    if expected.is_empty() {
        return true;
    }
    match authorization {
        Some(header) => match strip_prefix(header, "Bearer ") {
            Some(key) => {
                proof {
                    if header@ == "Bearer "@ + expected@ {
                        assert(key@ =~= header@.skip("Bearer "@.len() as int));
                        assert(expected@ =~= header@.skip("Bearer "@.len() as int));
                    }
                }
                same_text(key, expected)
            },
            None => {
                proof {
                    if header@ == "Bearer "@ + expected@ {
                        assert("Bearer "@ =~= header@.subrange(0, "Bearer "@.len() as int));
                    }
                }
                false
            },
        },
        None => false,
    }
}

/// The answer to a caller without the key.
pub fn unauthorized() -> (r: Reply)
    ensures
        r.status == 401,
        r.body@ == crate::reply::error_json("Invalid gateway API key"@),
{
    Reply { status: UNAUTHORIZED, body: error_body("Invalid gateway API key") }
}

/// What the gateway says of itself.
pub open spec fn health_json(project: Seq<char>, location: Seq<char>) -> Json {
    Json::Object(
        map![
            "ok"@ => Json::Bool(true),
            "project"@ => Json::Text(project),
            "location"@ => Json::Text(location),
        ],
    )
}

/// The answer to `GET /health`.
pub fn health(cfg: &Config) -> (r: Reply)
    ensures
        r.status == 200,
        r.body@ == health_json(cfg@.project, cfg@.location),
{
    let body = JsonValue::object().with("ok", JsonValue::Bool(true)).with(
        "project",
        JsonValue::text(cfg.project()),
    ).with("location", JsonValue::text(cfg.location()));
    Reply { status: OK, body }
}

/// How an alias is listed.
pub open spec fn model_json(id: Seq<char>) -> Json {
    Json::Object(
        map![
            "id"@ => Json::Text(id),
            "object"@ => Json::Text("model"@),
            "created"@ => Json::Num(crate::json::number_of(0)),
            "owned_by"@ => Json::Text("google"@),
        ],
    )
}

/// The list of these aliases.
pub open spec fn models_json(ids: Seq<Seq<char>>) -> Json {
    Json::Object(
        map![
            "object"@ => Json::Text("list"@),
            "data"@ => Json::Array(ids.map_values(|id: Seq<char>| model_json(id))),
        ],
    )
}

/// These are the names of the aliases, each once.
pub open spec fn lists_aliases(
    ids: Seq<Seq<char>>,
    aliases: Map<Seq<char>, Seq<char>>,
) -> bool {
    &&& crate::table::distinct(ids)
    &&& forall|id: Seq<char>| #[trigger] ids.contains(id) <==> aliases.contains_key(id)
}

/// The answer to `GET /v1/models`: the configured aliases, in no order that is
/// stated, for a caller with the key.
pub fn list_models(cfg: &Config, authorization: Option<&str>) -> (r: Reply)
    ensures
        authorized(cfg@.gateway_key, crate::text::text_of(authorization)) ==> {
            &&& r.status == 200
            &&& exists|ids: Seq<Seq<char>>| #[trigger]
                lists_aliases(ids, cfg@.aliases) && r.body@ == models_json(ids)
        },
        !authorized(cfg@.gateway_key, crate::text::text_of(authorization)) ==> {
            &&& r.status == 401
            &&& r.body@ == crate::reply::error_json("Invalid gateway API key"@)
        },
{
    if !check_auth(cfg, authorization) {
        return unauthorized();
    }
    let aliases = cfg.aliases();
    let n = aliases.len();
    let mut data: Vec<JsonValue> = Vec::new();
    let mut i: usize = 0;
    while i < n
        invariant
            i <= n,
            n == aliases.names().len(),
            data@.len() == i,
            forall|j: int| 0 <= j < i ==> #[trigger] data@[j]@ == model_json(aliases.names()[j]),
        decreases n - i,
    {
        let id = aliases.name_at(i);
        let model = JsonValue::object().with("id", JsonValue::text(id.as_str())).with(
            "object",
            JsonValue::text("model"),
        ).with("created", JsonValue::count(0)).with("owned_by", JsonValue::text("google"));
        data.push(model);
        i += 1;
    }
    proof {
        let ids = aliases.names();
        crate::json::lemma_all_json(data@);
        assert(crate::json::all_json(data@) =~= ids.map_values(|id: Seq<char>| model_json(id)));
        assert(lists_aliases(ids, cfg@.aliases));
    }
    let body = JsonValue::object().with("object", JsonValue::text("list")).with(
        "data",
        JsonValue::array(data),
    );
    Reply { status: OK, body }
}

/// Without a configured key every caller may go on; with one, those and only
/// those who present it.
pub proof fn law_only_the_key_opens(key: Seq<char>, presented: Seq<char>)
    ensures
        authorized(Seq::empty(), None),
        key.len() > 0 ==> !authorized(key, None),
        key.len() > 0 ==> (authorized(key, Some("Bearer "@ + presented)) <==> presented == key),
{
    if "Bearer "@ + presented == "Bearer "@ + key {
        let n = "Bearer "@.len() as int;
        assert(presented =~= ("Bearer "@ + presented).skip(n));
        assert(key =~= ("Bearer "@ + key).skip(n));
    }
}

} // verus!
