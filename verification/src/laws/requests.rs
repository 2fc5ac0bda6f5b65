//! Laws of requests: models, keys, settings and token counts.

use crate::config::{Config, Settings};
use crate::json::Json;
use crate::protocols::openai::Outgoing;
use crate::reply::Reply;
use crate::table::Table;
use vstd::prelude::*;

verus! {

// ------------------------------------------------------------------- models

/// A name that is no alias and has no slash in it gets the publisher before it,
/// unless it is made of digits only. A name with a slash, and one of digits only,
/// is left alone. An alias is replaced first.
pub proof fn law_bare_names_get_the_publisher(
    aliases: Map<Seq<char>, Seq<char>>,
    raw: Seq<char>,
    name: Seq<char>,
)
    requires
        aliases.contains_key(raw) ==> name == aliases[raw],
        !aliases.contains_key(raw) ==> name == raw,
    ensures
        (forall|i: int| 0 <= i < name.len() ==> #[trigger] name[i] != '/') && (exists|i: int|
            0 <= i < name.len() && !('0' <= #[trigger] name[i] <= '9'))
            ==> crate::protocols::openai::resolved(aliases, raw) == "google/"@ + name,
        (exists|i: int| 0 <= i < name.len() && #[trigger] name[i] == '/')
            ==> crate::protocols::openai::resolved(aliases, raw) == name,
        (forall|i: int| 0 <= i < name.len() ==> '0' <= #[trigger] name[i] <= '9')
            ==> crate::protocols::openai::resolved(aliases, raw) == name,
{
    if name.contains('/') {
        let i = name.index_of('/');
        assert(name[i] == '/');
    }
    if exists|i: int| 0 <= i < name.len() && #[trigger] name[i] == '/' {
        let i = choose|i: int| 0 <= i < name.len() && #[trigger] name[i] == '/';
        assert(name.contains(name[i]));
    }
}

/// The model that a request names is the text in its member `model`, and the
/// empty text where that is none.
pub proof fn law_which_model_a_request_names(body: Json)
    ensures
        body.field("model"@) matches Some(Json::Text(name)) ==> crate::forward::model_in(body)
            == name,
        !(body.field("model"@) matches Some(Json::Text(_))) ==> crate::forward::model_in(body)
            == Seq::<char>::empty(),
{
}

// ----------------------------------------------------------------- requests

proof fn lemma_names()
    ensures
        "model"@ != "messages"@,
        "model"@ != "prompt_cache_key"@,
        "model"@ != "safety_identifier"@,
        "model"@ != "store"@,
        "model"@ != "metadata"@,
        "messages"@ != "prompt_cache_key"@,
        "messages"@ != "safety_identifier"@,
        "messages"@ != "store"@,
        "messages"@ != "metadata"@,
        "n"@.len() == 1,
        "stream"@.len() == 6,
        "model"@.len() == 5,
        "messages"@.len() == 8,
        "prompt_cache_key"@.len() == 16,
        "safety_identifier"@.len() == 17,
        "store"@.len() == 5,
        "metadata"@.len() == 8,
{
    reveal_strlit("prompt_cache_key");
    reveal_strlit("safety_identifier");
    reveal_strlit("store");
    reveal_strlit("metadata");
    reveal_strlit("model");
    reveal_strlit("messages");
    reveal_strlit("n");
    reveal_strlit("stream");
    assert("store"@[0] != "model"@[0]);
    assert("metadata"@[2] != "messages"@[2]);
}

proof fn lemma_dropped(name: Seq<char>)
    ensures
        crate::protocols::openai::dropped_fields().to_set().contains(name) <==> name
            == "prompt_cache_key"@ || name == "safety_identifier"@ || name == "store"@ || name
            == "metadata"@,
{
    let names = crate::protocols::openai::dropped_fields();
    assert(names[0] == "prompt_cache_key"@);
    assert(names[1] == "safety_identifier"@);
    assert(names[2] == "store"@);
    assert(names[3] == "metadata"@);
}

/// What goes to the service is what the client wrote, but for the model, which is
/// resolved, four members that the service rejects, which are gone, and the
/// messages, of which each is restored where it stands.
pub proof fn law_what_goes_to_the_service(
    aliases: Map<Seq<char>, Seq<char>>,
    body: Json,
    name: Seq<char>,
)
    ensures
        ({
            let out = crate::protocols::openai::outgoing_body(aliases, body);
            &&& !(body is Object) ==> out == body
            &&& body is Object ==> out is Object && out.field("model"@) == Some(
                Json::Text(
                    crate::protocols::openai::resolved(aliases, crate::forward::model_in(body)),
                ),
            )
            &&& out.field("prompt_cache_key"@) is None
            &&& out.field("safety_identifier"@) is None
            &&& out.field("store"@) is None
            &&& out.field("metadata"@) is None
            &&& name != "model"@ && name != "messages"@ && name != "prompt_cache_key"@ && name
                != "safety_identifier"@ && name != "store"@ && name != "metadata"@ ==> out.field(
                name,
            ) == body.field(name)
            &&& match body.field("messages"@) {
                Some(Json::Array(messages)) => out.field("messages"@) matches Some(
                    Json::Array(restored),
                ) && restored.len() == messages.len() && forall|i: int|
                    0 <= i < messages.len() ==> crate::laws::calls::message_restored(
                        messages[i],
                        #[trigger] restored[i],
                    ),
                other => out.field("messages"@) == other,
            }
        }),
{
    lemma_names();
    let named = body.with_field(
        "model"@,
        Json::Text(crate::protocols::openai::resolved(aliases, crate::forward::model_in(body))),
    );
    let kept = crate::protocols::openai::without_all(
        named,
        crate::protocols::openai::dropped_fields(),
    );
    lemma_dropped(name);
    lemma_dropped("model"@);
    lemma_dropped("messages"@);
    lemma_dropped("prompt_cache_key"@);
    lemma_dropped("safety_identifier"@);
    lemma_dropped("store"@);
    lemma_dropped("metadata"@);
    assert(kept.field("messages"@) == body.field("messages"@));
    crate::laws::calls::law_restoring_changes_ids_alone(kept);
}

/// A request is refused if and only if it asks with a count `n` for more than one
/// choice. Otherwise it goes to the chat completions of the configured base, as
/// a stream if and only if its `stream` is true.
pub proof fn law_what_is_made_of_a_request(
    cfg: Settings,
    body: Json,
    r: Result<Outgoing, Reply>,
)
    requires
        crate::protocols::openai::answers(cfg, body, r),
    ensures
        r is Err <==> (body.field("n"@) matches Some(Json::Num(x)) && (crate::json::count_of(
            x,
        ) matches Some(k) && k > 1)),
        r matches Err(reply) ==> reply.status == 502 && reply.body@ == crate::reply::error_json(
            "n > 1 is not supported: tool call signatures are tracked for one choice only"@,
        ),
        r matches Ok(o) ==> {
            &&& o.url@ == cfg.openai_base() + "/chat/completions"@
            &&& o.streaming <==> body.field("stream"@) == Some(Json::Bool(true))
            &&& o.body@ == crate::protocols::openai::outgoing_body(cfg.aliases, body)
        },
{
    lemma_names();
    law_what_goes_to_the_service(cfg.aliases, body, "n"@);
    law_what_goes_to_the_service(cfg.aliases, body, "stream"@);
}

// --------------------------------------------------------------------- keys

/// With an empty key everyone may go on. With another one those may whose header
/// is `Bearer`, one space and that key, to the letter, and nobody else.
pub proof fn law_who_may_go_on(key: Seq<char>, header: Seq<char>)
    ensures
        key.len() == 0 ==> crate::routes::authorized(key, None) && crate::routes::authorized(
            key,
            Some(header),
        ),
        key.len() > 0 ==> !crate::routes::authorized(key, None),
        key.len() > 0 ==> (crate::routes::authorized(key, Some(header)) <==> header == "Bearer "@
            + key),
{
}

proof fn lemma_endpoint_names()
    ensures
        "ok"@ != "project"@,
        "ok"@ != "location"@,
        "project"@ != "location"@,
        "object"@ != "data"@,
        "id"@ != "object"@,
        "id"@ != "created"@,
        "id"@ != "owned_by"@,
        "object"@ != "created"@,
        "object"@ != "owned_by"@,
        "created"@ != "owned_by"@,
{
    reveal_strlit("ok");
    reveal_strlit("project");
    reveal_strlit("location");
    reveal_strlit("object");
    reveal_strlit("data");
    reveal_strlit("id");
    reveal_strlit("created");
    reveal_strlit("owned_by");
    assert("ok"@.len() == 2 && "project"@.len() == 7 && "location"@.len() == 8);
    assert("object"@.len() == 6 && "data"@.len() == 4 && "id"@.len() == 2);
    assert("created"@.len() == 7 && "owned_by"@.len() == 8);
}

/// The gateway says of itself that it is well, and which project and location it
/// serves, and nothing else.
pub proof fn law_what_health_says(project: Seq<char>, location: Seq<char>, name: Seq<char>)
    ensures
        ({
            let v = crate::routes::health_json(project, location);
            &&& v.field("ok"@) == Some(Json::Bool(true))
            &&& v.field("project"@) == Some(Json::Text(project))
            &&& v.field("location"@) == Some(Json::Text(location))
            &&& name != "ok"@ && name != "project"@ && name != "location"@ ==> v.field(
                name,
            ) is None
        }),
{
    lemma_endpoint_names();
}

/// The list of models has an entry for each alias, in their order, with its name
/// as the id.
pub proof fn law_what_the_list_of_models_says(
    ids: Seq<Seq<char>>,
    aliases: Map<Seq<char>, Seq<char>>,
    name: Seq<char>,
)
    ensures
        ({
            let v = crate::routes::models_json(ids);
            &&& v.field("object"@) == Some(Json::Text("list"@))
            &&& name != "object"@ && name != "data"@ ==> v.field(name) is None
            &&& v.field("data"@) matches Some(Json::Array(data)) && data.len() == ids.len()
                && forall|i: int|
                0 <= i < ids.len() ==> {
                    &&& (#[trigger] data[i]).field("id"@) == Some(Json::Text(ids[i]))
                    &&& data[i].field("object"@) == Some(Json::Text("model"@))
                    &&& data[i].field("created"@) == Some(Json::Num(crate::json::number_of(0)))
                    &&& data[i].field("owned_by"@) == Some(Json::Text("google"@))
                    &&& name != "id"@ && name != "object"@ && name != "created"@ && name
                        != "owned_by"@ ==> data[i].field(name) is None
                }
        }),
        crate::routes::lists_aliases(ids, aliases) ==> {
            &&& forall|i: int, j: int| 0 <= i < j < ids.len() ==> ids[i] != ids[j]
            &&& forall|i: int| 0 <= i < ids.len() ==> aliases.contains_key(#[trigger] ids[i])
            &&& forall|id: Seq<char>| #[trigger] aliases.contains_key(id) ==> ids.contains(id)
        },
{
    lemma_endpoint_names();
    if crate::routes::lists_aliases(ids, aliases) {
        assert forall|i: int| 0 <= i < ids.len() implies aliases.contains_key(#[trigger] ids[i]) by {
            assert(ids.contains(ids[i]));
        }
        assert forall|id: Seq<char>| #[trigger] aliases.contains_key(id) implies ids.contains(
            id,
        ) by {
            assert(ids.contains(id) <==> aliases.contains_key(id));
        }
    }
    let data = crate::routes::models_json(ids).field("data"@)->0->Array_0;
    assert forall|i: int| 0 <= i < ids.len() implies #[trigger] data[i]
        == crate::routes::model_json(ids[i]) by {}
}

// ----------------------------------------------------------------- settings

/// Two aliases serve where none are configured.
pub proof fn law_the_default_aliases(name: Seq<char>)
    ensures
        crate::config::default_alias_map().contains_key(name) <==> name == "gemini-pro"@ || name
            == "gemini-flash"@,
        crate::config::default_alias_map()["gemini-pro"@] == "google/gemini-2.5-pro"@,
        crate::config::default_alias_map()["gemini-flash"@] == "google/gemini-2.5-flash"@,
{
    reveal_strlit("gemini-pro");
    reveal_strlit("gemini-flash");
    assert("gemini-pro"@.len() != "gemini-flash"@.len());
}

/// A project has the `global` location, no key, the default aliases and the host
/// of the service, where nothing else is said.
pub proof fn law_the_default_settings(project: Seq<char>)
    ensures
        Settings::defaults(project).project == project,
        Settings::defaults(project).location == "global"@,
        Settings::defaults(project).gateway_key.len() == 0,
        Settings::defaults(project).aliases == crate::config::default_alias_map(),
        Settings::defaults(project).base_url_override is None,
{
}

/// The host has the location before it, but for `global`; another base takes its
/// place. The path names the project and the location under any host.
pub proof fn law_where_requests_go(s: Settings)
    ensures
        s.base_url_override is None && s.location != "global"@ ==> s.host() == "https://"@
            + s.location + "-aiplatform.googleapis.com"@,
        s.base_url_override is None && s.location == "global"@ ==> s.host()
            == "https://aiplatform.googleapis.com"@,
        s.base_url_override matches Some(base) ==> s.host() == base,
        s.openai_base() == s.host() + "/v1/projects/"@ + s.project + "/locations/"@ + s.location
            + "/endpoints/openapi"@,
{
    assert(s.openai_base() =~= s.host() + "/v1/projects/"@ + s.project + "/locations/"@ + s.location
        + "/endpoints/openapi"@);
}

/// What `MODEL_ALIASES` says: nothing where it is unset or white space only, the
/// aliases where they can be read, and otherwise what is wrong with them.
pub proof fn law_what_aliases_are_configured(text: Seq<char>)
    ensures
        crate::config::aliases_said(None) matches Ok(said) && said is None,
        (forall|i: int|
            0 <= i < text.len() ==> crate::text::is_white_space(#[trigger] text[i])) ==> (
        crate::config::aliases_said(Some(text)) matches Ok(said) && said is None),
        (exists|i: int|
            0 <= i < text.len() && !crate::text::is_white_space(#[trigger] text[i])) ==> match crate::config::parsed_aliases(
            text,
        ) {
            Ok(aliases) => crate::config::aliases_said(Some(text)) matches Ok(said) && said == Some(
                aliases,
            ),
            Err(e) => crate::config::aliases_said(Some(text)) matches Err(message) && message
                == "MODEL_ALIASES is not valid JSON: "@ + e,
        },
{
}

/// What the environment says. A missing project is an error before anything
/// else, then aliases that cannot be read. Each value that is set is taken as it
/// is, and each that is not is the default.
pub proof fn law_what_is_configured(
    project: Option<Seq<char>>,
    location: Option<Seq<char>>,
    gateway_key: Option<Seq<char>>,
    aliases: Result<Option<Map<Seq<char>, Seq<char>>>, Seq<char>>,
)
    ensures
        ({
            let said = crate::config::settings_said(project, location, gateway_key, aliases);
            &&& project is None ==> (said matches Err(e) && e
                == "missing environment variable GCP_PROJECT_ID"@)
            &&& project is Some && aliases is Err ==> (said matches Err(e) && e == aliases->Err_0)
            &&& project is Some && aliases is Ok ==> (said matches Ok(s) && {
                &&& s.project == project->0
                &&& location matches Some(l) ==> s.location == l
                &&& location is None ==> s.location == "global"@
                &&& gateway_key matches Some(k) ==> s.gateway_key == k
                &&& gateway_key is None ==> s.gateway_key.len() == 0
                &&& aliases->Ok_0 matches Some(a) ==> s.aliases == a
                &&& aliases->Ok_0 is None ==> s.aliases == crate::config::default_alias_map()
                &&& s.base_url_override is None
            })
        }),
{
}

/// The outcome of reading aliases, or a configuration, says what was read or what
/// is wrong.
pub proof fn law_what_outcomes_say(t: Table<String>, cfg: Config, e: String)
    ensures
        crate::config::aliases_view(Ok(Some(t))) matches Ok(said) && said == Some(
            crate::config::alias_map(t),
        ),
        crate::config::aliases_view(Ok(None)) matches Ok(said) && said is None,
        crate::config::aliases_view(Err(e)) matches Err(message) && message == e@,
        crate::config::config_view(Ok(cfg)) matches Ok(said) && said == cfg@,
        crate::config::config_view(Err(e)) matches Err(message) && message == e@,
{
}

// ------------------------------------------------------------- token counts

/// A count that is there is read, and one that is missing or no count is zero.
/// Those of the reasoning stand in an object of their own.
pub proof fn law_which_tokens_are_counted(members: Map<Seq<char>, Json>, n: u64)
    ensures
        ({
            let v = Json::Object(members);
            let u = crate::observe::usage_in(members);
            let details = v.field("completion_tokens_details"@);
            &&& (v.field("prompt_tokens"@) matches Some(Json::Num(x)) && crate::json::count_of(x)
                == Some(n)) ==> u.prompt_tokens == n
            &&& !(v.field("prompt_tokens"@) matches Some(Json::Num(x)) && crate::json::count_of(
                x,
            ) is Some) ==> u.prompt_tokens == 0
            &&& (v.field("completion_tokens"@) matches Some(Json::Num(x)) && crate::json::count_of(
                x,
            ) == Some(n)) ==> u.completion_tokens == n
            &&& !(v.field("completion_tokens"@) matches Some(Json::Num(x))
                && crate::json::count_of(x) is Some) ==> u.completion_tokens == 0
            &&& (crate::json::field_of(details, "reasoning_tokens"@) matches Some(Json::Num(x))
                && crate::json::count_of(x) == Some(n)) ==> u.reasoning_tokens == n
            &&& !(crate::json::field_of(details, "reasoning_tokens"@) matches Some(Json::Num(x))
                && crate::json::count_of(x) is Some) ==> u.reasoning_tokens == 0
        }),
{
}

} // verus!
