//! Configuration: which project, which region, which model names.

use crate::table::Table;
use crate::text::{is_blank, same_text};
use vstd::prelude::*;

verus! {

/// The aliases that the text of `MODEL_ALIASES` holds as `serde_json` reads it,
/// an object whose members are strings, or what `serde_json` says is wrong.
pub uninterp spec fn parsed_aliases(text: Seq<char>) -> Result<
    Map<Seq<char>, Seq<char>>,
    Seq<char>,
>;

/// The names in a list of rows.
pub open spec fn alias_names(rows: Seq<(String, String)>) -> Seq<Seq<char>> {
    rows.map_values(|row: (String, String)| row.0@)
}

/// The models in a list of rows.
pub open spec fn alias_models(rows: Seq<(String, String)>) -> Seq<Seq<char>> {
    rows.map_values(|row: (String, String)| row.1@)
}

/// `serde_json::from_str` into a map from strings to strings. The rows are those
/// of the map, in no order that is stated, and no name stands twice.
#[verifier::external_body]
fn read_aliases(raw: &str) -> (r: Result<Vec<(String, String)>, String>)
    ensures
        match r {
            Ok(rows) => {
                &&& crate::table::distinct(alias_names(rows@))
                &&& parsed_aliases(raw@) == Ok::<Map<Seq<char>, Seq<char>>, Seq<char>>(
                    crate::table::as_map(alias_names(rows@), alias_models(rows@)),
                )
            },
            Err(message) => parsed_aliases(raw@) == Err::<Map<Seq<char>, Seq<char>>, Seq<char>>(
                message@,
            ),
        },
{
    match serde_json::from_str::<std::collections::HashMap<String, String>>(raw) {
        Ok(aliases) => Ok(aliases.into_iter().collect()),
        Err(e) => Err(e.to_string()),
    }
}

/// The models that names stand for.
pub open spec fn alias_map(t: Table<String>) -> Map<Seq<char>, Seq<char>> {
    t@.map_values(|s: String| s@)
}

/// Makes a table out of rows.
fn alias_table(rows: Vec<(String, String)>) -> (r: Table<String>)
    requires
        crate::table::distinct(alias_names(rows@)),
    ensures
        alias_map(r) == crate::table::as_map(alias_names(rows@), alias_models(rows@)),
{
    let ghost all = rows@;
    let ghost names = alias_names(all);
    let ghost models = alias_models(all);
    let mut t: Table<String> = Table::new();
    for row in it: rows
        invariant
            it.seq() == all,
            names == alias_names(all),
            models == alias_models(all),
            crate::table::distinct(names),
            t.names() == names.take(it.index() as int),
            t.items().len() == it.index(),
            forall|j: int| 0 <= j < it.index() ==> #[trigger] t.items()[j]@ == models[j],
    {
        proof {
            let i = it.index() as int;
            if t@.contains_key(names[i]) {
                let j = t.names().index_of(names[i]);
                assert(names[j] == names[i]);
            }
        }
        t.insert(row.0, row.1);
        assert(t.names() =~= names.take(it.index() as int + 1));
    }
    assert(t.names() =~= names);
    assert(alias_map(t) =~= crate::table::as_map(names, models));
    t
}

/// The aliases that serve where none are configured.
pub open spec fn default_alias_map() -> Map<Seq<char>, Seq<char>> {
    map![
        "gemini-pro"@ => "google/gemini-2.5-pro"@,
        "gemini-flash"@ => "google/gemini-2.5-flash"@,
    ]
}

/// The aliases that serve where none are configured. Those that are configured
/// take their place, and are not added to them.
pub fn default_aliases() -> (r: Table<String>)
    ensures
        alias_map(r) == default_alias_map(),
{
    let mut r: Table<String> = Table::new();
    r.insert("gemini-pro".to_owned(), "google/gemini-2.5-pro".to_owned());
    r.insert("gemini-flash".to_owned(), "google/gemini-2.5-flash".to_owned());
    assert(alias_map(r) =~= default_alias_map());
    r
}

/// Every character is white space.
pub open spec fn blank(text: Seq<char>) -> bool {
    forall|i: int| 0 <= i < text.len() ==> crate::text::is_white_space(#[trigger] text[i])
}

/// What the value of `MODEL_ALIASES` says: nothing where it is unset or blank,
/// an error where it is malformed, and otherwise the aliases.
pub open spec fn aliases_said(raw: Option<Seq<char>>) -> Result<
    Option<Map<Seq<char>, Seq<char>>>,
    Seq<char>,
> {
    match raw {
        None => Ok(None),
        Some(text) => if blank(text) {
            Ok(None)
        } else {
            match parsed_aliases(text) {
                Ok(aliases) => Ok(Some(aliases)),
                Err(e) => Err("MODEL_ALIASES is not valid JSON: "@ + e),
            }
        },
    }
}

/// What the outcome of reading the aliases says.
pub open spec fn aliases_view(r: Result<Option<Table<String>>, String>) -> Result<
    Option<Map<Seq<char>, Seq<char>>>,
    Seq<char>,
> {
    match r {
        Ok(Some(t)) => Ok(Some(alias_map(t))),
        Ok(None) => Ok(None),
        Err(e) => Err(e@),
    }
}

/// Reads the value of `MODEL_ALIASES`.
///
/// Unset, malformed and valid are told apart, so that a mistake is reported and
/// does not pass for the defaults.
pub fn parse_aliases(raw: Option<&str>) -> (r: Result<Option<Table<String>>, String>)
    ensures
        aliases_view(r) == aliases_said(crate::text::text_of(raw)),
{
    match raw {
        None => Ok(None),
        Some(text) => {
            if is_blank(text) {
                return Ok(None);
            }
            match read_aliases(text) {
                Ok(rows) => Ok(Some(alias_table(rows))),
                Err(e) => {
                    let mut message = "MODEL_ALIASES is not valid JSON: ".to_owned();
                    message.append(e.as_str());
                    Err(message)
                },
            }
        },
    }
}

/// All that is needed to address the models of a project.
#[derive(Debug)]
pub struct Config {
    project: String,
    location: String,
    gateway_key: String,
    aliases: Table<String>,
    base_url_override: Option<String>,
}

/// What a configuration says.
#[verifier::ext_equal]
pub struct Settings {
    pub project: Seq<char>,
    pub location: Seq<char>,
    pub gateway_key: Seq<char>,
    pub aliases: Map<Seq<char>, Seq<char>>,
    pub base_url_override: Option<Seq<char>>,
}

impl Settings {
    /// The settings for a project where nothing else is configured.
    pub open spec fn defaults(project: Seq<char>) -> Settings {
        Settings {
            project,
            location: "global"@,
            gateway_key: Seq::empty(),
            aliases: default_alias_map(),
            base_url_override: None,
        }
    }

    /// The scheme and host of the service. A region stands before the host
    /// name; `global` does not.
    pub open spec fn host(self) -> Seq<char> {
        match self.base_url_override {
            Some(base) => base,
            None => if self.location == "global"@ {
                "https://aiplatform.googleapis.com"@
            } else {
                "https://"@ + self.location + "-aiplatform.googleapis.com"@
            },
        }
    }

    /// The path below the host, in which the location stands again.
    pub open spec fn path(self) -> Seq<char> {
        "/v1/projects/"@ + self.project + "/locations/"@ + self.location + "/endpoints/openapi"@
    }

    /// The base URL of the chat protocol.
    pub open spec fn openai_base(self) -> Seq<char> {
        self.host() + self.path()
    }
}

impl View for Config {
    type V = Settings;

    closed spec fn view(&self) -> Settings {
        Settings {
            project: self.project@,
            location: self.location@,
            gateway_key: self.gateway_key@,
            aliases: alias_map(self.aliases),
            base_url_override: crate::text::string_of(self.base_url_override),
        }
    }
}

impl Clone for Config {
    fn clone(&self) -> (r: Self)
        ensures
            r@ == self@,
    {
        Config {
            project: self.project.clone(),
            location: self.location.clone(),
            gateway_key: self.gateway_key.clone(),
            aliases: self.aliases.clone(),
            base_url_override: match &self.base_url_override {
                Some(base) => Some(base.clone()),
                None => None,
            },
        }
    }
}

/// What the environment says, or what is wrong with it.
pub open spec fn settings_said(
    project: Option<Seq<char>>,
    location: Option<Seq<char>>,
    gateway_key: Option<Seq<char>>,
    aliases: Result<Option<Map<Seq<char>, Seq<char>>>, Seq<char>>,
) -> Result<Settings, Seq<char>> {
    match (project, aliases) {
        (None, _) => Err("missing environment variable GCP_PROJECT_ID"@),
        (_, Err(e)) => Err(e),
        (Some(project), Ok(aliases)) => {
            let defaults = Settings::defaults(project);
            Ok(
                Settings {
                    location: match location {
                        Some(l) => l,
                        None => defaults.location,
                    },
                    gateway_key: match gateway_key {
                        Some(k) => k,
                        None => defaults.gateway_key,
                    },
                    aliases: match aliases {
                        Some(a) => a,
                        None => defaults.aliases,
                    },
                    ..defaults
                },
            )
        },
    }
}

/// What the outcome of reading a configuration says.
pub open spec fn config_view(r: Result<Config, String>) -> Result<Settings, Seq<char>> {
    match r {
        Ok(cfg) => Ok(cfg@),
        Err(e) => Err(e@),
    }
}

impl Config {
    /// The `global` endpoint, no key to check, and the default aliases.
    pub fn new(project: &str) -> (r: Self)
        ensures
            r@ == Settings::defaults(project@),
    {
        let r = Config {
            project: project.to_owned(),
            location: "global".to_owned(),
            gateway_key: String::new(),
            aliases: default_aliases(),
            base_url_override: None,
        };
        assert(r.gateway_key@ =~= Seq::empty());
        r
    }

    /// The configuration that the values of `GCP_PROJECT_ID`, `GCP_LOCATION`,
    /// `GATEWAY_API_KEY` and `MODEL_ALIASES` say, where they are set.
    pub fn from_env(
        project: Option<String>,
        location: Option<String>,
        gateway_key: Option<String>,
        aliases: Option<String>,
    ) -> (r: Result<Self, String>)
        ensures
            config_view(r) == settings_said(
                crate::text::string_of(project),
                crate::text::string_of(location),
                crate::text::string_of(gateway_key),
                aliases_said(crate::text::string_of(aliases)),
            ),
    {
        let raw = match &aliases {
            Some(text) => Some(text.as_str()),
            None => None,
        };
        let aliases = parse_aliases(raw);
        Config::from_values(project, location, gateway_key, aliases)
    }

    /// The configuration that these values say, once the aliases are read.
    pub fn from_values(
        project: Option<String>,
        location: Option<String>,
        gateway_key: Option<String>,
        aliases: Result<Option<Table<String>>, String>,
    ) -> (r: Result<Self, String>)
        ensures
            config_view(r) == settings_said(
                crate::text::string_of(project),
                crate::text::string_of(location),
                crate::text::string_of(gateway_key),
                aliases_view(aliases),
            ),
    {
        let project = match project {
            Some(project) => project,
            None => {
                return Err("missing environment variable GCP_PROJECT_ID".to_owned());
            },
        };
        let aliases = match aliases {
            Ok(Some(aliases)) => aliases,
            Ok(None) => default_aliases(),
            Err(e) => {
                return Err(e);
            },
        };
        let location = match location {
            Some(location) => location,
            None => "global".to_owned(),
        };
        let gateway_key = match gateway_key {
            Some(key) => key,
            None => String::new(),
        };
        Ok(Config { project, location, gateway_key, aliases, base_url_override: None })
    }

    /// The region, or `global`.
    pub fn with_location(self, location: &str) -> (r: Self)
        ensures
            r@ == (Settings { location: location@, ..self@ }),
    {
        let mut r = self;
        r.location = location.to_owned();
        r
    }

    /// The secret that clients present as a bearer token. An empty one switches
    /// the check off.
    pub fn with_gateway_key(self, key: &str) -> (r: Self)
        ensures
            r@ == (Settings { gateway_key: key@, ..self@ }),
    {
        let mut r = self;
        r.gateway_key = key.to_owned();
        r
    }

    /// Other aliases in place of all there are.
    pub fn with_aliases(self, aliases: Table<String>) -> (r: Self)
        ensures
            r@ == (Settings { aliases: alias_map(aliases), ..self@ }),
    {
        let mut r = self;
        r.aliases = aliases;
        r
    }

    /// Another scheme and host, as for tests and proxies. The path stays.
    pub fn with_base_url_override(self, base: &str) -> (r: Self)
        ensures
            r@ == (Settings { base_url_override: Some(base@), ..self@ }),
    {
        let mut r = self;
        r.base_url_override = Some(base.to_owned());
        r
    }

    pub fn project(&self) -> (r: &str)
        ensures
            r@ == self@.project,
    {
        self.project.as_str()
    }

    pub fn location(&self) -> (r: &str)
        ensures
            r@ == self@.location,
    {
        self.location.as_str()
    }

    pub fn gateway_key(&self) -> (r: &str)
        ensures
            r@ == self@.gateway_key,
    {
        self.gateway_key.as_str()
    }

    pub fn aliases(&self) -> (r: &Table<String>)
        ensures
            alias_map(*r) == self@.aliases,
    {
        &self.aliases
    }

    /// The scheme and host of the service.
    ///
    /// A region gives `https://asia-southeast1-aiplatform.googleapis.com`, and
    /// `global` gives `https://aiplatform.googleapis.com`, without a prefix.
    pub fn host(&self) -> (r: String)
        ensures
            r@ == self@.host(),
    {
        if let Some(base) = &self.base_url_override {
            return base.clone();
        }
        if same_text(self.location.as_str(), "global") {
            "https://aiplatform.googleapis.com".to_owned()
        } else {
            let mut out = "https://".to_owned();
            out.append(self.location.as_str());
            out.append("-aiplatform.googleapis.com");
            out
        }
    }

    /// The base URL of the chat protocol. The location stands in it twice, in
    /// the host name and in the path.
    pub fn openai_base(&self) -> (r: String)
        ensures
            r@ == self@.openai_base(),
    {
        let mut out = self.host();
        out.append("/v1/projects/");
        out.append(self.project.as_str());
        out.append("/locations/");
        out.append(self.location.as_str());
        out.append("/endpoints/openapi");
        assert(out@ =~= self@.openai_base());
        out
    }
}

/// Outside `global`, the location stands in the host name and again in the path.
pub proof fn law_location_stands_twice(s: Settings)
    requires
        s.base_url_override is None,
        s.location != "global"@,
    ensures
        s.openai_base() == "https://"@ + s.location + "-aiplatform.googleapis.com/v1/projects/"@
            + s.project + "/locations/"@ + s.location + "/endpoints/openapi"@,
{
    reveal_strlit("-aiplatform.googleapis.com");
    reveal_strlit("/v1/projects/");
    reveal_strlit("-aiplatform.googleapis.com/v1/projects/");
    let a = "-aiplatform.googleapis.com"@;
    let b = "/v1/projects/"@;
    let ab = "-aiplatform.googleapis.com/v1/projects/"@;
    assert(ab =~= a + b);
    assert(s.openai_base() =~= "https://"@ + s.location + (a + b) + s.project + "/locations/"@
        + s.location + "/endpoints/openapi"@);
}

/// Another base replaces the scheme and the host, and nothing else.
pub proof fn law_override_keeps_the_path(s: Settings, base: Seq<char>)
    ensures
        (Settings { base_url_override: Some(base), ..s }).openai_base() == base + s.path(),
{
}

} // verus!
