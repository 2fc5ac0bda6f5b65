//! Configuration.

use gateway_for_vertex_ai::config::parse_aliases;
use gateway_for_vertex_ai::table::Table;
use gateway_for_vertex_ai::{default_aliases, Config};

fn some(s: &str) -> Option<String> {
    Some(s.to_string())
}

#[test]
fn global_location_has_no_region_prefix() {
    let cfg = Config::new("p");
    assert_eq!(cfg.host(), "https://aiplatform.googleapis.com");
    assert!(cfg.openai_base().contains("/locations/global/"));
}

#[test]
fn regional_location_has_a_prefix() {
    let cfg = Config::new("p").with_location("asia-southeast1");
    assert_eq!(
        cfg.host(),
        "https://asia-southeast1-aiplatform.googleapis.com"
    );
}

#[test]
fn base_url_override_wins() {
    let cfg = Config::new("p").with_base_url_override("http://127.0.0.1:9911");
    assert!(cfg.openai_base().starts_with("http://127.0.0.1:9911/v1/"));
}

#[test]
fn config_is_buildable_without_environment_variables() {
    let cfg = Config::new("my-project")
        .with_location("asia-southeast1")
        .with_gateway_key("secret");

    assert_eq!(cfg.project(), "my-project");
    assert_eq!(
        cfg.host(),
        "https://asia-southeast1-aiplatform.googleapis.com"
    );
    assert!(cfg.openai_base().ends_with("/endpoints/openapi"));
}

#[test]
fn location_stands_in_the_base_twice() {
    let cfg = Config::new("my-project").with_location("europe-west4");
    assert_eq!(
        cfg.openai_base(),
        "https://europe-west4-aiplatform.googleapis.com/v1/projects/my-project/locations/europe-west4/endpoints/openapi"
    );
    assert_eq!(
        Config::new("p").openai_base(),
        "https://aiplatform.googleapis.com/v1/projects/p/locations/global/endpoints/openapi"
    );
}

#[test]
fn override_keeps_the_path() {
    let cfg = Config::new("p")
        .with_location("europe-west4")
        .with_base_url_override("http://proxy");
    assert_eq!(cfg.host(), "http://proxy");
    assert_eq!(
        cfg.openai_base(),
        "http://proxy/v1/projects/p/locations/europe-west4/endpoints/openapi"
    );
}

#[test]
fn defaults_are_global_without_a_key() {
    let cfg = Config::new("p");
    assert_eq!(cfg.location(), "global");
    assert_eq!(cfg.gateway_key(), "");
    assert_eq!(cfg.aliases().len(), 2);
    assert_eq!(
        cfg.aliases().get("gemini-flash").unwrap(),
        "google/gemini-2.5-flash"
    );
}

#[test]
fn default_aliases_name_two_models() {
    let aliases = default_aliases();
    assert_eq!(aliases.get("gemini-pro").unwrap(), "google/gemini-2.5-pro");
    assert_eq!(
        aliases.get("gemini-flash").unwrap(),
        "google/gemini-2.5-flash"
    );
    assert_eq!(aliases.len(), 2);
}

#[test]
fn aliases_are_replaced_and_not_merged() {
    let mut aliases: Table<String> = Table::new();
    aliases.insert("fast".to_string(), "meta/llama".to_string());
    let cfg = Config::new("p").with_aliases(aliases);
    assert_eq!(cfg.aliases().len(), 1);
    assert!(cfg.aliases().get("gemini-pro").is_none());
    assert_eq!(cfg.aliases().get("fast").unwrap(), "meta/llama");
}

#[test]
fn unset_and_blank_aliases_mean_the_defaults() {
    assert!(parse_aliases(None).unwrap().is_none());
    assert!(parse_aliases(Some("")).unwrap().is_none());
    assert!(parse_aliases(Some(" \t\n\u{3000}")).unwrap().is_none());
}

#[test]
fn valid_aliases_are_read() {
    let t = parse_aliases(Some(r#"{"a":"google/x","b":"meta/y","a":"z"}"#))
        .unwrap()
        .unwrap();
    assert_eq!(t.len(), 2);
    assert_eq!(t.get("a").unwrap(), "z");
    assert_eq!(t.get("b").unwrap(), "meta/y");
    assert!(parse_aliases(Some("{}")).unwrap().unwrap().is_empty());
}

#[test]
fn malformed_aliases_are_an_error() {
    let e = parse_aliases(Some("{")).unwrap_err();
    assert_eq!(
        e,
        "MODEL_ALIASES is not valid JSON: EOF while parsing an object at line 1 column 1"
    );
    assert!(parse_aliases(Some(r#"{"a":1}"#))
        .unwrap_err()
        .starts_with("MODEL_ALIASES is not valid JSON: invalid type: integer `1`"));
    assert!(parse_aliases(Some("[]")).is_err());
}

#[test]
fn environment_without_a_project_is_an_error() {
    let e = Config::from_env(None, some("x"), None, some("{")).unwrap_err();
    assert_eq!(e, "missing environment variable GCP_PROJECT_ID");
}

#[test]
fn environment_with_malformed_aliases_is_an_error() {
    let e = Config::from_env(some("p"), None, None, some("nope")).unwrap_err();
    assert!(e.starts_with("MODEL_ALIASES is not valid JSON: "), "{e}");
}

#[test]
fn environment_fills_in_defaults() {
    let cfg = Config::from_env(some("p"), None, None, None).unwrap();
    assert_eq!(cfg.project(), "p");
    assert_eq!(cfg.location(), "global");
    assert_eq!(cfg.gateway_key(), "");
    assert_eq!(cfg.aliases().len(), 2);
}

#[test]
fn environment_is_read() {
    let cfg = Config::from_env(
        some("p"),
        some("us-central1"),
        some("key"),
        some(r#"{"m":"google/m"}"#),
    )
    .unwrap();
    assert_eq!(cfg.location(), "us-central1");
    assert_eq!(cfg.gateway_key(), "key");
    assert_eq!(cfg.aliases().len(), 1);
    assert_eq!(cfg.host(), "https://us-central1-aiplatform.googleapis.com");
}

#[test]
fn clone_says_the_same() {
    let cfg = Config::new("p")
        .with_location("l")
        .with_gateway_key("k")
        .with_base_url_override("http://b");
    let copy = cfg.clone();
    assert_eq!(copy.openai_base(), cfg.openai_base());
    assert_eq!(copy.gateway_key(), "k");
    assert_eq!(copy.aliases().len(), 2);
}
