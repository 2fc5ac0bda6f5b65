//! The check of the key, and the endpoints beside the protocols.

use gateway_for_vertex_ai::codec::to_document;
use gateway_for_vertex_ai::routes::{check_auth, health, list_models, unauthorized};
use gateway_for_vertex_ai::Config;

#[test]
fn empty_key_lets_everyone_in() {
    let cfg = Config::new("p");
    assert!(check_auth(&cfg, None));
    assert!(check_auth(&cfg, Some("Bearer anything")));
}

#[test]
fn key_has_to_be_presented_exactly() {
    let cfg = Config::new("p").with_gateway_key("secret");
    assert!(check_auth(&cfg, Some("Bearer secret")));
    assert!(!check_auth(&cfg, None));
    assert!(!check_auth(&cfg, Some("secret")));
    assert!(!check_auth(&cfg, Some("bearer secret")));
    assert!(!check_auth(&cfg, Some("Bearer secret ")));
    assert!(!check_auth(&cfg, Some("Bearer  secret")));
    assert!(!check_auth(&cfg, Some("Bearer ")));
}

#[test]
fn refusal_is_an_error_object() {
    let reply = unauthorized();
    assert_eq!(reply.status, 401);
    assert_eq!(
        to_document(&reply.body).to_string(),
        r#"{"error":{"message":"Invalid gateway API key"}}"#
    );
}

#[test]
fn health_names_project_and_location() {
    let reply = health(&Config::new("p").with_location("europe-west4"));
    assert_eq!(reply.status, 200);
    assert_eq!(
        to_document(&reply.body).to_string(),
        r#"{"location":"europe-west4","ok":true,"project":"p"}"#
    );
}

#[test]
fn models_are_the_aliases() {
    let reply = list_models(&Config::new("p"), None);
    assert_eq!(reply.status, 200);
    let body = to_document(&reply.body);
    assert_eq!(body["object"], "list");
    let data = body["data"].as_array().unwrap();
    let mut ids: Vec<&str> = data.iter().map(|m| m["id"].as_str().unwrap()).collect();
    ids.sort();
    assert_eq!(ids, vec!["gemini-flash", "gemini-pro"]);
    for model in data {
        assert_eq!(model["object"], "model");
        assert_eq!(model["created"], 0);
        assert_eq!(model["owned_by"], "google");
        assert_eq!(model.as_object().unwrap().len(), 4);
    }
}

#[test]
fn models_are_listed_for_those_with_the_key() {
    let cfg = Config::new("p").with_gateway_key("k");
    assert_eq!(list_models(&cfg, Some("Bearer nope")).status, 401);
    assert_eq!(list_models(&cfg, Some("Bearer k")).status, 200);
}
