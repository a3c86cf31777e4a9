use omc_registry::error::OmcRegistryError;
use omc_registry::json::JsonValue;
use omc_registry::npm_tokens::{
    npm_token_create_source, npm_token_list_objects, npm_token_list_result, NpmAccessToken,
};

fn text(s: &str) -> JsonValue {
    JsonValue::Text(s.to_string())
}

fn obj(members: Vec<(&str, JsonValue)>) -> JsonValue {
    JsonValue::Object(members.into_iter().map(|(k, v)| (k.to_string(), v)).collect())
}

fn shown(v: &JsonValue) -> String {
    format!("{:?}", v)
}

fn token_named(name: &str) -> NpmAccessToken {
    NpmAccessToken {
        key: Some("k1".to_string()),
        id: None,
        name: Some(name.to_string()),
        description: None,
        token: Some("npm_abc".to_string()),
        readonly: Some(true),
        cidr: vec!["10.0.0.0/8".to_string()],
        created: None,
        updated: None,
        accessed: None,
        expiry: None,
        bypass_2fa: None,
    }
}

#[test]
fn token_list_entries_are_the_objects_array() {
    let answer = obj(vec![
        ("objects", JsonValue::Array(vec![obj(vec![("key", text("k1"))]), obj(vec![])])),
        ("total", JsonValue::Unsigned(2)),
    ]);
    let entries = npm_token_list_objects(&answer).unwrap();
    assert_eq!(entries.len(), 2);
    assert_eq!(shown(&entries[0]), shown(&obj(vec![("key", text("k1"))])));
}

#[test]
fn token_list_without_objects_is_refused() {
    let refusal = OmcRegistryError::UnsupportedSpec(
        "npm token list response did not include objects".to_string(),
    );
    assert_eq!(npm_token_list_objects(&obj(vec![])).unwrap_err(), refusal);
    let not_array = obj(vec![("objects", obj(vec![]))]);
    assert_eq!(npm_token_list_objects(&not_array).unwrap_err(), refusal);
    assert_eq!(npm_token_list_objects(&JsonValue::Null).unwrap_err(), refusal);
}

#[test]
fn token_list_result_keeps_tokens_total_and_text_urls() {
    let answer = obj(vec![
        ("objects", JsonValue::Array(vec![])),
        ("total", JsonValue::Unsigned(7)),
        ("urls", obj(vec![("next", text("https://r/next")), ("prev", JsonValue::Null)])),
    ]);
    let result = npm_token_list_result(
        "https://registry.npmjs.org",
        vec![token_named("ci"), token_named("deploy")],
        answer,
    );
    assert_eq!(result.registry, "https://registry.npmjs.org/");
    assert_eq!(result.tokens.len(), 2);
    assert_eq!(result.tokens[0].name.as_deref(), Some("ci"));
    assert_eq!(result.tokens[1].name.as_deref(), Some("deploy"));
    assert_eq!(result.total, Some(7));
    assert_eq!(
        result.urls.entries,
        vec![("next".to_string(), "https://r/next".to_string())]
    );
}

#[test]
fn token_list_total_must_be_a_count() {
    let negative = obj(vec![("total", JsonValue::Negative(-1))]);
    let result = npm_token_list_result("https://r/", Vec::new(), negative);
    assert_eq!(result.registry, "https://r/");
    assert_eq!(result.total, None);
    assert!(result.urls.entries.is_empty());
    let textual = obj(vec![("total", text("3")), ("urls", text("x"))]);
    let result = npm_token_list_result("https://r/", Vec::new(), textual);
    assert_eq!(result.total, None);
    assert!(result.urls.entries.is_empty());
}

#[test]
fn created_token_is_read_from_token_object_or_whole_answer() {
    let inner = obj(vec![("key", text("k2")), ("token", text("npm_xyz"))]);
    let nested = obj(vec![("token", inner), ("status", text("ok"))]);
    assert_eq!(
        shown(&npm_token_create_source(&nested)),
        shown(&obj(vec![("key", text("k2")), ("token", text("npm_xyz"))]))
    );
    let flat = obj(vec![("token", text("npm_xyz")), ("key", text("k3"))]);
    assert_eq!(shown(&npm_token_create_source(&flat)), shown(&flat));
}
