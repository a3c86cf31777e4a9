use omc_registry::error::OmcRegistryError;
use omc_registry::npm_config::{
    ensure_trailing_slash, expand_npmrc_value, normalize_npm_registry, parse_npmrc_content,
    read_npm_config, read_npm_config_snapshot, read_npm_config_snapshot_with_globalconfig,
    strip_npmrc_comment, NpmConfig, NpmConfigSources,
};

fn chars(s: &str) -> Vec<char> {
    s.chars().collect()
}

fn text(v: &[char]) -> String {
    v.iter().collect()
}

fn vars(pairs: &[(&str, &str)]) -> Vec<(String, String)> {
    pairs
        .iter()
        .map(|(k, v)| (k.to_string(), v.to_string()))
        .collect()
}

fn scoped(config: &NpmConfig, scope: &str) -> Option<String> {
    config
        .scoped_registries
        .get(&chars(scope))
        .map(|v| text(&v))
}

#[test]
fn new_config_uses_the_public_registry() {
    let config = NpmConfig::new();
    assert_eq!(config.registry, "https://registry.npmjs.org/");
    assert!(config.auth_tokens.is_empty());
    assert!(config.scoped_registries.entries.is_empty());
}

#[test]
fn registries_get_a_trailing_slash() {
    assert_eq!(text(&ensure_trailing_slash(&chars("https://a"))), "https://a/");
    assert_eq!(text(&ensure_trailing_slash(&chars("https://a/"))), "https://a/");
    assert_eq!(
        normalize_npm_registry(&chars("  https://a  ")).map(|v| text(&v)),
        Some("https://a/".to_string())
    );
    assert_eq!(normalize_npm_registry(&chars("   ")), None);
}

#[test]
fn npmrc_comments_are_stripped() {
    assert_eq!(text(&strip_npmrc_comment(&chars("  # all comment"))), "");
    assert_eq!(text(&strip_npmrc_comment(&chars("; all comment"))), "");
    assert_eq!(
        text(&strip_npmrc_comment(&chars("registry=https://a # note"))),
        "registry=https://a "
    );
    assert_eq!(
        text(&strip_npmrc_comment(&chars("registry=https://a#b"))),
        "registry=https://a#b"
    );
    assert_eq!(text(&strip_npmrc_comment(&chars("x=1\t;y"))), "x=1\t");
}

#[test]
fn npmrc_values_expand_variables() {
    let env = vars(&[("TOKEN", "abc"), ("EMPTY", "")]);
    assert_eq!(
        expand_npmrc_value(&chars("\"pre-${TOKEN}-post\""), &env).map(|v| text(&v)),
        Some("pre-abc-post".to_string())
    );
    assert_eq!(
        expand_npmrc_value(&chars("${EMPTY}x"), &env).map(|v| text(&v)),
        Some("x".to_string())
    );
    assert_eq!(expand_npmrc_value(&chars("${MISSING}"), &env), None);
    assert_eq!(expand_npmrc_value(&chars("${TOKEN"), &env), None);
}

#[test]
fn npmrc_content_sets_registries_and_tokens() {
    let content = "registry=https://r.example.com\n\
                   @scope:registry = https://s.example.com/ \n\
                   //r.example.com/:_authToken=${TOKEN}\n\
                   //other.example.com/:_authToken=${MISSING}\n\
                   # comment\n\
                   ; comment\n\
                   no equals sign\n";
    let mut config = NpmConfig::new();
    parse_npmrc_content(content, &mut config, &vars(&[("TOKEN", "abc")]));
    assert_eq!(config.registry, "https://r.example.com/");
    assert_eq!(scoped(&config, "@scope"), Some("https://s.example.com/".to_string()));
    assert_eq!(config.auth_tokens.len(), 1);
    assert_eq!(config.auth_tokens[0].scope, "r.example.com/");
    assert_eq!(config.auth_tokens[0].token, "abc");
}

#[test]
fn later_registry_lines_win() {
    let mut config = NpmConfig::new();
    parse_npmrc_content(
        "registry=https://first\nregistry=https://second\nregistry=   \n",
        &mut config,
        &Vec::new(),
    );
    assert_eq!(config.registry, "https://second/");
}

#[test]
fn registry_for_uses_the_scope_registry() {
    let mut config = NpmConfig::new();
    parse_npmrc_content("@acme:registry=https://acme.example/npm", &mut config, &Vec::new());
    assert_eq!(config.registry_for("@acme/tool"), "https://acme.example/npm/");
    assert_eq!(config.registry_for("@other/tool"), "https://registry.npmjs.org/");
    assert_eq!(config.registry_for("left-pad"), "https://registry.npmjs.org/");
}

#[test]
fn auth_tokens_match_the_longest_scope() {
    let mut config = NpmConfig::new();
    parse_npmrc_content(
        "//r.example.com/:_authToken=short\n//r.example.com/deep/:_authToken=long\n",
        &mut config,
        &Vec::new(),
    );
    assert_eq!(
        config.auth_token_for_url("https://r.example.com/deep/pkg"),
        Some("long".to_string())
    );
    assert_eq!(
        config.auth_token_for_url("https://r.example.com/pkg"),
        Some("short".to_string())
    );
    assert_eq!(config.auth_token_for_url("https://elsewhere.example/pkg"), None);
    assert_eq!(config.auth_token_for_url("https://r.example.com:8443/pkg"), None);
    assert_eq!(config.auth_token_for_url("not a url"), None);
}

#[test]
fn auth_tokens_with_ports_match_host_and_port() {
    let mut config = NpmConfig::new();
    parse_npmrc_content("//r.example.com:8443/:_authToken=t", &mut config, &Vec::new());
    assert_eq!(
        config.auth_token_for_url("https://r.example.com:8443/pkg"),
        Some("t".to_string())
    );
}

fn sources(global: Option<&str>, user: Option<&str>, project: Option<&str>) -> NpmConfigSources {
    NpmConfigSources {
        global: global.map(str::to_string),
        user: user.map(str::to_string),
        project: project.map(str::to_string),
    }
}

#[test]
fn config_files_apply_in_order_then_environment() {
    let src = sources(
        Some("registry=https://global\n@s:registry=https://global-scope"),
        Some("registry=https://user"),
        Some("@s:registry=https://project-scope"),
    );
    let config = read_npm_config(&src, &Vec::new(), None).unwrap();
    assert_eq!(config.registry, "https://user/");
    assert_eq!(scoped(&config, "@s"), Some("https://project-scope/".to_string()));

    let env = vars(&[("npm_config_registry", "https://env"), ("NPM_CONFIG_REGISTRY", "https://upper")]);
    let config = read_npm_config(&src, &env, None).unwrap();
    assert_eq!(config.registry, "https://env/");

    let env = vars(&[("NPM_CONFIG_REGISTRY", "https://upper")]);
    let config = read_npm_config(&src, &env, None).unwrap();
    assert_eq!(config.registry, "https://upper/");
}

#[test]
fn registry_override_wins_and_must_not_be_blank() {
    let src = sources(None, Some("registry=https://user"), None);
    let snapshot = read_npm_config_snapshot(&src, &Vec::new(), Some("https://override")).unwrap();
    assert_eq!(snapshot.registry, "https://override/");

    let refused = read_npm_config_snapshot_with_globalconfig(&src, &Vec::new(), Some("  "));
    assert!(matches!(
        refused,
        Err(OmcRegistryError::UnsupportedSpec(ref m)) if m == "invalid npm registry `  `"
    ));
}

#[test]
fn snapshot_keeps_the_scope_registries() {
    let src = sources(Some("@a:registry=https://a"), None, Some("@b:registry=https://b/"));
    let snapshot = read_npm_config_snapshot_with_globalconfig(&src, &Vec::new(), None).unwrap();
    assert_eq!(snapshot.registry, "https://registry.npmjs.org/");
    assert_eq!(
        snapshot.scoped_registries.get(&chars("@a")).map(|v| text(&v)),
        Some("https://a/".to_string())
    );
    assert_eq!(
        snapshot.scoped_registries.get(&chars("@b")).map(|v| text(&v)),
        Some("https://b/".to_string())
    );
}
