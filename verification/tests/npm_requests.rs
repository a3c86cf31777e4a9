use omc_registry::error::OmcRegistryError;
use omc_registry::json::{json_get, json_text_field, JsonValue};
use omc_registry::npm_owners::NpmSearchUser;
use omc_registry::npm_publish::{
    npm_publish_check, npm_publish_document, npm_publish_integrity, npm_publish_tarball_url,
    npm_token_create_password, npm_token_create_payload, npm_token_revoke_target,
    NpmProvenanceBundle, NpmPublishPackage, NpmTokenCreateOptions,
};
use omc_registry::npm_requests::{
    npm_access_package_url, npm_deprecate_requirement, npm_dist_tag_add_args, npm_dist_tag_rm_args,
    npm_dist_tag_url, npm_dist_tags, npm_manifest_tarball_url, npm_owner_document,
    npm_owner_request_user, npm_packument_identity, npm_profile_body, npm_profile_property,
    npm_profile_result_value, npm_search_url, npm_star_document, npm_starred_packages,
    npm_stars_url, npm_team_request_url, npm_trust_configs, npm_trust_revoke_url, npm_trust_url,
    npm_unpublish_version, npm_whoami_username,
};
use omc_registry::npm_semver::{npm_range_fits, npm_version_satisfies_checked};

fn text(s: &str) -> JsonValue {
    JsonValue::Text(s.to_string())
}

fn obj(members: Vec<(&str, JsonValue)>) -> JsonValue {
    JsonValue::Object(members.into_iter().map(|(k, v)| (k.to_string(), v)).collect())
}

fn shown(v: &JsonValue) -> String {
    format!("{:?}", v)
}

fn refused(message: &str) -> OmcRegistryError {
    OmcRegistryError::UnsupportedSpec(message.to_string())
}

fn package(manifest: JsonValue, provenance: Option<NpmProvenanceBundle>) -> NpmPublishPackage {
    NpmPublishPackage {
        name: "@acme/tool".to_string(),
        version: "1.0.0".to_string(),
        manifest,
        filename: "tool-1.0.0.tgz".to_string(),
        tarball: b"hello".to_vec(),
        tag: "latest".to_string(),
        access: Some("public".to_string()),
        provenance,
    }
}

#[test]
fn integrity_is_sha512_in_base64() {
    assert_eq!(
        npm_publish_integrity(b""),
        "sha512-z4PhNX7vuL3xVChQ1m2AB9Yg5AULVxXcg/SpIdNs6c5H0NE8XYXysP+DGNKHfuwvY7kxvUdBeoGlODJ6+SfaPg=="
    );
    assert_eq!(
        npm_publish_integrity(b"hello"),
        "sha512-m3HSJL1i83hdltRq0+o9czGb+8KJDKra4t/3JRlnPKcjI8PZm6XBHXx6zG4UuMXaDEZjR1wuXDre9G9zvN7AQw=="
    );
}

#[test]
fn publish_tarball_urls_encode_the_name() {
    assert_eq!(
        npm_publish_tarball_url("https://registry.example", "@acme/tool", "tool-1.0.0.tgz"),
        "https://registry.example/%40acme%2Ftool/-/tool-1.0.0.tgz"
    );
}

#[test]
fn publish_documents() {
    let manifest = obj(vec![("name", text("@acme/tool")), ("description", text("A tool")), ("main", text("index.js"))]);
    let bundle = NpmProvenanceBundle { media_type: "application/vnd.dev.sigstore.bundle+json".to_string(), data: "{}".to_string() };
    let doc = npm_publish_document("https://registry.example/", &package(manifest, Some(bundle)), "abc", "sha512-xyz").unwrap();
    let expected = obj(vec![
        ("_id", text("@acme/tool")),
        ("name", text("@acme/tool")),
        ("description", text("A tool")),
        ("dist-tags", obj(vec![("latest", text("1.0.0"))])),
        ("access", text("public")),
        (
            "versions",
            obj(vec![(
                "1.0.0",
                obj(vec![
                    ("name", text("@acme/tool")),
                    ("description", text("A tool")),
                    ("main", text("index.js")),
                    ("_id", text("@acme/tool@1.0.0")),
                    ("version", text("1.0.0")),
                    (
                        "dist",
                        obj(vec![
                            ("shasum", text("abc")),
                            ("integrity", text("sha512-xyz")),
                            ("tarball", text("https://registry.example/%40acme%2Ftool/-/tool-1.0.0.tgz")),
                        ]),
                    ),
                ]),
            )]),
        ),
        (
            "_attachments",
            obj(vec![
                (
                    "tool-1.0.0.tgz",
                    obj(vec![
                        ("content_type", text("application/octet-stream")),
                        ("data", text("aGVsbG8=")),
                        ("length", JsonValue::Unsigned(5)),
                    ]),
                ),
                (
                    "@acme/tool-1.0.0.sigstore",
                    obj(vec![
                        ("content_type", text("application/vnd.dev.sigstore.bundle+json")),
                        ("data", text("{}")),
                        ("length", JsonValue::Unsigned(2)),
                    ]),
                ),
            ]),
        ),
    ]);
    assert_eq!(shown(&doc), shown(&expected));

    assert_eq!(
        npm_publish_document("https://registry.example/", &package(text("x"), None), "a", "b").unwrap_err(),
        refused("npm publish package manifest must be a JSON object")
    );
}

#[test]
fn publish_checks() {
    assert_eq!(npm_publish_check(&package(obj(vec![]), None)), Ok(()));
    let mut p = package(obj(vec![]), None);
    p.version = " ".to_string();
    assert_eq!(npm_publish_check(&p), Err(refused("npm publish needs package name and version")));
    let mut p = package(obj(vec![]), None);
    p.tarball = Vec::new();
    assert_eq!(npm_publish_check(&p), Err(refused("npm publish needs a non-empty package tarball")));
}

#[test]
fn token_requests() {
    let options = NpmTokenCreateOptions {
        name: Some("ci".to_string()),
        packages: vec!["@acme/tool".to_string()],
        read_only: true,
        expires: Some(30),
        bypass_2fa: true,
        ..Default::default()
    };
    let payload = npm_token_create_payload(&options, "secret");
    let expected = obj(vec![
        ("password", text("secret")),
        ("name", text("ci")),
        ("packages", JsonValue::Array(vec![text("@acme/tool")])),
        ("packages_and_scopes_permission", text("read-only")),
        ("expires", JsonValue::Unsigned(30)),
        ("bypass_2fa", JsonValue::Bool(true)),
    ]);
    assert_eq!(shown(&payload), shown(&expected));
    let bare = npm_token_create_payload(&NpmTokenCreateOptions::default(), "pw");
    assert_eq!(shown(&bare), shown(&obj(vec![("password", text("pw")), ("name", JsonValue::Null)])));

    assert_eq!(npm_token_create_password(Some(" pw "), None, None), Ok("pw".to_string()));
    assert_eq!(npm_token_create_password(Some(" "), Some(" env "), Some("upper")), Ok("env".to_string()));
    assert_eq!(npm_token_create_password(None, None, Some("upper")), Ok("upper".to_string()));
    assert_eq!(
        npm_token_create_password(None, Some(" "), Some("upper")),
        Err(refused("npm token create needs a password; pass --password or set NPM_CONFIG_PASSWORD"))
    );
    assert_eq!(
        npm_token_revoke_target("https://registry.example/", " tok en "),
        Ok(("tok en".to_string(), "https://registry.example/-/npm/v1/tokens/token/tok%20en".to_string()))
    );
    assert_eq!(
        npm_token_revoke_target("https://registry.example/", "  "),
        Err(refused("npm token revoke needs a token or token id"))
    );
}

#[test]
fn request_urls() {
    assert_eq!(
        npm_trust_url("https://registry.example", "@acme/tool"),
        "https://registry.example/-/package/%40acme%2Ftool/trust"
    );
    assert_eq!(
        npm_trust_revoke_url("https://registry.example/", "tool", " a b/c "),
        Ok("https://registry.example/-/package/tool/trust/a%20b%2Fc".to_string())
    );
    assert_eq!(
        npm_trust_revoke_url("https://registry.example/", "tool", " "),
        Err(refused("npm trust revoke needs --id"))
    );
    assert_eq!(
        npm_dist_tag_url("https://registry.example", "@acme/tool", "latest"),
        "https://registry.example/-/package/%40acme%2Ftool/dist-tags/latest"
    );
    assert_eq!(
        npm_access_package_url("https://registry.example/", "@acme/tool", "collaborators"),
        "https://registry.example/-/package/%40acme%2Ftool/collaborators"
    );
    assert_eq!(
        npm_search_url("https://registry.example", " react dom ", 20),
        Ok("https://registry.example/-/v1/search?text=react%20dom&size=20".to_string())
    );
    assert_eq!(npm_search_url("https://registry.example", "  ", 20), Err(refused("npm search needs search terms")));
    assert_eq!(
        npm_stars_url("https://registry.example/", "alice"),
        "https://registry.example/-/_view/starredByUser?key=%22alice%22"
    );
    assert_eq!(
        npm_team_request_url("r/", "acme", None, "create"),
        Ok("r/-/org/acme/team".to_string())
    );
    assert_eq!(
        npm_team_request_url("r/", "acme", Some("devs"), "destroy"),
        Ok("r/-/team/acme/devs".to_string())
    );
    assert_eq!(
        npm_team_request_url("r/", "acme", Some("devs"), "rm"),
        Ok("r/-/team/acme/devs/user".to_string())
    );
    assert_eq!(
        npm_team_request_url("r/", "acme", Some("devs"), "ls"),
        Err(refused("unsupported npm team action `ls`"))
    );
}

#[test]
fn request_arguments() {
    assert_eq!(npm_unpublish_version(None), Ok(None));
    assert_eq!(npm_unpublish_version(Some("*")), Ok(None));
    assert_eq!(npm_unpublish_version(Some("1.2.3")), Ok(Some("1.2.3".to_string())));
    assert_eq!(
        npm_unpublish_version(Some("^1.2.3")),
        Err(refused("Can only unpublish a single version, or the entire project. Tags and ranges are not supported: `^1.2.3`"))
    );
    assert_eq!(npm_deprecate_requirement(None), Ok("*".to_string()));
    assert_eq!(npm_deprecate_requirement(Some("^1.2")), Ok("^1.2".to_string()));
    assert_eq!(
        npm_deprecate_requirement(Some("not a range")),
        Err(refused("npm deprecate got invalid version range `not a range`"))
    );
    assert_eq!(
        npm_dist_tag_add_args(" tool ", " 1.0.0 ", " beta "),
        Ok(("tool".to_string(), "1.0.0".to_string(), "beta".to_string()))
    );
    assert_eq!(
        npm_dist_tag_add_args("tool", "", "beta"),
        Err(refused("npm dist-tag add needs package, version, and tag"))
    );
    assert_eq!(
        npm_dist_tag_add_args("tool", "1.0", "beta"),
        Err(refused("npm dist-tag add needs an exact semver version, got `1.0`"))
    );
    assert_eq!(npm_dist_tag_rm_args(" tool ", "beta"), Ok(("tool".to_string(), "beta".to_string())));
    assert_eq!(npm_dist_tag_rm_args("tool", " "), Err(refused("npm dist-tag rm needs package and tag")));
    assert_eq!(npm_owner_request_user(" ann "), Ok("ann".to_string()));
    assert_eq!(npm_owner_request_user(" "), Err(refused("npm owner mutation needs a username")));
}

#[test]
fn registry_answers() {
    assert_eq!(npm_trust_configs(JsonValue::Null).len(), 0);
    assert_eq!(npm_trust_configs(JsonValue::Array(vec![text("a"), text("b")])).len(), 2);
    let one = npm_trust_configs(obj(vec![("id", text("x"))]));
    assert_eq!(one.len(), 1);
    assert_eq!(shown(&one[0]), shown(&obj(vec![("id", text("x"))])));

    assert_eq!(npm_whoami_username(&obj(vec![("username", text("ann"))])), Ok("ann".to_string()));
    assert_eq!(
        npm_whoami_username(&obj(vec![])),
        Err(refused("npm whoami response did not include username"))
    );

    let manifest = obj(vec![("dist", obj(vec![("tarball", text("https://r/x.tgz"))]))]);
    assert_eq!(npm_manifest_tarball_url(&manifest, "x"), Ok("https://r/x.tgz".to_string()));
    let blank = obj(vec![("dist", obj(vec![("tarball", text("  "))]))]);
    assert_eq!(
        npm_manifest_tarball_url(&blank, "x"),
        Err(OmcRegistryError::MissingArtifact("x".to_string()))
    );

    let root = obj(vec![("dist-tags", obj(vec![("latest", text("2.0.0")), ("n", JsonValue::Unsigned(1))]))]);
    let tags = npm_dist_tags(&root);
    assert_eq!(tags.entries, vec![("latest".to_string(), "2.0.0".to_string())]);
    assert!(npm_dist_tags(&obj(vec![])).entries.is_empty());

    let stars = obj(vec![(
        "rows",
        JsonValue::Array(vec![obj(vec![("value", text("left-pad"))]), obj(vec![("key", text("k"))])]),
    )]);
    assert_eq!(npm_starred_packages(&stars), Ok(vec!["left-pad".to_string()]));
    assert_eq!(
        npm_starred_packages(&obj(vec![])),
        Err(refused("npm stars response did not include rows"))
    );
}

#[test]
fn owner_and_star_documents() {
    let doc = obj(vec![("_id", text("tool")), ("_rev", text("3-x")), ("users", obj(vec![("bo", JsonValue::Bool(true)), ("cy", text("no"))]))]);
    assert_eq!(npm_packument_identity(&doc, "tool"), Ok(("tool".to_string(), "3-x".to_string())));
    assert_eq!(
        npm_packument_identity(&obj(vec![("_rev", text(" "))]), "tool"),
        Err(refused("npm registry response for `tool` did not include _rev"))
    );
    assert_eq!(
        npm_packument_identity(&obj(vec![("_rev", text("1-a"))]), "tool"),
        Ok(("tool".to_string(), "1-a".to_string()))
    );

    let owners = vec![NpmSearchUser { email: Some("a@x".to_string()), username: Some("al".to_string()) }];
    let body = npm_owner_document("tool", "3-x", &owners);
    let expected = obj(vec![
        ("_id", text("tool")),
        ("_rev", text("3-x")),
        ("maintainers", JsonValue::Array(vec![obj(vec![("name", text("al")), ("email", text("a@x"))])])),
    ]);
    assert_eq!(shown(&body), shown(&expected));

    let starred = npm_star_document(&doc, "tool", "ann", true).unwrap();
    let expected = obj(vec![
        ("_id", text("tool")),
        ("_rev", text("3-x")),
        ("users", obj(vec![("bo", JsonValue::Bool(true)), ("ann", JsonValue::Bool(true))])),
    ]);
    assert_eq!(shown(&starred), shown(&expected));
    let unstarred = npm_star_document(&doc, "tool", "bo", false).unwrap();
    let users = json_get(&unstarred, "users").unwrap();
    assert_eq!(shown(users), shown(&obj(vec![])));
    assert_eq!(
        npm_star_document(&obj(vec![("_rev", text("1")), ("users", text("x"))]), "tool", "ann", true).unwrap_err(),
        refused("npm registry response users field was not an object")
    );
}

#[test]
fn profile_changes() {
    assert_eq!(npm_profile_property(" Twitter "), Ok("twitter".to_string()));
    assert_eq!(
        npm_profile_property("PASSWORD"),
        Err(refused("npm profile set password is interactive and is not implemented by OMC"))
    );
    assert_eq!(npm_profile_property("age"), Err(refused("\"age\" is not a property we can set")));

    let current = obj(vec![("email", text("a@x")), ("name", text("ann")), ("github", text("ann-gh"))]);
    let body = npm_profile_body(&current, "twitter", "@ann");
    let expected = obj(vec![("email", text("a@x")), ("github", text("ann-gh")), ("twitter", text("@ann"))]);
    assert_eq!(shown(&body), shown(&expected));
    let cleared = npm_profile_body(&current, "github", "");
    let expected = obj(vec![("email", text("a@x")), ("github", JsonValue::Null)]);
    assert_eq!(shown(&cleared), shown(&expected));

    let answer = obj(vec![("twitter", text("@ann2"))]);
    assert_eq!(shown(&npm_profile_result_value(&answer, "twitter", "@ann")), shown(&text("@ann2")));
    assert_eq!(shown(&npm_profile_result_value(&obj(vec![]), "twitter", "")), shown(&JsonValue::Null));
    assert_eq!(json_text_field(&answer, "twitter").map(String::as_str), Some("@ann2"));
}

#[test]
fn ranges_that_fit() {
    assert!(npm_range_fits("^1.2.3"));
    assert!(npm_range_fits(">=1.0.0 <2.0.0"));
    assert!(!npm_range_fits("^18446744073709551615"));
    assert_eq!(npm_version_satisfies_checked("1.5.0", "^1.2.3"), Some(true));
    assert_eq!(npm_version_satisfies_checked("2.0.0", "^1.2.3"), Some(false));
    assert_eq!(npm_version_satisfies_checked("1.0.0", "~18446744073709551615.18446744073709551615"), None);
}
