use omc_registry::error::OmcRegistryError;
use omc_registry::json::{find_member, json_copy, json_get, json_text_field, set_member, take_member, JsonValue};
use omc_registry::npm_owners::{
    npm_listed_owners, npm_owner_change, npm_owner_list_result, npm_owner_user, NpmSearchUser,
};
use omc_registry::npm_packument::{
    npm_deprecate_matching_versions, npm_deprecate_packument, npm_packument_rev,
    npm_packument_version_keys, npm_unpublish_plan, npm_unpublish_plan_for,
    npm_unpublish_remove_version, npm_unpublish_tarball_path, sort_versions,
};
use omc_registry::npm_roster::{
    npm_access_items, npm_access_map_result, npm_org_list_result, npm_org_user_map,
    npm_team_list_items, npm_team_list_result, NpmAccessValue,
};

fn text(s: &str) -> JsonValue {
    JsonValue::Text(s.to_string())
}

fn obj(members: Vec<(&str, JsonValue)>) -> JsonValue {
    JsonValue::Object(members.into_iter().map(|(k, v)| (k.to_string(), v)).collect())
}

fn shown(v: &JsonValue) -> String {
    format!("{:?}", v)
}

fn strings(v: &[&str]) -> Vec<String> {
    v.iter().map(|s| s.to_string()).collect()
}

fn refused(message: &str) -> OmcRegistryError {
    OmcRegistryError::UnsupportedSpec(message.to_string())
}

fn user(name: Option<&str>, email: Option<&str>) -> NpmSearchUser {
    NpmSearchUser { email: email.map(str::to_string), username: name.map(str::to_string) }
}

fn pairs(entries: &[(String, String)]) -> Vec<(&str, &str)> {
    entries.iter().map(|(k, v)| (k.as_str(), v.as_str())).collect()
}

/// A packument with three versions (listed out of order), dist-tags and
/// revision data.
fn packument() -> JsonValue {
    obj(vec![
        ("_id", text("demo")),
        ("_rev", text("7-abc")),
        (
            "dist-tags",
            obj(vec![("latest", text("1.10.0")), ("beta", text("1.10.0")), ("old", text("1.2.0"))]),
        ),
        (
            "versions",
            obj(vec![
                (
                    "1.10.0",
                    obj(vec![(
                        "dist",
                        obj(vec![("tarball", text("https://registry.example/demo/-/demo-1.10.0.tgz"))]),
                    )]),
                ),
                ("1.2.0", obj(vec![("dist", obj(vec![("tarball", text("https://registry.example/demo/-/demo-1.2.0.tgz"))]))])),
                ("1.9.0", obj(vec![])),
            ]),
        ),
        ("_revisions", obj(vec![])),
        ("_attachments", obj(vec![])),
    ])
}

#[test]
fn json_members_are_found_set_and_taken() {
    let doc = obj(vec![("a", text("x")), ("b", JsonValue::Unsigned(2)), ("a", text("later"))]);
    assert_eq!(json_text_field(&doc, "a").map(String::as_str), Some("x"));
    assert!(json_get(&doc, "b").is_some());
    assert!(json_get(&doc, "c").is_none());
    assert!(json_get(&text("plain"), "a").is_none());

    let mut es: Vec<(String, JsonValue)> = vec![("a".to_string(), text("x"))];
    set_member(&mut es, "b".to_string(), text("y"));
    set_member(&mut es, "a".to_string(), text("z"));
    assert_eq!(shown(&JsonValue::Object(es)), shown(&obj(vec![("a", text("z")), ("b", text("y"))])));

    let mut es: Vec<(String, JsonValue)> = vec![("a".to_string(), text("x")), ("b".to_string(), text("y"))];
    assert_eq!(find_member(&es, "b"), Some(1));
    let taken = take_member(&mut es, "a");
    assert_eq!(taken.map(|v| shown(&v)), Some(shown(&text("x"))));
    assert_eq!(shown(&JsonValue::Object(es)), shown(&obj(vec![("b", text("y"))])));

    let copy = json_copy(&packument());
    assert_eq!(shown(&copy), shown(&packument()));
}

#[test]
fn versions_sort_by_semver() {
    let sorted = sort_versions(&strings(&["1.10.0", "1.2.0", "1.9.0", "1.2.0-beta.1"]));
    assert_eq!(sorted, strings(&["1.2.0-beta.1", "1.2.0", "1.9.0", "1.10.0"]));
    assert_eq!(
        npm_packument_version_keys(&packument(), "demo"),
        Ok(strings(&["1.2.0", "1.9.0", "1.10.0"]))
    );
    assert_eq!(npm_packument_version_keys(&obj(vec![]), "demo"), Ok(Vec::new()));
    assert_eq!(
        npm_packument_version_keys(&obj(vec![("versions", text("1.0.0"))]), "demo"),
        Err(refused("npm registry response for `demo` had invalid versions"))
    );
}

#[test]
fn unpublish_plans() {
    let plan = npm_unpublish_plan_for(strings(&["1.0.0", "2.0.0"]), None, true).unwrap();
    assert_eq!(plan.removed_versions, strings(&["1.0.0", "2.0.0"]));
    assert!(plan.whole_package && plan.changed);
    assert_eq!(
        npm_unpublish_plan_for(strings(&["1.0.0"]), None, false).unwrap_err(),
        refused("Refusing to delete entire project.\nRun with --force to do this.")
    );
    let plan = npm_unpublish_plan_for(strings(&["1.0.0", "2.0.0"]), Some("3.0.0"), false).unwrap();
    assert!(plan.removed_versions.is_empty() && !plan.whole_package && !plan.changed);
    assert_eq!(
        npm_unpublish_plan_for(strings(&["1.0.0"]), Some("1.0.0"), false).unwrap_err(),
        refused("Refusing to delete the last version of the package.\nIt will block from republishing a new version for 24 hours.\nRun with --force to do this.")
    );
    let plan = npm_unpublish_plan_for(strings(&["1.0.0"]), Some("1.0.0"), true).unwrap();
    assert_eq!(plan.removed_versions, strings(&["1.0.0"]));
    assert!(plan.whole_package && plan.changed);
    let plan = npm_unpublish_plan_for(Vec::new(), Some("1.0.0"), false).unwrap();
    assert!(plan.removed_versions.is_empty() && plan.whole_package && plan.changed);
    let plan = npm_unpublish_plan_for(strings(&["1.0.0", "2.0.0"]), Some("2.0.0"), false).unwrap();
    assert_eq!(plan.removed_versions, strings(&["2.0.0"]));
    assert!(!plan.whole_package && plan.changed);

    let plan = npm_unpublish_plan(&packument(), "demo", None, true).unwrap();
    assert_eq!(plan.removed_versions, strings(&["1.2.0", "1.9.0", "1.10.0"]));
}

#[test]
fn deprecations_cover_matching_versions() {
    assert_eq!(
        npm_deprecate_matching_versions(&packument(), "^1.5.0"),
        Ok(strings(&["1.9.0", "1.10.0"]))
    );
    assert_eq!(
        npm_deprecate_matching_versions(&obj(vec![]), "*"),
        Err(refused("npm registry response did not include versions"))
    );

    let mut doc = packument();
    let versions = strings(&["1.9.0"]);
    assert_eq!(npm_deprecate_packument(&mut doc, "demo", &versions, "use 2.x"), Ok(()));
    let docs = json_get(&doc, "versions").unwrap();
    let marked = json_get(docs, "1.9.0").unwrap();
    assert_eq!(json_text_field(marked, "deprecated").map(String::as_str), Some("use 2.x"));

    let mut bad = obj(vec![("versions", obj(vec![("1.0.0", text("gone"))]))]);
    assert_eq!(
        npm_deprecate_packument(&mut bad, "demo", &strings(&["1.0.0"]), "x"),
        Err(refused("npm registry response for `demo` had invalid version `1.0.0`"))
    );
}

#[test]
fn removing_a_version_moves_its_tags() {
    let mut doc = packument();
    assert_eq!(
        npm_unpublish_remove_version(&mut doc, "demo", "1.10.0"),
        Ok("https://registry.example/demo/-/demo-1.10.0.tgz".to_string())
    );
    let expected = obj(vec![
        ("_id", text("demo")),
        ("_rev", text("7-abc")),
        ("dist-tags", obj(vec![("old", text("1.2.0")), ("latest", text("1.9.0"))])),
        (
            "versions",
            obj(vec![
                ("1.2.0", obj(vec![("dist", obj(vec![("tarball", text("https://registry.example/demo/-/demo-1.2.0.tgz"))]))])),
                ("1.9.0", obj(vec![])),
            ]),
        ),
    ]);
    assert_eq!(shown(&doc), shown(&expected));

    let mut doc = packument();
    assert_eq!(
        npm_unpublish_remove_version(&mut doc, "demo", "1.9.0"),
        Err(refused("npm registry response for `demo` version `1.9.0` did not include dist.tarball"))
    );
    let mut doc = packument();
    assert_eq!(
        npm_unpublish_remove_version(&mut doc, "demo", "3.0.0"),
        Err(refused("npm registry response for `demo` did not include version `3.0.0`"))
    );
    let mut doc = obj(vec![]);
    assert_eq!(
        npm_unpublish_remove_version(&mut doc, "demo", "1.0.0"),
        Err(refused("npm registry response for `demo` did not include versions"))
    );
}

#[test]
fn revisions_and_tarball_paths() {
    assert_eq!(npm_packument_rev(&packument(), "demo"), Ok("7-abc".to_string()));
    assert_eq!(
        npm_packument_rev(&obj(vec![("_rev", text(""))]), "demo"),
        Err(refused("npm registry response for `demo` did not include _rev"))
    );
    assert_eq!(
        npm_unpublish_tarball_path(
            "https://registry.example/npm/demo/-/demo-1.0.0.tgz",
            "https://registry.example/npm/"
        ),
        Ok("demo/-/demo-1.0.0.tgz".to_string())
    );
    assert_eq!(
        npm_unpublish_tarball_path("https://registry.example/demo/-/demo-1.0.0.tgz", "https://registry.example/"),
        Ok("demo/-/demo-1.0.0.tgz".to_string())
    );
    assert_eq!(
        npm_unpublish_tarball_path("https://registry.example/", "https://registry.example/"),
        Err(refused("npm tarball URL `https://registry.example/` did not include a path"))
    );
    assert_eq!(
        npm_unpublish_tarball_path("not a url", "https://registry.example/"),
        Err(refused("not a url"))
    );
}

#[test]
fn owners_are_listed_by_name() {
    assert_eq!(npm_owner_user(user(Some("  "), Some("a@x"))), user(None, Some("a@x")));
    assert_eq!(npm_owner_user(user(Some("ann"), None)), user(Some("ann"), None));
    let listed = npm_listed_owners(vec![
        user(Some("zed"), None),
        user(None, Some("nobody@x")),
        user(Some(""), None),
        user(Some("amy"), Some("amy@x")),
    ]);
    assert_eq!(listed, vec![user(Some("amy"), Some("amy@x")), user(Some("zed"), None)]);
    let result = npm_owner_list_result(
        "https://registry.example/".to_string(),
        "demo".to_string(),
        vec![user(Some("bo"), None), user(Some("al"), None)],
    );
    assert_eq!(result.owners, vec![user(Some("al"), None), user(Some("bo"), None)]);
}

#[test]
fn owner_changes() {
    let owners = vec![user(Some("al"), None), user(Some("cy"), None)];
    let (name, changed, after) =
        npm_owner_change(owners.clone(), user(Some("bo"), Some("bo@x")), "bo", true).unwrap();
    assert_eq!(name, "bo");
    assert!(changed);
    assert_eq!(after, vec![user(Some("al"), None), user(Some("bo"), Some("bo@x")), user(Some("cy"), None)]);

    let (_, changed, after) = npm_owner_change(owners.clone(), user(Some("al"), None), "al", true).unwrap();
    assert!(!changed);
    assert_eq!(after, owners);

    let (_, changed, after) = npm_owner_change(owners.clone(), user(Some("al"), None), "al", false).unwrap();
    assert!(changed);
    assert_eq!(after, vec![user(Some("cy"), None)]);

    let (_, changed, _) = npm_owner_change(owners.clone(), user(Some("bo"), None), "bo", false).unwrap();
    assert!(!changed);

    assert_eq!(
        npm_owner_change(vec![user(Some("al"), None)], user(Some("al"), None), "al", false).unwrap_err(),
        refused("Cannot remove all owners of a package. Add someone else first.")
    );
    assert_eq!(
        npm_owner_change(owners, user(None, None), "ghost", true).unwrap_err(),
        refused("npm owner user `ghost` did not include a name")
    );
}

#[test]
fn access_listings() {
    let members = vec![
        ("@acme/a".to_string(), NpmAccessValue::Text("read".to_string())),
        ("@acme/b".to_string(), NpmAccessValue::Text("write".to_string())),
        ("@acme/c".to_string(), NpmAccessValue::Json("true".to_string())),
    ];
    let items = npm_access_items(Some(members.clone()), None).unwrap();
    assert_eq!(
        pairs(&items.entries),
        vec![("@acme/a", "read-only"), ("@acme/b", "read-write"), ("@acme/c", "true")]
    );
    let items = npm_access_items(Some(members.clone()), Some("@acme/b")).unwrap();
    assert_eq!(pairs(&items.entries), vec![("@acme/b", "read-write")]);
    assert_eq!(
        npm_access_items(None, None).unwrap_err(),
        refused("npm access response was not an object")
    );
    let result = npm_access_map_result(
        "https://registry.example/".to_string(),
        "collaborators".to_string(),
        Some("@acme/a".to_string()),
        Some(members),
        None,
    )
    .unwrap();
    assert_eq!(result.subject, "collaborators");
    assert_eq!(result.items.entries.len(), 3);
}

#[test]
fn org_listings() {
    let listing = obj(vec![
        ("ann", text("owner")),
        ("bob", obj(vec![("role", text("developer"))])),
        ("cat", JsonValue::Unsigned(3)),
    ]);
    let users = npm_org_user_map(&listing).unwrap();
    assert_eq!(pairs(&users.entries), vec![("ann", "owner"), ("bob", "developer")]);
    assert_eq!(
        npm_org_user_map(&text("nope")).unwrap_err(),
        refused("npm org response was not an object")
    );
    let result =
        npm_org_list_result("r/".to_string(), "acme".to_string(), &listing, Some("bob")).unwrap();
    assert_eq!(pairs(&result.users.entries), vec![("bob", "developer")]);
    let result =
        npm_org_list_result("r/".to_string(), "acme".to_string(), &listing, Some("dan")).unwrap();
    assert!(result.users.entries.is_empty());
}

#[test]
fn team_listings() {
    let list = JsonValue::Array(vec![
        text("acme:devs"),
        obj(vec![("name", text("acme:ops"))]),
        text("acme:devs"),
        JsonValue::Null,
    ]);
    assert_eq!(npm_team_list_items(&list), Ok(strings(&["acme:devs", "acme:ops"])));
    let object = obj(vec![
        ("zed", text("zed")),
        ("amy", obj(vec![("user", text("amy"))])),
        ("key-only", JsonValue::Bool(true)),
    ]);
    assert_eq!(npm_team_list_items(&object), Ok(strings(&["amy", "key-only", "zed"])));
    assert_eq!(
        npm_team_list_items(&text("x")),
        Err(refused("npm team response was not a list or object"))
    );
    let result = npm_team_list_result("r/".to_string(), "acme".to_string(), None, &list).unwrap();
    assert_eq!(result.items, strings(&["acme:devs", "acme:ops"]));
    assert_eq!(result.team, None);
}
