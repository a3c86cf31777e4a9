use omc_registry::error::OmcRegistryError;
use omc_registry::npm_arguments::{
    npm_access_package_is_scoped, npm_access_permission_text, npm_access_scope_team,
    npm_deprecate_comparator_valid, npm_deprecate_valid_requirement, npm_org_name, npm_org_role,
    npm_org_user, npm_team_entity, npm_team_scope, npm_team_user, npm_trust_package_name,
};

fn chars(s: &str) -> Vec<char> {
    s.chars().collect()
}

fn refused(message: &str) -> OmcRegistryError {
    OmcRegistryError::UnsupportedSpec(message.to_string())
}

#[test]
fn trust_packages_must_be_named() {
    assert_eq!(npm_trust_package_name("  left-pad "), Ok("left-pad".to_string()));
    assert_eq!(npm_trust_package_name("   "), Err(refused("npm trust needs a package")));
}

#[test]
fn scoped_packages_have_scope_and_name() {
    assert!(npm_access_package_is_scoped(&chars("@acme/tool")));
    assert!(!npm_access_package_is_scoped(&chars("@acme/")));
    assert!(!npm_access_package_is_scoped(&chars("@/tool")));
    assert!(!npm_access_package_is_scoped(&chars("tool")));
}

#[test]
fn permissions_read_as_words() {
    let text = |s: &str| -> String { npm_access_permission_text(&chars(s)).iter().collect() };
    assert_eq!(text("read"), "read-only");
    assert_eq!(text("write"), "read-write");
    assert_eq!(text("admin"), "admin");
}

#[test]
fn scopes_and_teams() {
    assert_eq!(
        npm_access_scope_team(" @acme:devs "),
        Ok(("acme".to_string(), Some("devs".to_string())))
    );
    assert_eq!(npm_access_scope_team("@acme"), Ok(("acme".to_string(), None)));
    assert_eq!(npm_access_scope_team("  @ "), Err(refused("npm access scope/team cannot be empty")));
    assert_eq!(npm_access_scope_team("acme:"), Err(refused("invalid npm access scope/team `acme:`")));
    assert_eq!(npm_access_scope_team(":devs"), Err(refused("invalid npm access scope/team `:devs`")));
    assert_eq!(npm_team_entity("acme:devs"), Ok(("acme".to_string(), "devs".to_string())));
    assert_eq!(npm_team_entity("acme"), Err(refused("team must be in format `scope:team`")));
    assert_eq!(npm_team_scope(" @acme "), Ok("acme".to_string()));
    assert_eq!(npm_team_scope("acme:devs"), Err(refused("invalid npm team scope `acme:devs`")));
    assert_eq!(npm_team_user(" bob "), Ok("bob".to_string()));
    assert_eq!(npm_team_user(" "), Err(refused("npm team user cannot be empty")));
}

#[test]
fn orgs_users_and_roles() {
    assert_eq!(npm_org_name("@acme"), Ok("acme".to_string()));
    assert_eq!(npm_org_name("acme/x"), Err(refused("invalid npm org `acme/x`")));
    assert_eq!(npm_org_user(" ~@bob"), Ok("bob".to_string()));
    assert_eq!(npm_org_user("@~"), Err(refused("npm org user cannot be empty")));
    assert_eq!(npm_org_role(" admin "), Ok("admin".to_string()));
    assert_eq!(
        npm_org_role("root"),
        Err(refused("npm org role must be owner, admin, or developer"))
    );
}

#[test]
fn deprecation_ranges() {
    assert!(npm_deprecate_valid_requirement("*"));
    assert!(npm_deprecate_valid_requirement("1.2.3"));
    assert!(npm_deprecate_valid_requirement("^1.2"));
    assert!(npm_deprecate_valid_requirement(">=1.0.0 <2"));
    assert!(npm_deprecate_valid_requirement("1.x"));
    assert!(!npm_deprecate_valid_requirement(""));
    assert!(!npm_deprecate_valid_requirement(">=abc"));
    assert!(!npm_deprecate_valid_requirement(">=1 oops"));
    assert!(npm_deprecate_comparator_valid(&chars("X")));
    assert!(npm_deprecate_comparator_valid(&chars("2.*")));
    assert!(!npm_deprecate_comparator_valid(&chars("two")));
}
