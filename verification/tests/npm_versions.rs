use omc_registry::npm_semver::{
    compare_npm_versions, is_exact_npm_version, normalize_npm_engine_requirement,
    npm_string_list_allows, npm_version_satisfies, parse_partial_npm_version, parse_u64_text,
};
use std::cmp::Ordering;

fn chars(s: &str) -> Vec<char> {
    s.chars().collect()
}

#[test]
fn caret_ranges_stop_at_the_next_breaking_version() {
    assert!(npm_version_satisfies("1.2.3", "^1.2.0"));
    assert!(!npm_version_satisfies("2.0.0", "^1.2.0"));
    assert!(npm_version_satisfies("0.2.5", "^0.2.1"));
    assert!(!npm_version_satisfies("0.3.0", "^0.2.1"));
    assert!(npm_version_satisfies("0.0.3", "^0.0.3"));
    assert!(!npm_version_satisfies("0.0.4", "^0.0.3"));
}

#[test]
fn tilde_ranges_stop_at_the_next_minor() {
    assert!(npm_version_satisfies("1.2.9", "~1.2.3"));
    assert!(!npm_version_satisfies("1.3.0", "~1.2.3"));
    assert!(!npm_version_satisfies("1.2.2", "~1.2.3"));
}

#[test]
fn comparator_sets_must_all_hold() {
    assert!(npm_version_satisfies("1.5.0", ">=1.0.0 <2.0.0"));
    assert!(npm_version_satisfies("1.5.0", ">=1.0.0, <2.0.0"));
    assert!(!npm_version_satisfies("2.0.0", ">=1.0.0 <2.0.0"));
    assert!(npm_version_satisfies("1.2.0", "=1.2"));
    assert!(npm_version_satisfies("1.2.0", "1.2"));
    assert!(!npm_version_satisfies("1.2.1", "1.2"));
    assert!(!npm_version_satisfies("1.0.0", ">=abc"));
}

#[test]
fn wildcards_and_exact_versions() {
    assert!(npm_version_satisfies("3.1.4", "*"));
    assert!(npm_version_satisfies("3.1.4", ""));
    assert!(npm_version_satisfies("3.1.4", "latest"));
    assert!(npm_version_satisfies("3.1.4", "X"));
    assert!(npm_version_satisfies("1.4.0", "1.x"));
    assert!(!npm_version_satisfies("2.0.0", "1.x"));
    assert!(npm_version_satisfies("1.2.7", "1.2.*"));
    assert!(npm_version_satisfies("1.2.3", "1.2.3"));
    assert!(!npm_version_satisfies("1.2.4", "1.2.3"));
    assert!(!npm_version_satisfies("not-a-version", "*"));
}

#[test]
fn prereleases_are_below_their_release() {
    assert!(!npm_version_satisfies("1.0.0-beta.1", ">=1.0.0"));
    assert!(npm_version_satisfies("1.0.0-beta.1", "<1.0.0"));
    assert!(npm_version_satisfies("1.0.0-beta.1", "1.0.0-beta.1"));
}

#[test]
fn partial_versions_default_missing_numbers_to_zero() {
    assert_eq!(parse_partial_npm_version(&chars(" 1.2 ")), Some((1, 2, 0)));
    assert_eq!(parse_partial_npm_version(&chars("1.b.3")), Some((1, 0, 3)));
    assert_eq!(parse_partial_npm_version(&chars("+1")), Some((1, 0, 0)));
    assert_eq!(parse_partial_npm_version(&chars("a.1")), None);
    assert_eq!(parse_u64_text(&chars("18446744073709551615")), Some(u64::MAX));
    assert_eq!(parse_u64_text(&chars("18446744073709551616")), None);
    assert_eq!(parse_u64_text(&chars("")), None);
}

#[test]
fn npm_versions_order_by_semver_then_text() {
    assert_eq!(compare_npm_versions("1.10.0", "1.9.0"), Ordering::Greater);
    assert_eq!(compare_npm_versions("1.0.0-alpha", "1.0.0"), Ordering::Less);
    assert_eq!(compare_npm_versions("2.0.0", "2.0.0"), Ordering::Equal);
    assert_eq!(compare_npm_versions("abc", "abd"), Ordering::Less);
    assert_eq!(compare_npm_versions("1.0.0", "abc"), Ordering::Less);
    assert!(is_exact_npm_version("1.2.3"));
    assert!(!is_exact_npm_version("^1.2.3"));
}

#[test]
fn engine_ranges_join_operators_to_versions() {
    let out: String = normalize_npm_engine_requirement(&chars(">= 14  <  16")).iter().collect();
    assert_eq!(out, ">=14 <16");
    let out: String = normalize_npm_engine_requirement(&chars("^18")).iter().collect();
    assert_eq!(out, "^18");
    let out: String = normalize_npm_engine_requirement(&chars("   ")).iter().collect();
    assert_eq!(out, "");
}

#[test]
fn platform_lists_allow_and_deny() {
    let both = vec!["darwin".to_string(), "linux".to_string()];
    let not_windows = vec!["!win32".to_string()];
    let only_darwin = vec!["darwin".to_string()];
    assert!(npm_string_list_allows(Some(&both), Some("linux")));
    assert!(npm_string_list_allows(Some(&not_windows), Some("linux")));
    assert!(!npm_string_list_allows(Some(&not_windows), Some("win32")));
    assert!(!npm_string_list_allows(Some(&only_darwin), Some("linux")));
    assert!(npm_string_list_allows(None, Some("linux")));
    assert!(npm_string_list_allows(Some(&not_windows), None));
    assert!(!npm_string_list_allows(Some(&only_darwin), None));
}
