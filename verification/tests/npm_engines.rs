use omc_registry::npm_engines::{
    node_version_from_report, npm_engine_compatible, npm_engine_requirement_satisfied,
};
use omc_registry::npm_semver::SemVer;
use omc_registry::set_map::PinMap;

fn node(major: u64, minor: u64, patch: u64) -> SemVer {
    SemVer { major, minor, patch, pre: String::new(), build: String::new() }
}

fn engines(range: &str) -> PinMap {
    PinMap { entries: vec![("node".to_string(), range.to_string())] }
}

#[test]
fn node_version_is_read_from_its_report() {
    let v = node_version_from_report("v18.17.1\n").unwrap();
    assert_eq!((v.major, v.minor, v.patch), (18, 17, 1));
    assert!(v.pre.is_empty());
    assert!(node_version_from_report("not a version").is_none());
}

#[test]
fn engine_ranges_admit_by_any_alternative() {
    let v = node(18, 17, 1);
    assert!(npm_engine_requirement_satisfied(&v, ">=16"));
    assert!(!npm_engine_requirement_satisfied(&v, ">= 20"));
    assert!(npm_engine_requirement_satisfied(&v, "^14 || >= 18"));
    assert!(!npm_engine_requirement_satisfied(&v, "  ||  "));
}

#[test]
fn engines_are_checked_only_when_enforced() {
    let v = node(18, 17, 1);
    let strict_range = engines(">=20");
    assert!(npm_engine_compatible(Some(&strict_range), false, Some(&v)));
    assert!(!npm_engine_compatible(Some(&strict_range), true, Some(&v)));
    assert!(npm_engine_compatible(Some(&strict_range), true, None));
    assert!(npm_engine_compatible(None, true, Some(&v)));
    let other = PinMap { entries: vec![("npm".to_string(), ">=99".to_string())] };
    assert!(npm_engine_compatible(Some(&other), true, Some(&v)));
}
