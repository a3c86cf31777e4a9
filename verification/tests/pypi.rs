use omc_registry::pypi_release::{
    apply_pypi_binary_option, apply_pypi_release_control, merge_pypi_release_control,
    normalize_pypi_name, PypiBinaryMode, PypiBinaryPackages, PypiReleaseControl,
};
use omc_registry::pypi_requirement::{
    is_exact_pypi_requirement, pypi_comparator_satisfied, pypi_version_is_prerelease,
    pypi_version_satisfies,
};
use omc_registry::pypi_version::compare_pypi_versions;
use std::cmp::Ordering;

fn chars(s: &str) -> Vec<char> {
    s.chars().collect()
}

fn sorted(v: &[String]) -> Vec<String> {
    let mut out = v.to_vec();
    out.sort();
    out
}

#[test]
fn pypi_versions_compare_by_release_phase_and_post() {
    assert_eq!(compare_pypi_versions("1.0", "1.0.0"), Ordering::Equal);
    assert_eq!(compare_pypi_versions("1.0a1", "1.0"), Ordering::Less);
    assert_eq!(compare_pypi_versions("1.0.dev1", "1.0a1"), Ordering::Less);
    assert_eq!(compare_pypi_versions("1.0rc1", "1.0b2"), Ordering::Greater);
    assert_eq!(compare_pypi_versions("1.0.post1", "1.0"), Ordering::Greater);
    assert_eq!(compare_pypi_versions("2.0", "10.0"), Ordering::Less);
    assert_eq!(compare_pypi_versions("1!1.0", "2.0"), Ordering::Greater);
    assert_eq!(compare_pypi_versions("v1.2+local", "1.2"), Ordering::Equal);
}

#[test]
fn pypi_requirements_are_checked_part_by_part() {
    assert!(pypi_version_satisfies("1.5", ">=1.0,<2.0"));
    assert!(!pypi_version_satisfies("2.0", ">=1.0,<2.0"));
    assert!(pypi_version_satisfies("1.5", ""));
    assert!(pypi_version_satisfies("1.5", "*"));
    assert!(pypi_version_satisfies("1.5", "(>=1.0)"));
    assert!(pypi_comparator_satisfied("1.5", "~=1.4"));
    assert!(pypi_comparator_satisfied("1.5", "!=1.4"));
    assert!(pypi_comparator_satisfied("1.5.0", "1.5"));
}

#[test]
fn prereleases_and_exact_pins() {
    assert!(pypi_version_is_prerelease("1.0rc1"));
    assert!(!pypi_version_is_prerelease("1.0"));
    assert!(!pypi_version_is_prerelease("1.0.post2"));
    assert!(is_exact_pypi_requirement(">=1, ==1.2.3"));
    assert!(!is_exact_pypi_requirement(">=1.2.3"));
}

#[test]
fn package_names_are_normalized() {
    let out: String = normalize_pypi_name(&chars("Foo__Bar.baz")).iter().collect();
    assert_eq!(out, "foo-bar-baz");
    let out: String = normalize_pypi_name(&chars("-A-")).iter().collect();
    assert_eq!(out, "-a-");
}

#[test]
fn release_controls_follow_all_none_and_names() {
    let mut control = PypiReleaseControl::new();
    apply_pypi_release_control(&mut control, "Foo_Bar, ,:all:");
    assert!(control.all);
    assert_eq!(control.packages, vec!["foo-bar".to_string()]);
    apply_pypi_release_control(&mut control, "baz,:none:");
    assert!(!control.all);
    assert!(control.packages.is_empty());
    apply_pypi_release_control(&mut control, ":none:,qux");
    assert!(!control.all);
    assert_eq!(control.packages, vec!["qux".to_string()]);
}

#[test]
fn applying_a_release_value_twice_is_applying_it_once() {
    let value = "a, B_c ,:all:,a";
    let mut once = PypiReleaseControl::new();
    apply_pypi_release_control(&mut once, value);
    let mut twice = PypiReleaseControl::new();
    apply_pypi_release_control(&mut twice, value);
    apply_pypi_release_control(&mut twice, value);
    assert_eq!(once.all, twice.all);
    assert_eq!(sorted(&once.packages), sorted(&twice.packages));
    assert_eq!(sorted(&once.packages), vec!["a".to_string(), "b-c".to_string()]);
}

#[test]
fn merged_release_controls_take_both_selections() {
    let mut target = PypiReleaseControl::new();
    apply_pypi_release_control(&mut target, "a");
    let mut source = PypiReleaseControl::new();
    apply_pypi_release_control(&mut source, "b,:all:,a");
    merge_pypi_release_control(&mut target, source);
    assert!(target.all);
    assert_eq!(sorted(&target.packages), vec!["a".to_string(), "b".to_string()]);
}

#[test]
fn binary_options_set_and_clear_modes() {
    let mut all = None;
    let mut packages = PypiBinaryPackages::new();
    apply_pypi_binary_option(&mut all, &mut packages, PypiBinaryMode::Binary, "NumPy,:all:");
    assert_eq!(all, Some(PypiBinaryMode::Binary));
    assert_eq!(packages.get(&chars("numpy")), Some(PypiBinaryMode::Binary));

    apply_pypi_binary_option(&mut all, &mut packages, PypiBinaryMode::Source, "numpy,lxml");
    assert_eq!(packages.get(&chars("numpy")), Some(PypiBinaryMode::Source));
    assert_eq!(packages.get(&chars("lxml")), Some(PypiBinaryMode::Source));

    apply_pypi_binary_option(&mut all, &mut packages, PypiBinaryMode::Source, ":none:");
    assert_eq!(all, Some(PypiBinaryMode::Binary));
    assert_eq!(packages.get(&chars("numpy")), None);
    assert_eq!(packages.get(&chars("lxml")), None);

    apply_pypi_binary_option(&mut all, &mut packages, PypiBinaryMode::Binary, ":none:");
    assert_eq!(all, None);
}
