use omc_registry::npm_dependencies::{
    current_npm_cpu, current_npm_os, npm_bundled_dependency_names, npm_dependency_fields,
    npm_platform_fields, NpmDependency, NpmStringList,
};
use omc_registry::set_map::PinMap;

fn map(entries: &[(&str, &str)]) -> PinMap {
    PinMap { entries: entries.iter().map(|(k, v)| (k.to_string(), v.to_string())).collect() }
}

fn dep(name: &str, requirement: &str, optional: bool, peer: bool) -> NpmDependency {
    NpmDependency { name: name.to_string(), requirement: requirement.to_string(), optional, peer }
}

fn list(values: &[&str]) -> NpmStringList {
    NpmStringList::Many(values.iter().map(|v| v.to_string()).collect())
}

#[test]
fn bundled_names_come_from_either_field() {
    let deps = map(&[("b", "^1"), ("a", "^2")]);
    let opts = map(&[("c", "^3")]);
    assert_eq!(
        npm_bundled_dependency_names(Some(&deps), Some(&opts), Some(&NpmStringList::Bool(true)), None),
        vec!["a".to_string(), "b".to_string(), "c".to_string()]
    );
    assert!(npm_bundled_dependency_names(Some(&deps), None, Some(&NpmStringList::Bool(false)), Some(&list(&["a"]))).is_empty());
    assert_eq!(
        npm_bundled_dependency_names(Some(&deps), None, None, Some(&list(&["z", "a", "z"]))),
        vec!["a".to_string(), "z".to_string()]
    );
    assert_eq!(
        npm_bundled_dependency_names(None, None, Some(&NpmStringList::One("x".to_string())), None),
        vec!["x".to_string()]
    );
    assert!(npm_bundled_dependency_names(Some(&deps), None, None, None).is_empty());
}

#[test]
fn runtime_dependencies_are_sorted_and_once() {
    let deps = map(&[("zeta", "^1.0.0"), ("alpha", "^2.0.0"), ("bundled", "^1.0.0")]);
    let opts = map(&[("alpha", "^2.0.0"), ("fsevents", "^2.3.0")]);
    let peers = map(&[("react", ">=17"), ("react-dom", ">=17")]);
    let meta = vec![("react-dom".to_string(), true)];
    let listed = npm_dependency_fields(
        Some(&deps),
        Some(&opts),
        Some(&list(&["bundled"])),
        None,
        Some(&peers),
        &meta,
    );
    assert_eq!(
        listed,
        vec![
            dep("alpha", "^2.0.0", false, false),
            dep("fsevents", "^2.3.0", true, false),
            dep("react", ">=17", false, true),
            dep("zeta", "^1.0.0", false, false),
        ]
    );
    assert!(npm_dependency_fields(None, None, None, None, None, &Vec::new()).is_empty());
}

#[test]
fn platform_lists() {
    assert_eq!(current_npm_os("macos"), "darwin");
    assert_eq!(current_npm_os("windows"), "win32");
    assert_eq!(current_npm_os("linux"), "linux");
    assert_eq!(current_npm_cpu("x86_64"), "x64");
    assert_eq!(current_npm_cpu("i686"), "ia32");
    assert_eq!(current_npm_cpu("aarch64"), "arm64");
    assert_eq!(current_npm_cpu("riscv64"), "riscv64");

    let os = list(&["darwin", "linux"]);
    assert!(npm_platform_fields(Some(&os), None, None, "linux", "x64", Some("glibc")));
    assert!(!npm_platform_fields(Some(&os), None, None, "win32", "x64", None));
    let not_arm = list(&["!arm64"]);
    assert!(!npm_platform_fields(None, Some(&not_arm), None, "linux", "arm64", None));
    let musl = list(&["musl"]);
    assert!(!npm_platform_fields(None, None, Some(&musl), "linux", "x64", None));
    assert!(npm_platform_fields(None, None, Some(&list(&["!musl"])), "darwin", "arm64", None));
}
