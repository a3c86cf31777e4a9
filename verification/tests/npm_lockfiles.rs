use omc_registry::npm_lock::{
    npm_package_name_from_yarn_selector, parse_yarn_lock_selectors, read_package_lock_requirements,
    read_yarn_lock_requirements, yarn_lock_value, NpmPackageLock, NpmPackageLockDependency,
    NpmPackageLockPackage,
};
use omc_registry::npm_names::{
    npm_package_name_from_lock_path, pnpm_locked_version, pnpm_package_key_name_and_version,
};
use omc_registry::set_map::SetMap;

fn chars(s: &str) -> Vec<char> {
    s.chars().collect()
}

fn text(v: &[char]) -> String {
    v.iter().collect()
}

fn set_of(map: &SetMap, key: &str) -> Option<Vec<String>> {
    map.entries.iter().find(|(k, _)| k == key).map(|(_, values)| {
        let mut values = values.clone();
        values.sort();
        values
    })
}

const YARN_LOCK: &str = "# yarn lockfile v1\n\
\n\
\"left-pad@^1.3.0\", left-pad@~1.3.0:\n\
  version \"1.3.0\"\n\
  resolved \"https://registry.yarnpkg.com/left-pad/-/left-pad-1.3.0.tgz#abc\"\n\
  integrity sha512-XYZ\n\
\n\
lodash@^4.0.0:\n\
  version \"4.17.21\"\n\
\n\
lodash@^3.0.0:\n\
  version \"3.10.1\"\n\
\n\
local-dep@file:../local:\n\
  version \"0.1.0\"\n\
  resolved \"file:../local\"\n";

#[test]
fn yarn_lock_pins_packages_with_one_version() {
    let pinned = read_yarn_lock_requirements(YARN_LOCK);
    assert_eq!(
        pinned.constraints.get(&chars("npm:left-pad")).map(|v| text(&v)),
        Some("1.3.0".to_string())
    );
    assert_eq!(pinned.constraints.get(&chars("npm:lodash")), None);
    assert_eq!(
        pinned.constraints.get(&chars("npm:local-dep")).map(|v| text(&v)),
        Some("0.1.0".to_string())
    );
    assert_eq!(
        set_of(&pinned.npm_integrities, "npm:left-pad"),
        Some(vec!["sha512-XYZ".to_string()])
    );
    assert_eq!(
        pinned.npm_resolved.get(&chars("npm:left-pad")).map(|v| text(&v)),
        Some("https://registry.yarnpkg.com/left-pad/-/left-pad-1.3.0.tgz#abc".to_string())
    );
    assert_eq!(pinned.npm_resolved.get(&chars("npm:local-dep")), None);
}

#[test]
fn yarn_selectors_split_outside_quotes() {
    let selectors: Vec<String> = parse_yarn_lock_selectors(&chars("\"a@^1, b\", c@2 ,, \"d\\\"e\""))
        .iter()
        .map(|s| text(s))
        .collect();
    assert_eq!(selectors, vec!["a@^1, b".to_string(), "c@2".to_string(), "d\"e".to_string()]);
}

#[test]
fn yarn_values_unquote() {
    assert_eq!(text(&yarn_lock_value(&chars(" \"a\\\"b\\\\c\" "))), "a\"b\\c");
    assert_eq!(text(&yarn_lock_value(&chars("plain"))), "plain");
    assert_eq!(text(&yarn_lock_value(&chars("\""))), "\"");
}

#[test]
fn yarn_selector_names() {
    assert_eq!(
        npm_package_name_from_yarn_selector(&chars("@scope/pkg@^1.0.0")).map(|v| text(&v)),
        Some("@scope/pkg".to_string())
    );
    assert_eq!(
        npm_package_name_from_yarn_selector(&chars("alias@npm:real@1")).map(|v| text(&v)),
        Some("alias".to_string())
    );
    assert_eq!(npm_package_name_from_yarn_selector(&chars("@scope")), None);
    assert_eq!(npm_package_name_from_yarn_selector(&chars("nover")), None);
}

#[test]
fn lock_paths_and_pnpm_keys() {
    assert_eq!(
        npm_package_name_from_lock_path("node_modules/a/node_modules/@s/b").map(|v| text(&v)),
        Some("@s/b".to_string())
    );
    assert_eq!(npm_package_name_from_lock_path(""), None);
    assert_eq!(pnpm_locked_version("1.2.3(react@18.0.0)").map(|v| text(&v)), Some("1.2.3".to_string()));
    assert_eq!(pnpm_locked_version("link:../x"), None);
    let (name, version) = pnpm_package_key_name_and_version("/@s/pkg@2.0.0(peer@1)").unwrap();
    assert_eq!((text(&name), text(&version)), ("@s/pkg".to_string(), "2.0.0".to_string()));
    assert_eq!(pnpm_package_key_name_and_version("@nover"), None);
}

fn package(version: &str, integrity: Option<&str>, resolved: Option<&str>) -> NpmPackageLockPackage {
    NpmPackageLockPackage {
        version: Some(version.to_string()),
        integrity: integrity.map(str::to_string),
        resolved: resolved.map(str::to_string),
    }
}

fn dependency(version: &str, nested: Vec<(String, NpmPackageLockDependency)>) -> NpmPackageLockDependency {
    NpmPackageLockDependency {
        version: Some(version.to_string()),
        integrity: None,
        resolved: None,
        dependencies: nested,
    }
}

#[test]
fn package_lock_pins_packages_with_one_version() {
    let lock = NpmPackageLock {
        packages: vec![
            (String::new(), package("9.9.9", None, None)),
            (
                "node_modules/a".to_string(),
                package("1.0.0", Some("sha512-a"), Some("https://r/a-1.0.0.tgz")),
            ),
            ("node_modules/b/node_modules/a".to_string(), package("2.0.0", None, None)),
            ("node_modules/@s/c".to_string(), package("3.0.0", None, Some("file:../c"))),
            ("packages/local".to_string(), package("0.0.1", None, None)),
        ],
        dependencies: vec![(
            "d".to_string(),
            dependency("4.0.0", vec![("e".to_string(), dependency("5.0.0", Vec::new()))]),
        )],
    };
    let pinned = read_package_lock_requirements(&lock);
    assert_eq!(pinned.constraints.get(&chars("npm:a")), None);
    assert_eq!(
        pinned.constraints.get(&chars("npm:@s/c")).map(|v| text(&v)),
        Some("3.0.0".to_string())
    );
    assert_eq!(
        pinned.npm_resolved.get(&chars("npm:@s/c")).map(|v| text(&v)),
        Some("file:../c".to_string())
    );
    assert_eq!(
        pinned.constraints.get(&chars("npm:d")).map(|v| text(&v)),
        Some("4.0.0".to_string())
    );
    assert_eq!(
        pinned.constraints.get(&chars("npm:e")).map(|v| text(&v)),
        Some("5.0.0".to_string())
    );
    assert_eq!(pinned.constraints.get(&chars("npm:local")), None);
    assert_eq!(set_of(&pinned.npm_integrities, "npm:a"), None);
}
