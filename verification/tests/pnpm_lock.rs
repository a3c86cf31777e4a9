use omc_registry::npm_workspace::ProjectWorkspaces;
use omc_registry::pnpm_lock::{
    read_pnpm_lock_requirements, DependencySelection, PnpmImporter, PnpmImporterDependency, PnpmLock,
    PnpmPackageSnapshot, PnpmResolution,
};

fn chars(s: &str) -> Vec<char> {
    s.chars().collect()
}

fn text(v: &[char]) -> String {
    v.iter().collect()
}

fn version(v: &str) -> PnpmImporterDependency {
    PnpmImporterDependency::Version(v.to_string())
}

fn snapshot(integrity: Option<&str>, tarball: Option<&str>) -> PnpmPackageSnapshot {
    PnpmPackageSnapshot {
        resolution: Some(PnpmResolution {
            integrity: integrity.map(str::to_string),
            tarball: tarball.map(str::to_string),
        }),
    }
}

fn lock() -> PnpmLock {
    PnpmLock {
        importers: vec![(
            ".".to_string(),
            PnpmImporter {
                dependencies: vec![
                    ("a".to_string(), version("1.0.0")),
                    ("w".to_string(), version("link:../w")),
                ],
                dev_dependencies: vec![(
                    "d".to_string(),
                    PnpmImporterDependency::Detail { version: Some("2.0.0(peer@1)".to_string()) },
                )],
                optional_dependencies: vec![("o".to_string(), version("3.0.0"))],
            },
        )],
        packages: vec![
            ("/a@1.0.0".to_string(), snapshot(Some("sha512-a"), Some("https://r/a.tgz"))),
            ("/b@4.0.0".to_string(), snapshot(Some("  "), Some("http://r/b.tgz"))),
            ("/b@4.1.0".to_string(), PnpmPackageSnapshot { resolution: None }),
            ("not-a-key".to_string(), snapshot(None, None)),
        ],
    }
}

#[test]
fn pnpm_importers_name_locked_dependencies() {
    let (specs, _) = read_pnpm_lock_requirements(&lock(), DependencySelection { dev: false, optional: false, peer: true });
    assert_eq!(specs, vec![("a".to_string(), "1.0.0".to_string())]);
    let (specs, _) = read_pnpm_lock_requirements(&lock(), DependencySelection::with_dev(true));
    assert_eq!(
        specs,
        vec![
            ("a".to_string(), "1.0.0".to_string()),
            ("o".to_string(), "3.0.0".to_string()),
            ("d".to_string(), "2.0.0".to_string()),
        ]
    );
}

#[test]
fn pnpm_packages_pin_versions_integrities_and_tarballs() {
    let (_, pinned) = read_pnpm_lock_requirements(&lock(), DependencySelection::with_dev(true));
    assert_eq!(pinned.constraints.get(&chars("npm:a")).map(|v| text(&v)), Some("1.0.0".to_string()));
    assert_eq!(pinned.constraints.get(&chars("npm:b")), None);
    assert_eq!(pinned.constraints.get(&chars("npm:d")).map(|v| text(&v)), Some("2.0.0".to_string()));
    assert_eq!(
        pinned.npm_resolved.get(&chars("npm:a")).map(|v| text(&v)),
        Some("https://r/a.tgz".to_string())
    );
    let integrities: Vec<String> = pinned
        .npm_integrities
        .entries
        .iter()
        .find(|(k, _)| k == "npm:a")
        .map(|(_, v)| v.clone())
        .unwrap_or_default();
    assert_eq!(integrities, vec!["sha512-a".to_string()]);
}

#[test]
fn selections_and_workspace_patterns() {
    let s = DependencySelection::with_dev(false);
    assert!(!s.dev && s.optional && s.peer);
    let listed = ProjectWorkspaces::Patterns(vec!["packages/*".to_string()]);
    assert_eq!(listed.patterns(), &vec!["packages/*".to_string()]);
    let table = ProjectWorkspaces::Config { packages: vec!["apps/*".to_string()] };
    assert_eq!(table.patterns(), &vec!["apps/*".to_string()]);
}
