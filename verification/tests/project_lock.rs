use omc_registry::entry_source::{Ecosystem, LockedPackage, PackageSpec};
use omc_registry::error::OmcRegistryError;
use omc_registry::npm_choose::{npm_before_form, resolve_cutoff, CutoffForm};
use omc_registry::pypi_candidates::pypi_prior_to_form;
use omc_registry::pypi_key::pypi_version_readable;
use omc_registry::resolve_plan::{
    npm_tarball_filename, npm_version_plan, pypi_resolution_route, pypi_version_plan, PypiRoute, VersionPlan,
};
use omc_registry::pypi_version::compare_pypi_versions;
use std::cmp::Ordering;
use omc_registry::project_lock::{
    check_locked_requests, distinct_requested_roots, enforce_pypi_hashes_for_specs, install_directories,
    RequestedSpec,
    check_archive_digests, check_pypi_lock, install_locked_project, install_project, lock_project, pypi_requirement_label,
    read_script_requirement_files, InstallCounts, PypiCheckIssue,
};

fn spec(name: &str, version: Option<&str>) -> PackageSpec {
    PackageSpec {
        ecosystem: Ecosystem::Pypi,
        name: name.to_string(),
        version: version.map(str::to_string),
        extras: Vec::new(),
        direct_url: None,
    }
}

fn locked(ecosystem: Ecosystem, name: &str, version: &str, dependencies: Vec<PackageSpec>) -> LockedPackage {
    LockedPackage {
        ecosystem,
        name: name.to_string(),
        version: version.to_string(),
        source_url: format!("https://files.example/{name}-{version}"),
        sha256: String::new(),
        accepted: true,
        dependencies,
    }
}

#[test]
fn check_reports_missing_and_incompatible_requirements() {
    let lock = vec![
        locked(
            Ecosystem::Pypi,
            "app",
            "1.0",
            vec![spec("requests", Some(">=2.0")), spec("idna", Some(">=3")), spec("six", None)],
        ),
        locked(Ecosystem::Pypi, "Requests", "1.5", Vec::new()),
        locked(Ecosystem::Pypi, "idna", "3.4", Vec::new()),
    ];
    let issues = check_pypi_lock(&lock);
    assert_eq!(
        issues,
        vec![
            PypiCheckIssue::Incompatible {
                package: "app".to_string(),
                version: "1.0".to_string(),
                requirement: "requests>=2.0".to_string(),
                installed_name: "Requests".to_string(),
                installed_version: "1.5".to_string(),
            },
            PypiCheckIssue::Missing {
                package: "app".to_string(),
                version: "1.0".to_string(),
                requirement: "six".to_string(),
            },
        ]
    );
}

#[test]
fn check_passes_over_other_ecosystems() {
    let mut npm_dependency = spec("left-pad", None);
    npm_dependency.ecosystem = Ecosystem::Npm;
    let lock = vec![
        locked(Ecosystem::Npm, "web", "1.0.0", vec![spec("missing", None)]),
        locked(Ecosystem::Pypi, "app", "1.0", vec![npm_dependency, spec("idna", Some("==3.4"))]),
        locked(Ecosystem::Pypi, "idna", "3.4", Vec::new()),
    ];
    assert!(check_pypi_lock(&lock).is_empty());
    let without_npm = vec![
        locked(Ecosystem::Pypi, "app", "1.0", vec![spec("idna", Some("==3.4"))]),
        locked(Ecosystem::Pypi, "idna", "3.4", Vec::new()),
    ];
    assert_eq!(check_pypi_lock(&lock), check_pypi_lock(&without_npm));
}

#[test]
fn check_holds_direct_urls() {
    let mut direct = spec("pkg", None);
    direct.direct_url = Some("https://elsewhere/pkg.whl".to_string());
    let lock = vec![
        locked(Ecosystem::Pypi, "app", "1.0", vec![direct]),
        locked(Ecosystem::Pypi, "pkg", "1.0", Vec::new()),
    ];
    assert_eq!(check_pypi_lock(&lock).len(), 1);
}

#[test]
fn requirement_labels() {
    let mut s = spec("pkg", Some(">=1"));
    assert_eq!(pypi_requirement_label(&s), "pkg>=1");
    s.extras = vec!["a".to_string(), "b".to_string()];
    assert_eq!(pypi_requirement_label(&s), "pkg[a,b]>=1");
    s.direct_url = Some("https://x/pkg.whl".to_string());
    assert_eq!(pypi_requirement_label(&s), "pkg[a,b] @ https://x/pkg.whl");
}

#[test]
fn locking_drops_stale_entries() {
    let lock = vec![
        locked(Ecosystem::Pypi, "a", "1.0", Vec::new()),
        locked(Ecosystem::Npm, "b", "2.0.0", Vec::new()),
        locked(Ecosystem::Pypi, "c", "3.0", Vec::new()),
    ];
    let reports = vec![
        locked(Ecosystem::Pypi, "c", "3.0", Vec::new()),
        locked(Ecosystem::Pypi, "a", "1.0", Vec::new()),
    ];
    let kept = lock_project(lock, &reports);
    let names: Vec<&str> = kept.iter().map(|p| p.name.as_str()).collect();
    assert_eq!(names, vec!["a", "c"]);
}

#[test]
fn install_counts_packages_and_refuses_blocked_ones() {
    let mut lock = vec![
        locked(Ecosystem::Pypi, "a", "1.0", Vec::new()),
        locked(Ecosystem::Npm, "b", "2.0.0", Vec::new()),
        locked(Ecosystem::Pypi, "c", "3.0", Vec::new()),
    ];
    assert_eq!(install_project(&lock), Ok(InstallCounts { npm_packages: 1, pypi_packages: 2 }));
    lock[1].accepted = false;
    assert_eq!(install_project(&lock), Err(OmcRegistryError::BlockedLockedPackage("npm:b@2.0.0".to_string())));
}

#[test]
fn install_from_lock_takes_retained_packages_only() {
    let mut lock = vec![
        locked(Ecosystem::Pypi, "a", "1.0", Vec::new()),
        locked(Ecosystem::Npm, "b", "2.0.0", Vec::new()),
        locked(Ecosystem::Pypi, "c", "3.0", Vec::new()),
    ];
    lock[1].accepted = false;
    let retained = vec!["pypi:a@1.0".to_string(), "pypi:c@3.0".to_string()];
    assert_eq!(
        install_locked_project(&lock, &Vec::new(), &retained),
        Ok(InstallCounts { npm_packages: 0, pypi_packages: 2 })
    );
    let retained = vec!["npm:b@2.0.0".to_string()];
    assert_eq!(
        install_locked_project(&lock, &Vec::new(), &retained),
        Err(OmcRegistryError::BlockedLockedPackage("npm:b@2.0.0".to_string()))
    );
}

#[test]
fn script_metadata_blocks_in_order() {
    let scripts = vec![
        "# /// script\n# dependencies = [\"rich\"]\n# ///\nprint(1)\n".to_string(),
        "print(2)\n".to_string(),
    ];
    assert_eq!(
        read_script_requirement_files(&scripts),
        Ok(vec!["dependencies = [\"rich\"]\n".to_string()])
    );
    let twice = vec!["# /// script\n# ///\n# /// script\n# ///\n".to_string()];
    assert!(matches!(
        read_script_requirement_files(&twice),
        Err(OmcRegistryError::UnsupportedRequirement(_))
    ));
}

#[test]
fn cutoff_forms_and_instants() {
    assert_eq!(resolve_cutoff(CutoffForm::DaysAgo(2), (1_000_000, 5), None), (1_000_000 - 2 * 86400, 5));
    assert_eq!(resolve_cutoff(CutoffForm::LocalTime((10, 0)), (0, 0), Some((7, 1))), (7, 1));
    assert_eq!(resolve_cutoff(CutoffForm::LocalTime((10, 0)), (0, 0), None), (10, 0));
    assert_eq!(npm_before_form("2024-01-02"), Ok(CutoffForm::Instant((1704153600, 0))));
    assert!(matches!(npm_before_form("2024-01-02 03:04:05"), Ok(CutoffForm::LocalTime(_))));
    assert_eq!(pypi_prior_to_form(" P3D "), Ok(CutoffForm::DaysAgo(3)));
    assert!(matches!(pypi_prior_to_form("2024-01-02"), Ok(CutoffForm::LocalTime(_))));
}

#[test]
fn pypi_versions_are_tested_for_readability() {
    assert!(pypi_version_readable("1.0"));
    assert!(pypi_version_readable("2.0rc1.post3"));
    assert!(pypi_version_readable("v1.0+local"));
}

const ABC_SHA256: &str = "ba7816bf8f01cfea414140de5dae2223b00361a396177a9cb410ff61f20015ad";

#[test]
fn downloaded_archives_are_held_to_their_digests() {
    assert_eq!(check_archive_digests("pkg", b"abc", "aa", Some(&ABC_SHA256.to_uppercase()), Some("AA"), None), Ok(()));
    assert_eq!(
        check_archive_digests("pkg", b"abc", "aa", Some("00"), None, None),
        Err(OmcRegistryError::DigestMismatch {
            name: "pkg".to_string(),
            expected: "00".to_string(),
            actual: ABC_SHA256.to_string(),
        })
    );
    assert_eq!(
        check_archive_digests("pkg", b"abc", "aa", None, Some("bb"), None),
        Err(OmcRegistryError::DigestMismatch {
            name: "pkg".to_string(),
            expected: "sha1:bb".to_string(),
            actual: "sha1:aa".to_string(),
        })
    );
    let allowed = vec!["11".to_string(), "22".to_string()];
    assert_eq!(
        check_archive_digests("pkg", b"abc", "aa", None, None, Some(&allowed)),
        Err(OmcRegistryError::DigestMismatch {
            name: "pkg".to_string(),
            expected: "11,22".to_string(),
            actual: ABC_SHA256.to_string(),
        })
    );
    let allowed = vec![ABC_SHA256.to_string()];
    assert_eq!(check_archive_digests("pkg", b"abc", "aa", None, None, Some(&allowed)), Ok(()));
}

fn request(spec: PackageSpec, requested: &str, requirement: Option<&str>, hashes: Option<Vec<&str>>) -> RequestedSpec {
    RequestedSpec {
        spec,
        requested: requested.to_string(),
        requirement: requirement.map(str::to_string),
        hashes: hashes.map(|h| h.into_iter().map(str::to_string).collect()),
    }
}

#[test]
fn out_of_date_lock_is_refused() {
    let lock = vec![
        locked(Ecosystem::Pypi, "Requests", "2.31.0", Vec::new()),
        locked(Ecosystem::Npm, "left-pad", "1.3.0", Vec::new()),
    ];
    let mut npm_spec = spec("left-pad", None);
    npm_spec.ecosystem = Ecosystem::Npm;
    let ok = vec![
        request(spec("requests", None), "requests", Some(">=2"), None),
        request(npm_spec, "left-pad@^1.0.0", Some("^1.0.0"), None),
    ];
    assert_eq!(check_locked_requests(&lock, &ok), Ok(()));
    let stale = vec![
        request(spec("requests", None), "requests", Some(">=2"), None),
        request(spec("requests", None), "requests>=3", Some(">=3"), None),
    ];
    assert_eq!(
        check_locked_requests(&lock, &stale),
        Err(OmcRegistryError::LockfileOutOfDate("requests>=3".to_string()))
    );
    let retained = vec!["pypi:Requests@2.31.0".to_string()];
    assert_eq!(
        install_locked_project(&lock, &stale, &retained),
        Err(OmcRegistryError::LockfileOutOfDate("requests>=3".to_string()))
    );
    let pinned = vec![request(spec("requests", None), "requests", None, Some(vec!["other"]))];
    assert!(check_locked_requests(&lock, &pinned).is_err());
}

#[test]
fn require_hashes_needs_hashes_and_pins() {
    let ok = vec![request(spec("a", None), "a==1.0", Some("==1.0"), Some(vec!["h"]))];
    assert_eq!(enforce_pypi_hashes_for_specs(&ok), Ok(()));
    let unhashed = vec![request(spec("a", None), "a==1.0", Some("==1.0"), None)];
    assert_eq!(
        enforce_pypi_hashes_for_specs(&unhashed),
        Err(OmcRegistryError::UnsupportedRequirement("--require-hashes needs a hash for `a==1.0`".to_string()))
    );
    let unpinned = vec![request(spec("a", None), "a>=1.0", Some(">=1.0"), Some(vec!["h"]))];
    assert_eq!(
        enforce_pypi_hashes_for_specs(&unpinned),
        Err(OmcRegistryError::UnsupportedRequirement("--require-hashes needs an exact pin for `a>=1.0`".to_string()))
    );
    let mut direct = spec("a", None);
    direct.direct_url = Some("https://x/a.whl".to_string());
    assert_eq!(enforce_pypi_hashes_for_specs(&vec![request(direct, "a @ https://x/a.whl", None, Some(vec!["h"]))]), Ok(()));
}

#[test]
fn repeated_requests_are_resolved_once() {
    let requested = vec!["a".to_string(), "b".to_string(), "a".to_string(), "c".to_string(), "b".to_string()];
    assert_eq!(distinct_requested_roots(&requested), vec![0, 1, 3]);
}

#[test]
fn install_directories_follow_the_target() {
    let d = install_directories("/p", None, None);
    assert_eq!(d.node_modules, "/p/node_modules");
    assert_eq!(d.npm_bin_dir, "/p/node_modules/.bin");
    assert_eq!(d.python_site_packages, "/p/.omc/python/site-packages");
    assert_eq!(d.python_bin_dir, "/p/.omc/python/bin");
    assert_eq!(d.python_sdists_dir, "/p/.omc/python/sdists");
    let d = install_directories("/p", Some("vendor"), None);
    assert_eq!(d.python_site_packages, "/p/vendor");
    assert_eq!(d.python_bin_dir, "/p/vendor/bin");
    let d = install_directories("/p", Some("/abs/site"), Some("scripts"));
    assert_eq!(d.python_site_packages, "/abs/site");
    assert_eq!(d.python_bin_dir, "/p/scripts");
}

#[test]
fn resolution_plans() {
    assert_eq!(npm_version_plan(Some("1.2.3"), false), VersionPlan::Exact("1.2.3".to_string()));
    assert_eq!(npm_version_plan(Some("1.2.3"), true), VersionPlan::Choose("1.2.3".to_string()));
    assert_eq!(npm_version_plan(Some("^1.2.3"), false), VersionPlan::Choose("^1.2.3".to_string()));
    assert_eq!(npm_version_plan(None, false), VersionPlan::Choose("latest".to_string()));
    assert_eq!(pypi_version_plan(Some("2.31.0")), VersionPlan::Exact("2.31.0".to_string()));
    assert_eq!(pypi_version_plan(Some(">=2")), VersionPlan::Choose(">=2".to_string()));
    assert_eq!(pypi_version_plan(None), VersionPlan::Choose("*".to_string()));
    assert_eq!(pypi_resolution_route(false, false, false, Vec::new()), PypiRoute::JsonApi);
    assert_eq!(pypi_resolution_route(true, true, false, vec!["x".to_string()]), PypiRoute::FindLinksOnly);
    assert_eq!(
        pypi_resolution_route(true, false, false, Vec::new()),
        PypiRoute::FindLinksAndIndexes(vec!["https://pypi.org/simple/".to_string()])
    );
    assert_eq!(
        pypi_resolution_route(false, false, false, vec!["https://i/".to_string()]),
        PypiRoute::IndexesOnly(vec!["https://i/".to_string()])
    );
    assert_eq!(npm_tarball_filename("https://r/a/-/a-1.0.0.tgz"), "a-1.0.0.tgz");
    assert_eq!(npm_tarball_filename("plain"), "plain");
}

#[test]
fn pypi_comparison_ignores_case_local_labels_and_leading_v() {
    assert_eq!(compare_pypi_versions("1.0RC1", "1.0rc1"), Ordering::Equal);
    assert_eq!(compare_pypi_versions("1.0+local", "1.0"), Ordering::Equal);
    assert_eq!(compare_pypi_versions("v1.0", "1.0"), Ordering::Equal);
    assert_eq!(compare_pypi_versions("1.0", "1.0.0"), Ordering::Equal);
}
