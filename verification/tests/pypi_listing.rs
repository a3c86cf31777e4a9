use omc_registry::error::OmcRegistryError;
use omc_registry::pypi_listing::{
    pypi_prerelease_policy_for_name, pypi_version_listing, PypiPrereleasePolicy,
};
use omc_registry::pypi_release::{apply_pypi_release_control, PypiReleaseControl, PypiReleaseControls};

fn strings(v: &[&str]) -> Vec<String> {
    v.iter().map(|s| s.to_string()).collect()
}

fn controls(all_releases: &str, only_final: &str) -> PypiReleaseControls {
    let mut c = PypiReleaseControls {
        all_releases: PypiReleaseControl::new(),
        only_final: PypiReleaseControl::new(),
    };
    apply_pypi_release_control(&mut c.all_releases, all_releases);
    apply_pypi_release_control(&mut c.only_final, only_final);
    c
}

#[test]
fn listings_are_newest_first_without_prereleases_by_default() {
    let versions = strings(&["1.0", "2.0rc1", "1.5", "1.0.0", "1.5"]);
    let listing = pypi_version_listing("demo", "pypi:demo", &versions, PypiPrereleasePolicy::Default).unwrap();
    assert_eq!(listing.name, "demo");
    assert_eq!(listing.versions, strings(&["1.5", "1.0", "1.0.0"]));

    let listing = pypi_version_listing("demo", "pypi:demo", &versions, PypiPrereleasePolicy::Allow).unwrap();
    assert_eq!(listing.versions, strings(&["2.0rc1", "1.5", "1.0", "1.0.0"]));

    let listing = pypi_version_listing("demo", "pypi:demo", &versions, PypiPrereleasePolicy::OnlyFinal).unwrap();
    assert_eq!(listing.versions, strings(&["1.5", "1.0", "1.0.0"]));
}

#[test]
fn prereleases_are_listed_when_nothing_else_is() {
    let versions = strings(&["1.0a1", "1.0b1"]);
    let listing = pypi_version_listing("demo", "pypi:demo", &versions, PypiPrereleasePolicy::Default).unwrap();
    assert_eq!(listing.versions, strings(&["1.0b1", "1.0a1"]));
    let listing = pypi_version_listing("demo", "pypi:demo", &versions, PypiPrereleasePolicy::OnlyFinal).unwrap();
    assert!(listing.versions.is_empty());
}

#[test]
fn no_versions_is_package_not_found() {
    assert!(matches!(
        pypi_version_listing("x", "pypi:x", &Vec::new(), PypiPrereleasePolicy::Allow),
        Err(OmcRegistryError::PackageNotFound(ref m)) if m == "pypi:x"
    ));
}

#[test]
fn prerelease_policy_prefers_only_final() {
    assert_eq!(
        pypi_prerelease_policy_for_name(true, &controls(":all:", "My_Pkg"), "my-pkg"),
        PypiPrereleasePolicy::OnlyFinal
    );
    assert_eq!(
        pypi_prerelease_policy_for_name(false, &controls("other,My.Pkg", ""), "my-pkg"),
        PypiPrereleasePolicy::Allow
    );
    assert_eq!(
        pypi_prerelease_policy_for_name(true, &controls("", ""), "x"),
        PypiPrereleasePolicy::Allow
    );
    assert_eq!(
        pypi_prerelease_policy_for_name(false, &controls("", "other"), "x"),
        PypiPrereleasePolicy::Default
    );
}
