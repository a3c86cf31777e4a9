use omc_registry::error::OmcRegistryError;
use omc_registry::pypi_choose::{choose_pypi_version, PypiRoot};
use omc_registry::pypi_files::{PypiDigests, PypiFile, PythonWheelCompatibility};
use omc_registry::pypi_listing::PypiPrereleasePolicy;
use omc_registry::pypi_release::PypiBinaryMode;

fn file(name: &str, kind: &str, requires_python: Option<&str>) -> PypiFile {
    PypiFile {
        filename: name.to_string(),
        packagetype: kind.to_string(),
        url: format!("https://files.example/{name}"),
        digests: PypiDigests { sha256: "00".to_string() },
        requires_python: requires_python.map(str::to_string),
    }
}

fn wheel(version: &str, requires_python: Option<&str>) -> PypiFile {
    file(&format!("pkg-{version}-py3-none-any.whl"), "bdist_wheel", requires_python)
}

fn root() -> PypiRoot {
    PypiRoot {
        releases: vec![
            ("1.0".to_string(), vec![file("pkg-1.0.tar.gz", "sdist", None)]),
            ("2.0".to_string(), vec![wheel("2.0", None)]),
            ("2.1b1".to_string(), vec![wheel("2.1b1", None)]),
            ("3.0".to_string(), vec![wheel("3.0", Some(">=3.12"))]),
        ],
    }
}

fn linux_311() -> PythonWheelCompatibility {
    PythonWheelCompatibility::new(3, 11, "cpython", "cpython-311", "linux_x86_64", "x86_64", "")
}

fn choose_for(
    requirement: &str,
    mode: Option<PypiBinaryMode>,
    policy: PypiPrereleasePolicy,
) -> Result<String, OmcRegistryError> {
    let c = linux_311();
    choose_pypi_version("pkg", requirement, &root(), Some("3.11.0"), Some(&c), None, mode, policy)
}

#[test]
fn highest_admitted_final_release_is_chosen() {
    assert_eq!(choose_for(">=1.0", None, PypiPrereleasePolicy::Default).unwrap(), "2.0");
    assert_eq!(choose_for("<2", None, PypiPrereleasePolicy::Default).unwrap(), "1.0");
}

#[test]
fn prereleases_come_in_when_allowed_or_named() {
    assert_eq!(choose_for(">=1.0", None, PypiPrereleasePolicy::Allow).unwrap(), "2.1b1");
    assert_eq!(choose_for(">=2.1b1", None, PypiPrereleasePolicy::Default).unwrap(), "2.1b1");
}

#[test]
fn binary_mode_limits_the_releases() {
    assert_eq!(
        choose_for(">=1.0", Some(PypiBinaryMode::Source), PypiPrereleasePolicy::Default).unwrap(),
        "1.0"
    );
    assert_eq!(
        choose_for(">=1.0", Some(PypiBinaryMode::Binary), PypiPrereleasePolicy::Default).unwrap(),
        "2.0"
    );
}

#[test]
fn no_qualifying_release_is_an_unsatisfied_requirement() {
    let refusal = OmcRegistryError::UnsatisfiedRequirement {
        name: "pkg".to_string(),
        requirement: ">=4".to_string(),
    };
    assert_eq!(choose_for(">=4", None, PypiPrereleasePolicy::Default).unwrap_err(), refusal);
    let only_final = choose_for(">=2.1b1", None, PypiPrereleasePolicy::OnlyFinal).unwrap_err();
    assert_eq!(
        only_final,
        OmcRegistryError::UnsatisfiedRequirement {
            name: "pkg".to_string(),
            requirement: ">=2.1b1".to_string(),
        }
    );
}

#[test]
fn equal_versions_choose_the_last_listed() {
    let c = linux_311();
    let root = PypiRoot {
        releases: vec![
            ("1.0".to_string(), vec![wheel("1.0", None)]),
            ("1.0.0".to_string(), vec![wheel("1.0.0", None)]),
        ],
    };
    let chosen = choose_pypi_version(
        "pkg",
        ">=1",
        &root,
        None,
        Some(&c),
        None,
        None,
        PypiPrereleasePolicy::Default,
    );
    assert_eq!(chosen.unwrap(), "1.0.0");
}

#[test]
fn checked_choice_refuses_unreadable_versions() {
    let empty = PypiRoot { releases: Vec::new() };
    let r = omc_registry::pypi_choose::choose_pypi_version_checked(
        "pkg", ">=1", &empty, None, None, None, None, PypiPrereleasePolicy::Default,
    );
    assert!(matches!(r, Some(Err(_))));
    let odd = PypiRoot { releases: vec![("1.0\u{e9}".to_string(), vec![file("pkg-1.0.tar.gz", "sdist", None)])] };
    let r = omc_registry::pypi_choose::choose_pypi_version_checked(
        "pkg", ">=1", &odd, None, None, None, None, PypiPrereleasePolicy::Default,
    );
    assert!(r.is_none());
    let r = omc_registry::pypi_choose::choose_pypi_version_checked(
        "pkg", ">=1.5", &root(), None, None, None, None, PypiPrereleasePolicy::Default,
    );
    assert_eq!(r, Some(Ok("3.0".to_string())));
}
