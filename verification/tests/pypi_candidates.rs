use std::time::{SystemTime, UNIX_EPOCH};

use omc_registry::error::OmcRegistryError;
use omc_registry::pypi_candidates::{
    choose_pypi_candidate, pypi_candidate_file, filter_pypi_candidates_uploaded_prior_to, parse_pypi_duration_days,
    parse_pypi_upload_time, parse_pypi_uploaded_prior_to, pypi_candidate_matches_binary_mode,
    PypiSimpleCandidate,
};
use omc_registry::pypi_files::PythonWheelCompatibility;
use omc_registry::pypi_listing::PypiPrereleasePolicy;
use omc_registry::pypi_release::PypiBinaryMode;

fn candidate(version: &str, sdist: bool, upload_time: Option<&str>, required: bool) -> PypiSimpleCandidate {
    let filename = if sdist {
        format!("pkg-{version}.tar.gz")
    } else {
        format!("pkg-{version}-py3-none-any.whl")
    };
    PypiSimpleCandidate {
        url: format!("https://files.example/{filename}"),
        download_url: None,
        local_path: None,
        filename,
        version: version.to_string(),
        sha256: None,
        sdist,
        upload_time: upload_time.map(str::to_string),
        upload_time_required: required,
    }
}

fn names(cs: &[PypiSimpleCandidate]) -> Vec<String> {
    cs.iter().map(|c| c.filename.clone()).collect()
}

const JAN2: (i64, u32) = (1704164645, 0);

#[test]
fn durations_count_days() {
    assert_eq!(parse_pypi_duration_days("P7D"), Some(7));
    assert_eq!(parse_pypi_duration_days("P0D"), Some(0));
    assert_eq!(parse_pypi_duration_days("PD"), None);
    assert_eq!(parse_pypi_duration_days("7D"), None);
    assert_eq!(parse_pypi_duration_days("P-1D"), None);
    assert_eq!(parse_pypi_duration_days("P99999999999999999999D"), None);
}

#[test]
fn upload_times_are_rfc3339() {
    assert_eq!(parse_pypi_upload_time("2024-01-02T03:04:05Z"), Some(JAN2));
    assert_eq!(parse_pypi_upload_time("2024-01-02T04:04:05+01:00"), Some(JAN2));
    assert_eq!(parse_pypi_upload_time("yesterday"), None);
}

#[test]
fn uploaded_prior_to_values_read_as_instants() {
    assert_eq!(
        parse_pypi_uploaded_prior_to("  ").unwrap_err(),
        OmcRegistryError::UnsupportedSpec(
            "pip --uploaded-prior-to needs a datetime or PnD duration".to_string()
        )
    );
    assert_eq!(parse_pypi_uploaded_prior_to(" 2024-01-02T03:04:05Z ").unwrap(), JAN2);
    assert_eq!(
        parse_pypi_uploaded_prior_to("garbage").unwrap_err(),
        OmcRegistryError::UnsupportedSpec(
            "unsupported pip --uploaded-prior-to value `garbage`".to_string()
        )
    );
    let now = SystemTime::now().duration_since(UNIX_EPOCH).unwrap().as_secs() as i64;
    let day_ago = parse_pypi_uploaded_prior_to("P1D").unwrap();
    assert!((day_ago.0 - (now - 86400)).abs() < 120);
    assert!(parse_pypi_uploaded_prior_to("2024-01-02").is_ok());
    assert!(parse_pypi_uploaded_prior_to("2024-01-02 03:04:05").is_ok());
}

#[test]
fn cutoff_keeps_earlier_uploads_and_those_that_need_none() {
    let candidates = vec![
        candidate("1.0", false, None, false),
        candidate("1.1", false, Some("2024-01-01T00:00:00Z"), true),
        candidate("1.2", false, Some("2024-01-03T00:00:00Z"), true),
    ];
    let kept = filter_pypi_candidates_uploaded_prior_to(candidates, JAN2, "pkg").unwrap();
    assert_eq!(names(&kept), vec!["pkg-1.0-py3-none-any.whl", "pkg-1.1-py3-none-any.whl"]);
    let missing = vec![candidate("1.0", false, None, true)];
    assert_eq!(
        filter_pypi_candidates_uploaded_prior_to(missing, JAN2, "pkg").unwrap_err(),
        OmcRegistryError::UnsupportedSpec(
            "pip --uploaded-prior-to requires upload-time metadata for pypi:pkg".to_string()
        )
    );
}

#[test]
fn binary_modes_pick_wheels_or_sources() {
    let wheel = candidate("1.0", false, None, false);
    let sdist = candidate("1.0", true, None, false);
    assert!(pypi_candidate_matches_binary_mode(&wheel, Some(PypiBinaryMode::Binary)));
    assert!(!pypi_candidate_matches_binary_mode(&sdist, Some(PypiBinaryMode::Binary)));
    assert!(pypi_candidate_matches_binary_mode(&sdist, Some(PypiBinaryMode::Source)));
    assert!(pypi_candidate_matches_binary_mode(&sdist, None));
}

#[test]
fn best_candidate_is_highest_with_wheels_first() {
    let candidates = || {
        vec![
            candidate("2.0", true, None, false),
            candidate("2.0", false, None, false),
            candidate("1.5", true, None, false),
        ]
    };
    let chosen = choose_pypi_candidate(
        "pkg",
        ">=1",
        candidates(),
        None,
        None,
        PypiPrereleasePolicy::Default,
    )
    .unwrap();
    assert_eq!(chosen.filename, "pkg-2.0-py3-none-any.whl");
    let source = choose_pypi_candidate(
        "pkg",
        ">=1",
        candidates(),
        Some(PypiBinaryMode::Source),
        None,
        PypiPrereleasePolicy::Default,
    )
    .unwrap();
    assert_eq!(source.filename, "pkg-2.0.tar.gz");
    let older = choose_pypi_candidate(
        "pkg",
        "<2",
        candidates(),
        None,
        None,
        PypiPrereleasePolicy::Default,
    )
    .unwrap();
    assert_eq!(older.filename, "pkg-1.5.tar.gz");
}

#[test]
fn prereleases_follow_the_policy() {
    let candidates = || vec![candidate("2.0", false, None, false), candidate("3.0a1", false, None, false)];
    let default =
        choose_pypi_candidate("pkg", ">=1", candidates(), None, None, PypiPrereleasePolicy::Default)
            .unwrap();
    assert_eq!(default.version, "2.0");
    let allowed =
        choose_pypi_candidate("pkg", ">=1", candidates(), None, None, PypiPrereleasePolicy::Allow)
            .unwrap();
    assert_eq!(allowed.version, "3.0a1");
}

#[test]
fn unsatisfiable_and_undated_requirements_are_refused() {
    let none = choose_pypi_candidate(
        "pkg",
        ">=9",
        vec![candidate("1.0", false, None, false)],
        None,
        None,
        PypiPrereleasePolicy::Default,
    );
    assert_eq!(
        none.unwrap_err(),
        OmcRegistryError::UnsatisfiedRequirement {
            name: "pkg".to_string(),
            requirement: ">=9".to_string(),
        }
    );
    let undated = choose_pypi_candidate(
        "pkg",
        ">=1",
        vec![candidate("1.0", false, None, true)],
        None,
        Some(JAN2),
        PypiPrereleasePolicy::Default,
    );
    assert_eq!(
        undated.unwrap_err(),
        OmcRegistryError::UnsupportedSpec(
            "pip --uploaded-prior-to requires upload-time metadata for pypi:pkg".to_string()
        )
    );
}

#[test]
fn offered_files_qualify_by_name_python_and_tags() {
    let c = PythonWheelCompatibility::new(3, 11, "cpython", "", "linux_x86_64", "x86_64", "");
    assert_eq!(
        pypi_candidate_file("Pkg-1.0-py3-none-any.whl", "pkg", None, Some("3.11.0"), Some(&c), None),
        Some(("1.0".to_string(), false))
    );
    assert_eq!(
        pypi_candidate_file("pkg-1.0.tar.gz", "PKG", Some(">=3.8"), Some("3.11.0"), Some(&c), None),
        Some(("1.0".to_string(), true))
    );
    assert_eq!(
        pypi_candidate_file("other-1.0.tar.gz", "pkg", None, None, Some(&c), None),
        None
    );
    assert_eq!(
        pypi_candidate_file("pkg-1.0.tar.gz", "pkg", Some(">=3.12"), Some("3.11.0"), None, None),
        None
    );
    assert_eq!(
        pypi_candidate_file("pkg-1.0-cp312-cp312-linux_x86_64.whl", "pkg", None, None, Some(&c), None),
        None
    );
    assert_eq!(
        pypi_candidate_file("pkg-1.0-cp312-cp312-linux_x86_64.whl", "pkg", None, None, None, None),
        Some(("1.0".to_string(), false))
    );
    assert_eq!(pypi_candidate_file("README.md", "pkg", None, None, None, None), None);
}
