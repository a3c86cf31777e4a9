use omc_registry::pypi_files::{
    choose_pypi_file, is_python_sdist_filename, macos_platform_tags,
    normalize_python_implementation_tag, normalize_wheel_platform, parse_sdist_name_and_version,
    parse_target_python_version, parse_wheel_name_and_version, pypi_file_matches_binary_mode,
    pypi_file_python_compatible, pypi_target_python, pypi_wheel_compatibility,
    python_version_from_report,
    python_wheel_compatibility_from_report, wheel_tag_compatible, PypiDigests, PypiFile,
    PythonWheelCompatibility,
};
use omc_registry::pypi_listing::{available_versions_targets, PypiAvailableVersionsOptions};
use omc_registry::pypi_release::PypiBinaryMode;

fn strings(items: &[&str]) -> Vec<String> {
    items.iter().map(|s| s.to_string()).collect()
}

fn sorted(items: &[String]) -> Vec<String> {
    let mut out = items.to_vec();
    out.sort();
    out
}

fn sorted_strs(items: &[&str]) -> Vec<String> {
    sorted(&strings(items))
}

fn linux_311() -> PythonWheelCompatibility {
    PythonWheelCompatibility::new(3, 11, "cpython", "cpython-311", "linux_x86_64", "x86_64", "")
}

fn file(name: &str, kind: &str, requires_python: Option<&str>) -> PypiFile {
    PypiFile {
        filename: name.to_string(),
        packagetype: kind.to_string(),
        url: format!("https://files.example/{name}"),
        digests: PypiDigests { sha256: "00".to_string() },
        requires_python: requires_python.map(str::to_string),
    }
}

#[test]
fn target_versions_read_major_and_minor() {
    assert_eq!(parse_target_python_version("3.11"), Some((3, 11)));
    assert_eq!(parse_target_python_version(" 3.11.4 "), Some((3, 11)));
    assert_eq!(parse_target_python_version("311"), Some((3, 11)));
    assert_eq!(parse_target_python_version("3"), Some((3, 0)));
    assert_eq!(parse_target_python_version(""), None);
    assert_eq!(parse_target_python_version("x.1"), None);
    assert_eq!(parse_target_python_version("3."), None);
}

#[test]
fn implementation_and_platform_names_are_normalized() {
    assert_eq!(normalize_python_implementation_tag(" CP "), "cpython");
    assert_eq!(normalize_python_implementation_tag("CPython"), "cpython");
    assert_eq!(normalize_python_implementation_tag("PyPy"), "pypy");
    assert_eq!(normalize_wheel_platform("macosx-11.0-arm64"), "macosx_11_0_arm64");
}

#[test]
fn source_archives_are_known_by_their_ending() {
    assert!(is_python_sdist_filename("pkg-1.0.TAR.GZ"));
    assert!(is_python_sdist_filename("pkg-1.0.tgz"));
    assert!(is_python_sdist_filename("pkg-1.0.zip"));
    assert!(!is_python_sdist_filename("pkg-1.0-py3-none-any.whl"));
}

#[test]
fn interpreter_tags_include_cpython_and_cache_tags() {
    let c = linux_311();
    assert_eq!(sorted(&c.python_tags), sorted_strs(&["py3", "py311", "cp311"]));
    assert_eq!(sorted(&c.abi_tags), sorted_strs(&["none", "abi3", "cp311"]));
    assert_eq!(sorted(&c.platform_tags), sorted_strs(&["any", "linux_x86_64"]));
    let pypy = PythonWheelCompatibility::new(3, 9, "pypy", "pypy39", "", "x86_64", "");
    assert_eq!(sorted(&pypy.python_tags), sorted_strs(&["py3", "py39"]));
    assert_eq!(sorted(&pypy.abi_tags), sorted_strs(&["none", "abi3"]));
    assert_eq!(pypy.platform_tags, strings(&["any"]));
}

#[test]
fn wheel_tags_must_each_be_accepted() {
    let c = linux_311();
    assert!(wheel_tag_compatible("pkg-1.0-py3-none-any.whl", &c));
    assert!(wheel_tag_compatible("pkg-1.0-py2.py3-none-any.whl", &c));
    assert!(wheel_tag_compatible("pkg-1.0-cp311-cp311-linux_x86_64.whl", &c));
    assert!(!wheel_tag_compatible("pkg-1.0-cp312-cp312-linux_x86_64.whl", &c));
    assert!(!wheel_tag_compatible("pkg-1.0-cp311-cp311-win_amd64.whl", &c));
    assert!(!wheel_tag_compatible("none-any.whl", &c));
    assert!(!wheel_tag_compatible("pkg-1.0-py3-none-any.tar.gz", &c));
}

#[test]
fn macos_tags_reach_the_running_major_version() {
    assert!(macos_platform_tags("linux_x86_64", "x86_64", "").is_empty());
    let arm = macos_platform_tags("macosx_14_0_arm64", "arm64", "14.2");
    assert_eq!(arm.len(), 25);
    assert!(arm.contains(&"macosx_10_0_universal2".to_string()));
    assert!(arm.contains(&"macosx_10_16_universal2".to_string()));
    assert!(arm.contains(&"macosx_11_0_arm64".to_string()));
    assert!(arm.contains(&"macosx_14_0_arm64".to_string()));
    assert!(!arm.contains(&"macosx_15_0_arm64".to_string()));
    assert!(!arm.contains(&"macosx_10_5_x86_64".to_string()));
    let intel = macos_platform_tags("macosx_10_15_x86_64", "x86_64", "10.15");
    assert_eq!(intel.len(), 61);
    assert!(intel.contains(&"macosx_10_9_intel".to_string()));
    assert!(intel.contains(&"macosx_15_0_x86_64".to_string()));
    assert!(!intel.contains(&"macosx_16_0_x86_64".to_string()));
}

#[test]
fn target_options_describe_the_target_interpreter() {
    assert!(PythonWheelCompatibility::from_target_options(None, None, &[], &[], None, None)
        .is_none());
    let target =
        PythonWheelCompatibility::from_target_options(Some("3.12"), None, &[], &[], None, None)
            .unwrap();
    assert_eq!(sorted(&target.python_tags), sorted_strs(&["py3", "py312", "cp312"]));
    assert_eq!(sorted(&target.abi_tags), sorted_strs(&["none", "abi3", "cp312"]));
    assert_eq!(target.platform_tags, strings(&["any"]));

    let current = PythonWheelCompatibility {
        python_tags: strings(&["py3"]),
        abi_tags: strings(&["pypy39_pp73"]),
        platform_tags: strings(&["linux_x86_64"]),
    };
    let pypy = PythonWheelCompatibility::from_target_options(
        Some("3.12"),
        Some("PyPy"),
        &[],
        &strings(&["manylinux2014-x86.64"]),
        Some(&current),
        None,
    )
    .unwrap();
    assert_eq!(sorted(&pypy.python_tags), sorted_strs(&["py3", "py312"]));
    assert_eq!(sorted(&pypy.abi_tags), sorted_strs(&["none", "abi3", "pypy39_pp73"]));
    assert_eq!(sorted(&pypy.platform_tags), sorted_strs(&["any", "manylinux2014_x86_64"]));

    let from_running = PythonWheelCompatibility::from_target_options(
        None,
        None,
        &strings(&["cp310"]),
        &[],
        Some(&current),
        Some("3.10.4"),
    )
    .unwrap();
    assert_eq!(sorted(&from_running.python_tags), sorted_strs(&["py3", "py310", "cp310"]));
    assert_eq!(sorted(&from_running.abi_tags), sorted_strs(&["none", "abi3", "cp310"]));
    assert_eq!(sorted(&from_running.platform_tags), sorted_strs(&["any", "linux_x86_64"]));
}

#[test]
fn python_compatibility_checks_version_and_wheel_tags() {
    let c = linux_311();
    let pure = file("pkg-1.0-py3-none-any.whl", "bdist_wheel", Some(">=3.12"));
    assert!(!pypi_file_python_compatible(&pure, Some("3.11.0"), Some(&c), None));
    assert!(pypi_file_python_compatible(&pure, None, Some(&c), None));
    let windows = file("pkg-1.0-cp311-cp311-win_amd64.whl", "bdist_wheel", None);
    assert!(!pypi_file_python_compatible(&windows, None, Some(&c), None));
    assert!(!pypi_file_python_compatible(&windows, None, None, Some(&c)));
    assert!(pypi_file_python_compatible(&windows, None, None, None));
    let sdist = file("pkg-1.0.tar.gz", "sdist", None);
    assert!(pypi_file_python_compatible(&sdist, Some("3.11.0"), Some(&c), None));
}

#[test]
fn binary_modes_select_file_kinds() {
    let wheel = file("pkg-1.0-py3-none-any.whl", "bdist_wheel", None);
    let sdist = file("pkg-1.0.tar.gz", "sdist", None);
    let odd = file("pkg-1.0.exe", "sdist", None);
    assert!(pypi_file_matches_binary_mode(&wheel, None));
    assert!(pypi_file_matches_binary_mode(&wheel, Some(PypiBinaryMode::Binary)));
    assert!(!pypi_file_matches_binary_mode(&sdist, Some(PypiBinaryMode::Binary)));
    assert!(pypi_file_matches_binary_mode(&sdist, Some(PypiBinaryMode::Source)));
    assert!(!pypi_file_matches_binary_mode(&odd, Some(PypiBinaryMode::Source)));
}

#[test]
fn choice_prefers_pure_wheels_then_wheels_then_sources() {
    let c = linux_311();
    let files = vec![
        file("pkg-1.0.tar.gz", "sdist", None),
        file("pkg-1.0-cp311-cp311-linux_x86_64.whl", "bdist_wheel", None),
        file("pkg-1.0-py3-none-any.whl", "bdist_wheel", None),
    ];
    let pick = |mode| {
        choose_pypi_file(&files, Some("3.11.0"), Some(&c), None, mode).map(|f| f.filename.clone())
    };
    assert_eq!(pick(None).as_deref(), Some("pkg-1.0-py3-none-any.whl"));
    assert_eq!(pick(Some(PypiBinaryMode::Binary)).as_deref(), Some("pkg-1.0-py3-none-any.whl"));
    assert_eq!(pick(Some(PypiBinaryMode::Source)).as_deref(), Some("pkg-1.0.tar.gz"));

    let guarded = vec![
        file("pkg-1.0-py3-none-any.whl", "bdist_wheel", Some(">=3.12")),
        file("pkg-1.0-cp311-cp311-linux_x86_64.whl", "bdist_wheel", None),
    ];
    let chosen = choose_pypi_file(&guarded, Some("3.11.0"), Some(&c), None, None).unwrap();
    assert_eq!(chosen.filename, "pkg-1.0-cp311-cp311-linux_x86_64.whl");

    let sources_only = vec![
        file("pkg-1.0-cp312-cp312-linux_x86_64.whl", "bdist_wheel", None),
        file("pkg-1.0.zip", "sdist", None),
    ];
    let chosen = choose_pypi_file(&sources_only, Some("3.11.0"), Some(&c), None, None).unwrap();
    assert_eq!(chosen.filename, "pkg-1.0.zip");
    assert!(choose_pypi_file(
        &sources_only,
        Some("3.11.0"),
        Some(&c),
        None,
        Some(PypiBinaryMode::Binary)
    )
    .is_none());
    assert!(choose_pypi_file(&Vec::new(), None, None, None, None).is_none());
}

#[test]
fn release_file_names_give_project_and_version() {
    assert_eq!(
        parse_wheel_name_and_version("Foo_Bar-1.0-py3-none-any.whl"),
        Some(("foo-bar".to_string(), "1.0".to_string()))
    );
    assert_eq!(parse_wheel_name_and_version("a-b-c-d.whl"), None);
    assert_eq!(parse_wheel_name_and_version("a-1.0-py3-none-any.zip"), None);
    assert_eq!(
        parse_sdist_name_and_version("Foo.Bar-2.0.tar.gz"),
        Some(("foo-bar".to_string(), "2.0".to_string()))
    );
    assert_eq!(
        parse_sdist_name_and_version("my-pkg-0.3.zip"),
        Some(("my-pkg".to_string(), "0.3".to_string()))
    );
    assert_eq!(parse_sdist_name_and_version("-1.0.zip"), None);
    assert_eq!(parse_sdist_name_and_version("pkg.tar.gz"), None);
    assert_eq!(parse_sdist_name_and_version("pkg-1.0.TGZ"), None);
}

#[test]
fn target_python_text_is_completed_to_three_parts() {
    assert_eq!(pypi_target_python(Some("3.11"), None).as_deref(), Some("3.11.0"));
    assert_eq!(pypi_target_python(Some("312"), Some("3.9.1")).as_deref(), Some("3.12.0"));
    assert_eq!(pypi_target_python(Some("abc"), None).as_deref(), Some("abc"));
    assert_eq!(pypi_target_python(None, Some("3.9.1")).as_deref(), Some("3.9.1"));
    assert_eq!(pypi_target_python(None, None), None);
}

#[test]
fn interpreter_reports_are_read_line_by_line() {
    let report = "3\n11\ncpython\ncpython-311\nlinux-x86_64\nx86_64\n\n";
    let c = python_wheel_compatibility_from_report(report).unwrap();
    assert_eq!(sorted(&c.python_tags), sorted_strs(&["py3", "py311", "cp311"]));
    assert_eq!(sorted(&c.platform_tags), sorted_strs(&["any", "linux_x86_64"]));
    assert!(python_wheel_compatibility_from_report("3\n11\ncpython\n").is_none());
    assert!(python_wheel_compatibility_from_report("x\n11\ncpython\n\nlinux\nx86_64\n").is_none());
    assert_eq!(python_version_from_report(" 3.11.4\n").as_deref(), Some("3.11.4"));
    assert_eq!(python_version_from_report("  \n"), None);
}

#[test]
fn wheel_compatibility_falls_back_to_the_running_interpreter() {
    let running = linux_311();
    let fallback = pypi_wheel_compatibility(None, None, &[], &[], Some(&running), None).unwrap();
    assert_eq!(sorted(&fallback.python_tags), sorted(&running.python_tags));
    assert_eq!(sorted(&fallback.platform_tags), sorted(&running.platform_tags));
    assert!(pypi_wheel_compatibility(None, None, &[], &[], None, None).is_none());
    let target = pypi_wheel_compatibility(Some("3.9"), None, &[], &[], Some(&running), None).unwrap();
    assert_eq!(sorted(&target.python_tags), sorted_strs(&["py3", "py39", "cp39"]));
    assert_eq!(sorted(&target.platform_tags), sorted_strs(&["any", "linux_x86_64"]));
}

#[test]
fn listing_targets_come_from_the_options() {
    let running = linux_311();
    let query = PypiAvailableVersionsOptions {
        target_python: Some("3.10".to_string()),
        target_platforms: strings(&["win-amd64"]),
        ..PypiAvailableVersionsOptions::default()
    };
    let (text, tags) = available_versions_targets(&query, Some(&running), Some("3.11.4"));
    assert_eq!(text.as_deref(), Some("3.10.0"));
    let tags = tags.unwrap();
    assert_eq!(sorted(&tags.python_tags), sorted_strs(&["py3", "py310", "cp310"]));
    assert_eq!(sorted(&tags.platform_tags), sorted_strs(&["any", "win_amd64"]));
    let plain = PypiAvailableVersionsOptions::default();
    let (text, tags) = available_versions_targets(&plain, Some(&running), Some("3.11.4"));
    assert_eq!(text.as_deref(), Some("3.11.4"));
    assert_eq!(sorted(&tags.unwrap().abi_tags), sorted_strs(&["none", "abi3", "cp311"]));
}
