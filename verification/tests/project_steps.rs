use omc_registry::npm_direct::{npm_direct_archive_url, npm_direct_tarball_url, parse_npm_direct_archive_reference};
use omc_registry::npm_choose::tightened_cutoff;
use omc_registry::entry_source::Ecosystem;
use omc_registry::error::OmcRegistryError;
use omc_registry::link_step::{link_outcome, platform_gate, LinkedDependency};
use omc_registry::local_sources::{
    local_source_artifact, local_source_gate, local_source_key_text, local_sources_to_compile, LocalSourceInput,
};
use omc_registry::manifest_config::{effective_min_release_age, manifest_npm_local_paths, resolve_manifest_path};
use omc_registry::policy_guidance::render_block_guidance;
use omc_registry::pyproject_selection::{poetry_group_included, project_extra_dependencies};

fn dep(requested: &str, optional: bool, peer: bool) -> LinkedDependency {
    LinkedDependency { requested: requested.to_string(), optional, peer }
}

fn strings(v: &[&str]) -> Vec<String> {
    v.iter().map(|s| s.to_string()).collect()
}

#[test]
fn linking_records_dependencies_by_kind() {
    let deps = vec![dep("a", false, false), dep("b", true, false), dep("c", false, true), dep("d", false, false)];
    let o = link_outcome("pkg@1", Ecosystem::Npm, "pkg", "1.0.0", &Vec::new(), true, &deps, false).ok().unwrap();
    assert!(o.accepted);
    assert!(!o.pure_behavior);
    assert_eq!(o.dependencies, strings(&["a", "d"]));
    assert_eq!(o.optional_dependencies, strings(&["b"]));
    assert_eq!(o.peer_dependencies, strings(&["c"]));
}

#[test]
fn blocked_links_are_refused_unless_recorded() {
    let findings = strings(&["capability `process.spawn` is not granted"]);
    match link_outcome("pkg@1", Ecosystem::Npm, "pkg", "1.0.0", &findings, false, &Vec::new(), false) {
        Err(OmcRegistryError::BlockedPackage { spec, guidance }) => {
            assert_eq!(spec, "pkg@1");
            assert_eq!(guidance, Some(render_block_guidance(Ecosystem::Npm, "pkg", "1.0.0", &findings)));
        }
        _ => panic!("expected a block"),
    }
    let o = link_outcome("pkg@1", Ecosystem::Npm, "pkg", "1.0.0", &findings, false, &Vec::new(), true).ok().unwrap();
    assert!(!o.accepted);
    assert!(o.pure_behavior);
}

#[test]
fn incompatible_platforms() {
    assert_eq!(platform_gate("x@1", true, false), Ok(true));
    assert_eq!(platform_gate("x@1", false, true), Ok(false));
    assert_eq!(
        platform_gate("x@1", false, false),
        Err(OmcRegistryError::UnsupportedSpec("x@1 is not compatible with this platform".to_string()))
    );
}

fn input(name: &str, path: &str) -> LocalSourceInput {
    LocalSourceInput {
        ecosystem: Ecosystem::Pypi,
        name: name.to_string(),
        version: "1.0".to_string(),
        source_path: path.to_string(),
    }
}

#[test]
fn local_sources_are_compiled_once_and_gated() {
    let inputs = vec![input("a", "/s/a"), input("b", "/s/b"), input("a", "/s/a"), input("a", "/t/a")];
    assert_eq!(local_source_key_text(&inputs[0]), "pypi:a@1.0:/s/a");
    assert_eq!(local_sources_to_compile(&inputs), vec![0, 1, 3]);
    assert_eq!(local_source_gate(&inputs[0], true, &Vec::new(), true, true), Ok(()));
    assert_eq!(local_source_gate(&inputs[0], true, &Vec::new(), false, false), Ok(()));
    match local_source_gate(&inputs[0], true, &Vec::new(), true, false) {
        Err(OmcRegistryError::BlockedPackage { spec, .. }) => assert_eq!(spec, "pypi:a@1.0 local source `/s/a`"),
        _ => panic!("expected a block"),
    }
    assert_eq!(local_source_artifact(&inputs[0], true, "/p/x.json", None), Ok("/p/x.json".to_string()));
    assert_eq!(local_source_artifact(&inputs[0], false, "/p/x.json", Some("/p/y.json")), Ok("/p/y.json".to_string()));
    assert_eq!(
        local_source_artifact(&inputs[0], false, "/p/x.json", None),
        Err(OmcRegistryError::UnsupportedInstallArtifact("local source artifact for pypi:a@1.0 was not stored".to_string()))
    );
}

#[test]
fn manifest_paths_and_release_age() {
    assert_eq!(resolve_manifest_path("/p", "libs/a"), "/p/libs/a");
    assert_eq!(resolve_manifest_path("/p", "/abs"), "/abs");
    let paths = manifest_npm_local_paths(
        "/p",
        &strings(&["a"]),
        &strings(&["o"]),
        &strings(&["q"]),
        &strings(&["d"]),
        true,
        false,
        true,
    );
    assert_eq!(paths, strings(&["/p/a", "/p/o", "/p/d"]));
    assert_eq!(effective_min_release_age(Some(("1d", Some(86400))), Some(("2d", Some(172800))), None), Ok(Some(86400)));
    assert_eq!(effective_min_release_age(None, Some(("2d", Some(172800))), Some(5)), Ok(Some(172800)));
    assert_eq!(effective_min_release_age(None, None, Some(5)), Ok(Some(5)));
    assert_eq!(
        effective_min_release_age(Some(("soon", None)), None, None),
        Err(OmcRegistryError::UnsupportedSpec(
            "invalid min-release-age `soon`; use e.g. \"14d\", \"12h\", \"2w\", or \"7\" (days)".to_string()
        ))
    );
}

#[test]
fn pyproject_selection() {
    let extras = strings(&["docs", "test"]);
    assert!(poetry_group_included("dev", false, &extras, true));
    assert!(!poetry_group_included("dev", false, &extras, false));
    assert!(poetry_group_included("lint", false, &extras, false));
    assert!(poetry_group_included("docs", true, &extras, false));
    assert!(!poetry_group_included("bench", true, &extras, false));
    let optional = vec![
        ("test".to_string(), strings(&["pytest"])),
        ("docs".to_string(), strings(&["sphinx", "furo"])),
        ("test".to_string(), strings(&["pytest>=8"])),
    ];
    assert_eq!(project_extra_dependencies(&optional, &extras), strings(&["sphinx", "furo", "pytest>=8"]));
}

#[test]
fn cutoffs_tighten_to_the_earlier() {
    assert_eq!(tightened_cutoff(None, None, (1000, 0)), None);
    assert_eq!(tightened_cutoff(None, Some(0), (1000, 0)), None);
    assert_eq!(tightened_cutoff(None, Some(100), (1000, 7)), Some((900, 7)));
    assert_eq!(tightened_cutoff(Some((800, 0)), Some(100), (1000, 7)), Some((800, 0)));
    assert_eq!(tightened_cutoff(Some((950, 0)), Some(100), (1000, 7)), Some((900, 7)));
}

#[test]
fn direct_npm_archives() {
    use_direct_archive_cases();
}

fn use_direct_archive_cases() {
    assert_eq!(npm_direct_tarball_url("https://x/a-1.0.0.tgz", "/p"), Ok(Some("https://x/a-1.0.0.tgz".to_string())));
    assert_eq!(
        npm_direct_tarball_url("https://x/a.zip", "/p"),
        Err(OmcRegistryError::UnsupportedSpec("direct npm dependency `https://x/a.zip` must be a .tgz or .tar.gz archive".to_string()))
    );
    assert_eq!(
        npm_direct_tarball_url("http://x/a.tgz", "/p"),
        Err(OmcRegistryError::UnsupportedSpec("direct npm tarball URL `http://x/a.tgz` must use https".to_string()))
    );
    assert_eq!(npm_direct_tarball_url("file:pkg/a.tgz", "/p"), Ok(Some("file:///p/pkg/a.tgz".to_string())));
    assert_eq!(npm_direct_tarball_url("file:///abs/a.tgz", "/p"), Ok(Some("file:///abs/a.tgz".to_string())));
    assert_eq!(npm_direct_tarball_url("lodash@^4", "/p"), Ok(None));
    assert_eq!(
        npm_direct_archive_url(" ./pkg/a.tgz ", "/p", None),
        Ok(Some(("file:///p/pkg/a.tgz".to_string(), Some("/p/./pkg/a.tgz".to_string()))))
    );
    assert_eq!(
        npm_direct_archive_url("~/a.tgz", "/p", Some("/home/u")),
        Ok(Some(("file:///home/u/a.tgz".to_string(), Some("/home/u/a.tgz".to_string()))))
    );
    assert_eq!(
        npm_direct_archive_url("https://x/a-1.0.0.tgz", "/p", None),
        Ok(Some(("https://x/a-1.0.0.tgz".to_string(), None)))
    );
    assert_eq!(npm_direct_archive_url("react", "/p", None), Ok(None));
    let spec = parse_npm_direct_archive_reference("https://x/a-1.0.0.tgz", "/p", None, None).ok().unwrap().unwrap();
    assert_eq!(spec.name, "__omc_direct_tarball__");
    assert_eq!(spec.direct_url, Some("https://x/a-1.0.0.tgz".to_string()));
    let spec = parse_npm_direct_archive_reference("./a.tgz", "/p", None, Some("local-pkg")).ok().unwrap().unwrap();
    assert_eq!(spec.name, "local-pkg");
    assert!(matches!(
        parse_npm_direct_archive_reference("./a.tgz", "/p", None, None),
        Err(OmcRegistryError::UnsupportedSpec(_))
    ));
}
