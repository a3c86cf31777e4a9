use omc_registry::error::OmcRegistryError;
use omc_registry::npm_github::{
    is_explicit_local_path, is_npm_tarball_path, npm_bare_github_shorthand,
    npm_github_archive_url, npm_github_dependency_parts, npm_github_ref_path,
    require_npm_tarball_path, split_npm_git_reference,
};

fn chars(s: &str) -> Vec<char> {
    s.chars().collect()
}

fn text(v: &[char]) -> String {
    v.iter().collect()
}

fn parts(owner: &str, repo: &str, reference: Option<&str>) -> Option<(String, String, Option<String>)> {
    Some((owner.to_string(), repo.to_string(), reference.map(str::to_string)))
}

#[test]
fn git_references_split_at_the_first_hash() {
    let (source, reference) = split_npm_git_reference(&chars("owner/repo# v1 "));
    assert_eq!(text(&source), "owner/repo");
    assert_eq!(reference.map(|r| text(&r)), Some("v1".to_string()));
    let (source, reference) = split_npm_git_reference(&chars("owner/repo#  "));
    assert_eq!(text(&source), "owner/repo");
    assert_eq!(reference, None);
    let (source, reference) = split_npm_git_reference(&chars("owner/repo"));
    assert_eq!(text(&source), "owner/repo");
    assert_eq!(reference, None);
}

#[test]
fn github_prefixes_and_urls_are_recognized() {
    assert_eq!(
        npm_github_dependency_parts("github:owner/repo#v1.0").unwrap(),
        parts("owner", "repo", Some("v1.0"))
    );
    assert_eq!(
        npm_github_dependency_parts("  owner/repo  ").unwrap(),
        parts("owner", "repo", None)
    );
    assert_eq!(
        npm_github_dependency_parts("https://github.com/owner/repo.git#main").unwrap(),
        parts("owner", "repo", Some("main"))
    );
    assert_eq!(
        npm_github_dependency_parts("git+ssh://git@github.com/owner/repo.git").unwrap(),
        parts("owner", "repo", None)
    );
    assert_eq!(
        npm_github_dependency_parts("git@github.com:owner/repo.git#dev").unwrap(),
        parts("owner", "repo", Some("dev"))
    );
    assert_eq!(
        npm_github_dependency_parts("https://GitHub.com/owner/repo").unwrap(),
        parts("owner", "repo", None)
    );
}

#[test]
fn other_references_are_not_github() {
    assert_eq!(npm_github_dependency_parts("https://gitlab.com/o/r").unwrap(), None);
    assert_eq!(npm_github_dependency_parts("http://github.com/o/r").unwrap(), None);
    assert_eq!(npm_github_dependency_parts("https://github.com/o/r/tree").unwrap(), None);
    assert_eq!(npm_github_dependency_parts("lodash@^4").unwrap(), None);
    assert_eq!(npm_github_dependency_parts("").unwrap(), None);
    assert_eq!(npm_github_dependency_parts("./local/dir").unwrap(), None);
}

#[test]
fn dotted_owners_are_refused() {
    let refused = npm_github_dependency_parts("github:.hidden/repo");
    assert_eq!(
        refused,
        Err(OmcRegistryError::UnsupportedSpec(
            "invalid npm GitHub dependency `github:.hidden/repo`".to_string()
        ))
    );
}

#[test]
fn bare_shorthands_are_two_plain_segments() {
    assert!(npm_bare_github_shorthand(&chars("owner/repo#ref")));
    assert!(!npm_bare_github_shorthand(&chars("@scope/pkg")));
    assert!(!npm_bare_github_shorthand(&chars("a/b/c")));
    assert!(!npm_bare_github_shorthand(&chars("owner/.repo")));
    assert!(!npm_bare_github_shorthand(&chars("file:a/b")));
    assert!(!npm_bare_github_shorthand(&chars("x://a/b")));
}

#[test]
fn archive_urls_encode_each_piece() {
    assert_eq!(
        npm_github_archive_url("github:owner/repo#v1.0").unwrap(),
        Some("https://github.com/owner/repo/archive/v1.0.tar.gz".to_string())
    );
    assert_eq!(
        npm_github_archive_url("owner/repo").unwrap(),
        Some("https://github.com/owner/repo/archive/HEAD.tar.gz".to_string())
    );
    assert_eq!(
        npm_github_archive_url("github:owner/repo#feature/x y").unwrap(),
        Some("https://github.com/owner/repo/archive/feature/x%20y.tar.gz".to_string())
    );
    assert_eq!(npm_github_archive_url("left-pad").unwrap(), None);
    assert_eq!(text(&npm_github_ref_path(&chars("a/b c"))), "a/b%20c");
}

#[test]
fn semver_references_are_refused() {
    assert_eq!(
        npm_github_archive_url("github:o/r#semver:^1"),
        Err(OmcRegistryError::UnsupportedSpec(
            "npm GitHub dependency `github:o/r#semver:^1` uses semver refs, which OMC does not resolve yet"
                .to_string()
        ))
    );
}

#[test]
fn tarball_paths_end_in_tgz_or_tar_gz() {
    assert!(is_npm_tarball_path(&chars("pkg-1.0.0.TGZ?x=1")));
    assert!(is_npm_tarball_path(&chars("https://h/a.tar.gz#frag")));
    assert!(!is_npm_tarball_path(&chars("a.zip")));
    assert!(!is_npm_tarball_path(&chars("a.zip?x=.tgz")));
    assert_eq!(require_npm_tarball_path(&chars("a.tgz")), Ok(()));
    assert_eq!(
        require_npm_tarball_path(&chars("a.zip")),
        Err(OmcRegistryError::UnsupportedSpec(
            "direct npm dependency `a.zip` must be a .tgz or .tar.gz archive".to_string()
        ))
    );
}

#[test]
fn explicit_local_paths() {
    assert!(is_explicit_local_path(&chars(".")));
    assert!(is_explicit_local_path(&chars("./x.tgz")));
    assert!(is_explicit_local_path(&chars("../x.tgz")));
    assert!(is_explicit_local_path(&chars("/abs/x.tgz")));
    assert!(is_explicit_local_path(&chars("~/x.tgz")));
    assert!(is_explicit_local_path(&chars("dir\\x.tgz")));
    assert!(!is_explicit_local_path(&chars("x.tgz")));
}
