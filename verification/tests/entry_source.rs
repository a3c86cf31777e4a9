use omc_registry::entry_source::{
    locate_npm_entry_source, locate_pypi_entry_source, locked_package_key,
    normalize_archive_rel_path, read_locked_package_entry_source, check_locked_archive_digest, hex_text, Ecosystem, LockedPackage,
};
use omc_registry::error::OmcRegistryError;
use omc_registry::set_map::PinMap;

fn chars(s: &str) -> Vec<char> {
    s.chars().collect()
}

fn files(entries: &[(&str, &str)]) -> PinMap {
    let mut map = PinMap::new();
    for (path, contents) in entries {
        map.set(&chars(path), &chars(contents));
    }
    map
}

const ABC_SHA256: &str = "ba7816bf8f01cfea414140de5dae2223b00361a396177a9cb410ff61f20015ad";

fn package(ecosystem: Ecosystem, name: &str, version: &str) -> LockedPackage {
    LockedPackage {
        ecosystem,
        name: name.to_string(),
        version: version.to_string(),
        source_url: String::new(),
        sha256: ABC_SHA256.to_string(),
        accepted: true,
        dependencies: Vec::new(),
    }
}

#[test]
fn package_keys_name_ecosystem_name_and_version() {
    assert_eq!(locked_package_key(&package(Ecosystem::Npm, "left-pad", "1.3.0")), "npm:left-pad@1.3.0");
    assert_eq!(locked_package_key(&package(Ecosystem::Pypi, "requests", "2.31.0")), "pypi:requests@2.31.0");
}

#[test]
fn archive_paths_lose_dot_slash_and_backslashes() {
    let out: String = normalize_archive_rel_path(&chars("././lib\\index.js")).iter().collect();
    assert_eq!(out, "lib/index.js");
}

#[test]
fn npm_entry_follows_package_json_main() {
    let map = files(&[
        ("package.json", "{\"name\":\"x\",\"main\":\"lib/main\"}"),
        ("lib/main.js", "module.exports = 1;"),
        ("index.js", "fallback"),
    ]);
    assert_eq!(locate_npm_entry_source(&map), Some("module.exports = 1;".to_string()));
}

#[test]
fn npm_entry_tries_directory_index_then_root_index() {
    let map = files(&[
        ("package.json", "{\"main\":\"./dist/\"}"),
        ("dist/index.js", "dist index"),
    ]);
    assert_eq!(locate_npm_entry_source(&map), Some("dist index".to_string()));

    let map = files(&[("package.json", "{\"main\":\"  \"}"), ("index.js", "root index")]);
    assert_eq!(locate_npm_entry_source(&map), Some("root index".to_string()));

    let map = files(&[("package.json", "not json"), ("index.js", "root index")]);
    assert_eq!(locate_npm_entry_source(&map), Some("root index".to_string()));

    let map = files(&[("package.json", "{\"main\":\"missing.js\"}")]);
    assert_eq!(locate_npm_entry_source(&map), None);
}

#[test]
fn pypi_entry_is_the_top_level_module() {
    let map = files(&[("my_pkg/__init__.py", "init"), ("my_pkg.py", "module")]);
    assert_eq!(locate_pypi_entry_source("my-pkg", &map), Some("init".to_string()));

    let map = files(&[("src/tool.py", "src module")]);
    assert_eq!(locate_pypi_entry_source("tool", &map), Some("src module".to_string()));
}

#[test]
fn entry_source_carries_the_package_identity() {
    let map = files(&[("requests/__init__.py", "import x")]);
    let source = read_locked_package_entry_source(&package(Ecosystem::Pypi, "requests", "2.31.0"), b"abc", &map)
        .unwrap();
    assert_eq!(source.module_id, "pypi:requests@2.31.0");
    assert_eq!(source.ecosystem, Ecosystem::Pypi);
    assert_eq!(source.name, "requests");
    assert_eq!(source.version, "2.31.0");
    assert_eq!(source.source, "import x");
}

#[test]
fn missing_entry_source_is_refused() {
    let map = files(&[("README.md", "docs")]);
    let refused = read_locked_package_entry_source(&package(Ecosystem::Npm, "a", "1.0.0"), b"abc", &map);
    assert!(matches!(
        refused,
        Err(OmcRegistryError::MissingEntrySource(ref key)) if key == "npm:a@1.0.0"
    ));
}

#[test]
fn error_messages() {
    assert_eq!(
        OmcRegistryError::MissingEntrySource("npm:a@1".to_string()).message(),
        "could not locate an entry source file for npm:a@1"
    );
    assert_eq!(
        OmcRegistryError::UnsupportedSpec("x".to_string()).message(),
        "unsupported package spec `x`"
    );
    assert_eq!(
        OmcRegistryError::UnsatisfiedRequirement {
            name: "a".to_string(),
            requirement: ">=2".to_string()
        }
        .message(),
        "could not resolve a version for a matching `>=2`"
    );
    assert_eq!(
        OmcRegistryError::LockfileOutOfDate("npm:a".to_string()).message(),
        "omc.lock does not satisfy `npm:a`; run omc install without --locked to update it"
    );
    assert_eq!(
        OmcRegistryError::DigestMismatch {
            name: "a".to_string(),
            expected: "sha256:1".to_string(),
            actual: "sha256:2".to_string()
        }
        .message(),
        "downloaded artifact digest mismatch for a: expected sha256:1, got sha256:2"
    );
    assert_eq!(OmcRegistryError::Usage("plain".to_string()).message(), "plain");
}

#[test]
fn archive_digest_mismatch_is_refused_before_the_entry_is_read() {
    let map = files(&[("requests/__init__.py", "import x")]);
    let refused = read_locked_package_entry_source(&package(Ecosystem::Pypi, "requests", "2.31.0"), b"abd", &map);
    match refused {
        Err(OmcRegistryError::DigestMismatch { name, expected, actual }) => {
            assert_eq!(name, "requests");
            assert_eq!(expected, format!("sha256:{ABC_SHA256}"));
            assert_ne!(actual, expected);
            assert!(actual.starts_with("sha256:"));
            assert_eq!(actual.len(), "sha256:".len() + 64);
        }
        _ => panic!("expected a digest mismatch"),
    }
}

#[test]
fn archive_digest_is_compared_without_letter_case() {
    let mut p = package(Ecosystem::Npm, "a", "1.0.0");
    p.sha256 = ABC_SHA256.to_uppercase();
    assert_eq!(check_locked_archive_digest(&p, b"abc"), Ok(()));
    assert_eq!(hex_text(&[0x00, 0xff, 0x1a]), "00ff1a");
}
