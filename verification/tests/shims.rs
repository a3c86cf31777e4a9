use omc_registry::artifact_cache::metadata_cache_ttl;
use omc_registry::shims::{
    command_shim_text, is_safe_script_name, policy_file_name, sanitize_policy_filename,
    shell_single_quote,
};

#[test]
fn shell_quoting_escapes_single_quotes() {
    assert_eq!(shell_single_quote("plain"), "'plain'");
    assert_eq!(shell_single_quote("it's"), "'it'\\''s'");
    assert_eq!(shell_single_quote(""), "''");
}

#[test]
fn command_shims_run_the_quoted_source() {
    assert_eq!(
        command_shim_text("/p/node_modules/x/bin.js"),
        "#!/bin/sh\n# OMC npm bin shim\nNODE_OPTIONS='--preserve-symlinks --preserve-symlinks-main'\nexport NODE_OPTIONS\nexec '/p/node_modules/x/bin.js' \"$@\"\n"
    );
}

#[test]
fn script_names_stay_in_their_directory() {
    assert!(is_safe_script_name("tool"));
    assert!(is_safe_script_name("..hidden"));
    assert!(!is_safe_script_name(""));
    assert!(!is_safe_script_name("."));
    assert!(!is_safe_script_name(".."));
    assert!(!is_safe_script_name("a/b"));
    assert!(!is_safe_script_name("a\\b"));
}

#[test]
fn policy_file_names_keep_safe_characters() {
    assert_eq!(sanitize_policy_filename("@scope/pkg name"), "@scope_pkg_name");
    assert_eq!(sanitize_policy_filename("left-pad_1.0"), "left-pad_1.0");
    assert_eq!(policy_file_name("a/b"), "a_b.omc.policy");
}

#[test]
fn archives_are_cached_by_kind() {
    use_cache_kinds();
}

fn use_cache_kinds() {
    assert_eq!(omc_registry::artifact_cache::archive_extension("a-1.0.tar.gz"), "tgz");
    assert_eq!(omc_registry::artifact_cache::archive_extension("a-1.0.tgz"), "tgz");
    assert_eq!(omc_registry::artifact_cache::archive_extension("a-1.0-py3-none-any.whl"), "whl");
    assert_eq!(omc_registry::artifact_cache::archive_extension("a.zip"), "zip");
    assert_eq!(omc_registry::artifact_cache::archive_extension("a.TGZ"), "archive");
}

#[test]
fn metadata_freshness_follows_the_setting() {
    assert_eq!(metadata_cache_ttl(None), Some(600));
    assert_eq!(metadata_cache_ttl(Some(" 30 ")), Some(30));
    assert_eq!(metadata_cache_ttl(Some("0")), None);
    assert_eq!(metadata_cache_ttl(Some("soon")), Some(600));
}
