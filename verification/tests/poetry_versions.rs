use omc_registry::poetry_versions::{
    normalize_poetry_partial_version, poetry_caret_requirement, poetry_tilde_requirement,
    poetry_version_requirement, version_parts,
};

#[test]
fn version_parts_keep_numbers_only() {
    assert_eq!(version_parts("1.2.x.3"), vec![1, 2, 3]);
    assert_eq!(version_parts(""), Vec::<u64>::new());
    assert_eq!(normalize_poetry_partial_version("1.x").as_deref(), Some("1"));
    assert_eq!(normalize_poetry_partial_version("01.2").as_deref(), Some("1.2"));
    assert_eq!(normalize_poetry_partial_version("abc"), None);
}

#[test]
fn caret_constraints_raise_the_first_nonzero_part() {
    assert_eq!(poetry_caret_requirement("1.2.3").as_deref(), Some(">=1.2.3,<2"));
    assert_eq!(poetry_caret_requirement("0.2.3").as_deref(), Some(">=0.2.3,<0.3"));
    assert_eq!(poetry_caret_requirement("0.0.3").as_deref(), Some(">=0.0.3,<0.0.4"));
    assert_eq!(poetry_caret_requirement("0.0").as_deref(), Some(">=0.0,<0.1"));
    assert_eq!(poetry_caret_requirement("0").as_deref(), Some(">=0,<1"));
    assert_eq!(poetry_caret_requirement("x"), None);
}

#[test]
fn tilde_constraints_raise_the_minor_part() {
    assert_eq!(poetry_tilde_requirement("1.2.3").as_deref(), Some(">=1.2.3,<1.3"));
    assert_eq!(poetry_tilde_requirement("1").as_deref(), Some(">=1,<2"));
    assert_eq!(poetry_tilde_requirement(""), None);
}

#[test]
fn poetry_versions_become_requirements() {
    assert_eq!(poetry_version_requirement("x", " * ").as_deref(), Some(""));
    assert_eq!(poetry_version_requirement("x", "  "), None);
    assert_eq!(poetry_version_requirement("x", "^1.4").as_deref(), Some(">=1.4,<2"));
    assert_eq!(poetry_version_requirement("x", "~2.1").as_deref(), Some(">=2.1,<2.2"));
    assert_eq!(poetry_version_requirement("x", ">= 1.0, < 2").as_deref(), Some(">=1.0,<2"));
    assert_eq!(poetry_version_requirement("x", "^x"), None);
}
