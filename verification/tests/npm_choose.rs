use omc_registry::error::OmcRegistryError;
use omc_registry::npm_choose::{
    choose_npm_version, choose_npm_version_checked, npm_version_published_before, parse_npm_before,
    NpmRoot,
};
use omc_registry::set_map::PinMap;

fn map(entries: &[(&str, &str)]) -> PinMap {
    PinMap { entries: entries.iter().map(|(k, v)| (k.to_string(), v.to_string())).collect() }
}

fn root() -> NpmRoot {
    NpmRoot {
        latest: "2.0.0".to_string(),
        tags: map(&[("next", "3.0.0-rc.1")]),
        time: map(&[
            ("1.0.0", "2023-01-01T00:00:00Z"),
            ("1.5.0", "2023-05-01T00:00:00Z"),
            ("2.0.0", "2024-03-01T00:00:00Z"),
            ("3.0.0-rc.1", "2024-07-01T00:00:00Z"),
        ]),
        versions: vec![
            "1.0.0".to_string(),
            "1.5.0".to_string(),
            "2.0.0".to_string(),
            "3.0.0-rc.1".to_string(),
        ],
    }
}

#[test]
fn before_values() {
    assert_eq!(parse_npm_before(" 2024-01-02 "), Ok((1704153600, 0)));
    assert_eq!(parse_npm_before("2024-01-02T03:04:05Z"), Ok((1704164645, 0)));
    assert!(parse_npm_before("2024-01-02T03:04:05").is_ok());
    assert!(parse_npm_before("2024-01-02 03:04:05").is_ok());
    assert_eq!(
        parse_npm_before("  "),
        Err(OmcRegistryError::UnsupportedSpec("npm --before needs a datetime or YYYY-MM-DD date".to_string()))
    );
    assert_eq!(
        parse_npm_before("last week"),
        Err(OmcRegistryError::UnsupportedSpec("unsupported npm --before value `last week`".to_string()))
    );
}

#[test]
fn publish_times() {
    let r = root();
    assert_eq!(npm_version_published_before(&r, "1.5.0", None), Ok(true));
    assert_eq!(npm_version_published_before(&r, "1.5.0", Some((1685577600, 0))), Ok(true));
    assert_eq!(npm_version_published_before(&r, "2.0.0", Some((1685577600, 0))), Ok(false));
    assert_eq!(
        npm_version_published_before(&r, "9.9.9", Some((1685577600, 0))),
        Err(OmcRegistryError::UnsupportedSpec(
            "npm --before requires publish-time metadata for npm version 9.9.9".to_string()
        ))
    );
}

#[test]
fn versions_are_chosen() {
    let r = root();
    assert_eq!(choose_npm_version("demo", "latest", &r, None), Ok("2.0.0".to_string()));
    assert_eq!(choose_npm_version("demo", "next", &r, None), Ok("3.0.0-rc.1".to_string()));
    assert_eq!(choose_npm_version("demo", "^1.0.0", &r, None), Ok("1.5.0".to_string()));
    assert_eq!(choose_npm_version("demo", "latest", &r, Some((1685577600, 0))), Ok("1.5.0".to_string()));
    assert_eq!(choose_npm_version("demo", "^1.0.0", &r, Some((1685577600, 0))), Ok("1.5.0".to_string()));
    assert_eq!(choose_npm_version("demo", "^2.0.0", &r, Some((1717200000, 0))), Ok("2.0.0".to_string()));
    assert_eq!(
        choose_npm_version("demo", "^4.0.0", &r, None),
        Err(OmcRegistryError::UnsatisfiedRequirement {
            name: "demo".to_string(),
            requirement: "^4.0.0".to_string()
        })
    );
    assert_eq!(choose_npm_version_checked("demo", "^18446744073709551615", &r, None), None);
    assert_eq!(
        choose_npm_version_checked("demo", "^1.0.0", &r, None),
        Some(Ok("1.5.0".to_string()))
    );
}
