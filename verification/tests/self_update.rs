use wax::commands::self_update::{asset_name, is_newer, parse_version};

#[test]
fn parse_version_with_v_prefix() {
    assert_eq!(parse_version("v0.13.3"), Some((0, 13, 3)));
}

#[test]
fn parse_version_without_prefix() {
    assert_eq!(parse_version("0.13.3"), Some((0, 13, 3)));
}

#[test]
fn parse_version_prerelease_ignored() {
    assert_eq!(parse_version("1.2.3-beta.1"), Some((1, 2, 3)));
}

#[test]
fn parse_version_invalid() {
    assert_eq!(parse_version("not-a-version"), None);
    assert_eq!(parse_version("1.2"), None);
}

#[test]
fn is_newer_detects_upgrade() {
    assert!(is_newer("0.13.2", "0.13.3"));
    assert!(is_newer("0.12.9", "0.13.0"));
    assert!(is_newer("1.0.0", "2.0.0"));
}

#[test]
fn is_newer_same_or_older() {
    assert!(!is_newer("0.13.3", "0.13.3"));
    assert!(!is_newer("0.13.3", "0.13.2"));
}

#[test]
fn asset_name_returns_valid_string() {
    let name = asset_name("linux", "x86_64").unwrap();
    assert!(name.starts_with("wax-"));
    assert!(name.contains('-'));
}
