use wax::cask::CaskInstaller;
use wax::commands::source::is_safe_url;
use wax::timing::{elapsed_suffix, enabled, set_enabled, Timing};
use wax::ui::dirs::{home_dir, wax_cache_dir, wax_dir, wax_logs_dir};

#[test]
fn test_is_safe_url() {
    assert!(is_safe_url("http://example.com"));
    assert!(is_safe_url("https://example.com/path?query=1"));

    assert!(!is_safe_url("file:///etc/passwd"));
    assert!(!is_safe_url("ftp://example.com"));
    assert!(!is_safe_url("javascript:alert(1)"));
    assert!(!is_safe_url("-a Terminal"));
    assert!(!is_safe_url("/usr/bin/local"));
    assert!(!is_safe_url("example.com")); // Missing scheme
}

#[test]
fn test_set_and_get_enabled() {
    let mut timing = Timing::new();

    set_enabled(&mut timing, true);
    assert!(enabled(&timing));

    set_enabled(&mut timing, false);
    assert!(!enabled(&timing));
}

#[test]
fn test_elapsed_suffix_when_enabled() {
    let mut timing = Timing::new();
    set_enabled(&mut timing, true);
    assert_eq!(elapsed_suffix(&timing, 1500), " [1500ms]");
}

#[test]
fn test_elapsed_suffix_when_disabled() {
    let mut timing = Timing::new();
    set_enabled(&mut timing, false);
    assert_eq!(elapsed_suffix(&timing, 1500), "");
}

#[test]
fn test_dirs_resolution() {
    let dummy_home = "/tmp/wax_test_home";
    let home = Some(dummy_home);

    assert_eq!(home_dir(home).unwrap(), dummy_home);
    assert_eq!(wax_dir(home).unwrap(), format!("{}/.wax", dummy_home));
    assert_eq!(
        wax_cache_dir(home).unwrap(),
        format!("{}/.wax/cache", dummy_home)
    );
    assert_eq!(
        wax_logs_dir(home).unwrap(),
        format!("{}/.wax/logs", dummy_home)
    );

    assert!(home_dir(None).is_err());
}

#[test]
fn test_resolve_source_path() {
    let staging = "/tmp/staging";
    let prefix = "/opt/homebrew";

    let res = CaskInstaller::resolve_source_path(staging, prefix, "$HOMEBREW_PREFIX/bin/foo");
    assert_eq!(res, format!("{}/bin/foo", prefix));

    let res = CaskInstaller::resolve_source_path(staging, prefix, "#{HOMEBREW_PREFIX}/bin/bar");
    assert_eq!(res, format!("{}/bin/bar", prefix));

    let res = CaskInstaller::resolve_source_path(staging, prefix, "$APPDIR/Contents/MacOS/qux");
    assert_eq!(res, format!("{}/Contents/MacOS/qux", staging));

    let res = CaskInstaller::resolve_source_path(staging, prefix, "/usr/bin/true");
    assert_eq!(res, "/usr/bin/true");

    let res = CaskInstaller::resolve_source_path(staging, prefix, "relative/path");
    assert_eq!(res, format!("{}/relative/path", staging));
}
