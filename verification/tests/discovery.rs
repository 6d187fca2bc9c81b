use wax::api::Cask;
use wax::discovery::{
    build_cask_candidate_index, combine_bundle_version_for_cask, normalize_package_token,
    parse_apk_inventory_lines, parse_space_inventory_lines, parse_tab_inventory_lines,
    resolve_cask_match, AppBundleMetadata,
};

#[test]
fn normalizes_common_app_names() {
    assert_eq!(
        normalize_package_token("Google Chrome.app"),
        "google-chrome"
    );
    assert_eq!(
        normalize_package_token("Visual Studio Code"),
        "visual-studio-code"
    );
    assert_eq!(normalize_package_token("Docker Desktop"), "docker-desktop");
}

#[test]
fn matches_cask_aliases() {
    let cask = Cask {
        token: "google-chrome".to_string(),
        full_token: "homebrew/cask/google-chrome".to_string(),
        name: vec!["Google Chrome".to_string()],
        desc: None,
        homepage: "https://www.google.com/chrome/".to_string(),
        version: "1.0".to_string(),
        deprecated: false,
        disabled: false,
    };
    let casks = vec![cask];
    let index = build_cask_candidate_index(&casks);
    let app = AppBundleMetadata {
        bundle_name: "Google Chrome".to_string(),
        file_name: "Google Chrome.app".to_string(),
        bundle_identifier: None,
        short_version: Some("1.0".to_string()),
        bundle_version: None,
    };
    let resolved = resolve_cask_match(&casks, &index, &app).unwrap();

    assert_eq!(casks[resolved.cask_index].token, "google-chrome");
    assert_eq!(resolved.version.as_deref(), Some("1.0"));
}

fn test_cask(token: &str, names: &[&str], homepage: &str, version: &str) -> Cask {
    Cask {
        token: token.to_string(),
        full_token: token.to_string(),
        name: names.iter().map(|name| name.to_string()).collect(),
        desc: None,
        homepage: homepage.to_string(),
        version: version.to_string(),
        deprecated: false,
        disabled: false,
    }
}

#[test]
fn prefers_exact_version_when_app_name_is_ambiguous() {
    let casks = vec![
        test_cask("example", &["Example"], "https://example.invalid/", "9.9.9"),
        test_cask(
            "vendor-example",
            &["Example"],
            "https://vendor.invalid/example",
            "1.2.3",
        ),
    ];
    let index = build_cask_candidate_index(&casks);
    let app = AppBundleMetadata {
        bundle_name: "Example".to_string(),
        file_name: "Example.app".to_string(),
        bundle_identifier: None,
        short_version: Some("1.2.3".to_string()),
        bundle_version: None,
    };
    let resolved = resolve_cask_match(&casks, &index, &app).unwrap();

    assert_eq!(casks[resolved.cask_index].token, "vendor-example");
    assert_eq!(resolved.version.as_deref(), Some("1.2.3"));
}

#[test]
fn uses_bundle_identifier_to_break_ambiguous_app_name_tie() {
    let casks = vec![
        test_cask("example", &["Example"], "https://example.invalid/", "9.9.9"),
        test_cask(
            "vendor-example",
            &["Example"],
            "https://vendor.invalid/example",
            "8.8.8",
        ),
    ];
    let index = build_cask_candidate_index(&casks);
    let app = AppBundleMetadata {
        bundle_name: "Example".to_string(),
        file_name: "Example.app".to_string(),
        bundle_identifier: Some("com.vendor.Example".to_string()),
        short_version: Some("1.2.3".to_string()),
        bundle_version: None,
    };
    let resolved = resolve_cask_match(&casks, &index, &app).unwrap();

    assert_eq!(casks[resolved.cask_index].token, "vendor-example");
}

#[test]
fn does_not_guess_when_app_name_is_ambiguous() {
    let casks = vec![
        test_cask("example", &["Example"], "https://example.invalid/", "9.9.9"),
        test_cask(
            "vendor-example",
            &["Example"],
            "https://vendor.invalid/example",
            "8.8.8",
        ),
    ];
    let index = build_cask_candidate_index(&casks);
    let app = AppBundleMetadata {
        bundle_name: "Example".to_string(),
        file_name: "Example.app".to_string(),
        bundle_identifier: None,
        short_version: Some("1.2.3".to_string()),
        bundle_version: None,
    };

    assert_eq!(resolve_cask_match(&casks, &index, &app), None);
}

#[test]
fn combines_bundle_version_when_cask_uses_build_suffix() {
    assert_eq!(
        combine_bundle_version_for_cask("1.2.3", "456", "1.2.3,456"),
        Some("1.2.3,456".to_string())
    );
    assert_eq!(
        combine_bundle_version_for_cask("1.2.3", "456", "1.2.3,456,789"),
        Some("1.2.3,456".to_string())
    );
    assert_eq!(
        combine_bundle_version_for_cask("1.2.3", "123", "1.2.3,456"),
        None
    );
}

#[test]
fn parses_tab_inventory_lines() {
    let input = b"vim	2:9.1.0000-1
chromium:amd64	125.0.6422.141-1
";
    let parsed = parse_tab_inventory_lines(input, true);
    assert_eq!(parsed[0], ("vim".to_string(), "2:9.1.0000-1".to_string()));
    assert_eq!(
        parsed[1],
        ("chromium".to_string(), "125.0.6422.141-1".to_string())
    );
}

#[test]
fn parses_space_inventory_lines() {
    let input = b"pacman 6.1.0-3
pacman:amd64 6.1.0-3
";
    let parsed = parse_space_inventory_lines(input, true);
    assert_eq!(parsed[0], ("pacman".to_string(), "6.1.0-3".to_string()));
    assert_eq!(parsed[1], ("pacman".to_string(), "6.1.0-3".to_string()));
}

#[test]
fn parses_apk_inventory_lines_with_longest_prefix_match() {
    let names = vec![
        "foo".to_string(),
        "foo-bar".to_string(),
        "busybox".to_string(),
    ];
    let input = b"foo-bar-1.2.3-r0 BusyBox package
busybox-1.36.1-r2 busybox utilities
";
    let parsed = parse_apk_inventory_lines(input, &names);
    assert_eq!(parsed[0], ("foo-bar".to_string(), "1.2.3-r0".to_string()));
    assert_eq!(parsed[1], ("busybox".to_string(), "1.36.1-r2".to_string()));
}

#[test]
fn tokens_are_their_own_tokens() {
    for value in ["Google Chrome.app", "--A__b//C.app--", "ÄÖ Ünder", "\u{212a}elvin", "", "x"] {
        let once = normalize_package_token(value);
        assert!(once.chars().all(|c| matches!(c, 'a'..='z' | '0'..='9' | '-')));
        assert!(!once.starts_with('-') && !once.ends_with('-') && !once.contains("--"));
        assert_eq!(normalize_package_token(&once), once);
    }
    assert_eq!(normalize_package_token("\u{212a}elvin"), "kelvin");
}
