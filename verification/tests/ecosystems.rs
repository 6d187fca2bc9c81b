use wax::package_spec::{parse_package_spec, parse_search_query, Ecosystem};
use wax::remote_search::{dedupe_remote_by_speed, RemoteHit};
use wax::winget_install::{
    native_plan, WingetAppsAndFeaturesEntry, WingetInstallerDoc, WingetInstallerEntry,
    WingetInstallerSwitches,
};

#[test]
fn parses_bangs_case_insensitive_prefix() {
    let s = parse_package_spec("Scoop/RipGrep");
    assert_eq!(s.force, Some(Ecosystem::Scoop));
    assert_eq!(s.name, "RipGrep");
}

#[test]
fn plain_name_is_auto() {
    let s = parse_package_spec("ripgrep");
    assert!(s.force.is_none());
    assert_eq!(s.name, "ripgrep");
}

#[test]
fn parse_search_query_strips_known_prefixes() {
    let (f, q) = parse_search_query("choco/git");
    assert_eq!(f, Some(Ecosystem::Chocolatey));
    assert_eq!(q, "git");
    let (f, q) = parse_search_query("winget/Microsoft.WindowsTerminal");
    assert_eq!(f, Some(Ecosystem::Winget));
    assert_eq!(q, "Microsoft.WindowsTerminal");
}

#[test]
fn speed_rank_orders_fastest_first() {
    assert!(Ecosystem::Brew.speed_rank() < Ecosystem::Scoop.speed_rank());
    assert!(Ecosystem::Scoop.speed_rank() < Ecosystem::Winget.speed_rank());
    assert!(Ecosystem::Winget.speed_rank() < Ecosystem::Chocolatey.speed_rank());
}

fn hit(eco: Ecosystem, id: &str, score: i32) -> RemoteHit {
    RemoteHit {
        ecosystem: eco,
        id: id.to_string(),
        blurb: None,
        score,
    }
}

#[test]
fn dedupe_prefers_faster_ecosystem_when_ids_collide() {
    let hits = vec![
        hit(Ecosystem::Chocolatey, "git", 1000),
        hit(Ecosystem::Scoop, "git", 500),
    ];
    let d = dedupe_remote_by_speed(hits);
    assert_eq!(d.len(), 1);
    assert_eq!(d[0].ecosystem, Ecosystem::Scoop);
}

#[test]
fn dedupe_same_ecosystem_keeps_higher_score() {
    let hits = vec![
        hit(Ecosystem::Scoop, "git", 500),
        hit(Ecosystem::Scoop, "git", 900),
    ];
    let d = dedupe_remote_by_speed(hits);
    assert_eq!(d.len(), 1);
    assert_eq!(d[0].score, 900);
}

#[test]
fn dedupe_case_folds_ids() {
    let hits = vec![
        hit(Ecosystem::Chocolatey, "Foo", 900),
        hit(Ecosystem::Scoop, "foo", 800),
    ];
    let d = dedupe_remote_by_speed(hits);
    assert_eq!(d.len(), 1);
    assert_eq!(d[0].ecosystem, Ecosystem::Scoop);
}

#[test]
fn dedupe_winget_beats_chocolatey_on_tie_id() {
    let hits = vec![
        hit(Ecosystem::Chocolatey, "pkg", 1000),
        hit(Ecosystem::Winget, "pkg", 1000),
    ];
    let d = dedupe_remote_by_speed(hits);
    assert_eq!(d.len(), 1);
    assert_eq!(d[0].ecosystem, Ecosystem::Winget);
}

fn entry(installer_type: &str) -> WingetInstallerEntry {
    WingetInstallerEntry {
        architecture: "x64".into(),
        installer_url: "https://example.invalid/app.msi".into(),
        installer_sha256: "abc".into(),
        installer_type: Some(installer_type.into()),
        installer_switches: None,
        product_code: None,
    }
}

#[test]
fn native_msi_requires_product_code_and_builds_msiexec() {
    let mut inst = entry("msi");
    inst.product_code = Some("{PRODUCT}".into());
    let doc = WingetInstallerDoc {
        installer_type: None,
        nested_installer_type: None,
        nested_installer_files: None,
        installer_switches: None,
        apps_and_features_entries: None,
        installers: vec![],
    };
    let (cmd, args, uninstall) = native_plan(&doc, &inst, "C:/tmp/app.msi").unwrap();
    assert_eq!(cmd, "msiexec.exe");
    assert_eq!(args[0], "/i");
    assert_eq!(uninstall.command, "msiexec.exe");
    assert_eq!(uninstall.args[0], "/x");
    assert_eq!(uninstall.args[1], "{PRODUCT}");
}

#[test]
fn native_exe_rejects_missing_uninstall_metadata() {
    let mut inst = entry("exe");
    inst.installer_switches = Some(WingetInstallerSwitches {
        silent: Some("/S".into()),
        silent_with_progress: None,
        custom: None,
        install_location: None,
    });
    let doc = WingetInstallerDoc {
        installer_type: None,
        nested_installer_type: None,
        nested_installer_files: None,
        installer_switches: None,
        apps_and_features_entries: None,
        installers: vec![],
    };
    assert!(native_plan(&doc, &inst, "C:/tmp/app.exe").is_err());
}

#[test]
fn native_msix_builds_powershell_commands() {
    let inst = entry("msix");
    let doc = WingetInstallerDoc {
        installer_type: None,
        nested_installer_type: None,
        nested_installer_files: None,
        installer_switches: None,
        apps_and_features_entries: Some(vec![WingetAppsAndFeaturesEntry {
            product_code: None,
            package_family_name: Some("Example.App_123".into()),
            silent_uninstall_string: None,
        }]),
        installers: vec![],
    };
    let (cmd, args, uninstall) = native_plan(&doc, &inst, "C:/tmp/app.msix").unwrap();
    assert_eq!(cmd, "powershell.exe");
    assert!(args.iter().any(|arg| arg.contains("Add-AppxPackage")));
    assert_eq!(uninstall.command, "powershell.exe");
    assert!(uninstall
        .args
        .iter()
        .any(|arg| arg.contains("Remove-AppxPackage")));
}
