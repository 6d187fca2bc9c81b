use wax::error::WaxError;
use wax::winget_install::{
    archive_name, check_platform, equal_but_case, exe_install_args, exe_uninstall,
    expected_sha256, installed_text, installer_switches_for,
    installer_type_for, installer_yaml_path, is_portable_archive, join_under_root, list_url,
    msi_install_args, msi_uninstall, msix_install_args, msix_uninstall, native_end,
    native_outcome, native_plan, nested_copy, nested_files, nested_source, package_family_name_for,
    package_id_to_content_path, pick_installer, product_code_for,
    ps_quote, raw_url, split_switches, staged_installer, staging_dir, version_folders,
    winget_arch_token, GhContentEntry, NativeEnd, WingetAppsAndFeaturesEntry, WingetInstallerDoc,
    WingetInstallerEntry, WingetInstallerSwitches, WingetNestedFile,
};

fn doc() -> WingetInstallerDoc {
    WingetInstallerDoc {
        installer_type: None,
        nested_installer_type: None,
        nested_installer_files: None,
        installer_switches: None,
        apps_and_features_entries: None,
        installers: vec![],
    }
}

fn installer(arch: &str, kind: Option<&str>) -> WingetInstallerEntry {
    WingetInstallerEntry {
        architecture: arch.to_string(),
        installer_url: "https://example.invalid/app.bin".to_string(),
        installer_sha256: " ABC ".to_string(),
        installer_type: kind.map(|k| k.to_string()),
        installer_switches: None,
        product_code: None,
    }
}

fn app(product: Option<&str>, family: Option<&str>, uninstall: Option<&str>) -> WingetAppsAndFeaturesEntry {
    WingetAppsAndFeaturesEntry {
        product_code: product.map(|s| s.to_string()),
        package_family_name: family.map(|s| s.to_string()),
        silent_uninstall_string: uninstall.map(|s| s.to_string()),
    }
}

fn message<T>(r: Result<T, WaxError>) -> String {
    match r {
        Err(WaxError::InstallError(m)) => m,
        Err(other) => panic!("another error: {:?}", other),
        Ok(_) => panic!("no error"),
    }
}

fn entry(name: &str, kind: &str) -> GhContentEntry {
    GhContentEntry {
        name: name.to_string(),
        entry_type: kind.to_string(),
        path: format!("p/{}", name),
    }
}

#[test]
fn manifests_are_found() {
    assert_eq!(
        package_id_to_content_path("JesseDuffield.lazygit").unwrap(),
        "manifests/j/JesseDuffield/lazygit"
    );
    assert_eq!(
        package_id_to_content_path(".A..B.c").unwrap(),
        "manifests/a/A/B/c"
    );
    assert!(matches!(
        package_id_to_content_path("git"),
        Err(WaxError::InvalidInput(m)) if m.starts_with("winget PackageIdentifier needs at least two")
    ));
    assert_eq!(
        list_url("a/b"),
        "https://api.github.com/repos/microsoft/winget-pkgs/contents/a/b?ref=master"
    );
    assert_eq!(
        raw_url("a.yaml"),
        "https://raw.githubusercontent.com/microsoft/winget-pkgs/master/a.yaml"
    );
    let entries = vec![entry("1.0", "dir"), entry("x", "file"), entry("2.0", "dir")];
    assert_eq!(version_folders("m", &entries).unwrap(), vec!["1.0", "2.0"]);
    assert!(matches!(
        version_folders("m", &vec![entry("x", "file")]),
        Err(WaxError::FormulaNotFound(m)) if m == "no version folders under winget-pkgs/m"
    ));
    let files = vec![
        entry("a.installer.yaml", "dir"),
        entry("b.installer.yaml", "file"),
    ];
    assert_eq!(installer_yaml_path(&files).unwrap(), "p/b.installer.yaml");
    assert_eq!(
        message(installer_yaml_path(&vec![])),
        "No .installer.yaml in latest winget version (wax only supports installer manifests)"
    );
}

#[test]
fn installer_of_the_architecture_is_picked() {
    assert_eq!(winget_arch_token("aarch64"), "arm64");
    assert_eq!(winget_arch_token("x86"), "x86");
    assert_eq!(winget_arch_token("x86_64"), "x64");
    let mut d = doc();
    d.installers = vec![installer("x86", None), installer("X64", Some("zip"))];
    assert_eq!(pick_installer(&d, "x86_64").unwrap().architecture, "X64");
    assert_eq!(pick_installer(&d, "aarch64").unwrap().architecture, "x86");
    assert_eq!(
        message(pick_installer(&doc(), "x86")),
        "winget manifest has no installers"
    );
    assert!(equal_but_case("ZiP", "zip"));
    assert!(!equal_but_case("zipp", "zip"));
}

#[test]
fn portable_archives_are_told_apart() {
    let mut d = doc();
    d.installer_type = Some("Zip".to_string());
    let inst = installer("x64", None);
    assert!(!is_portable_archive(&d, &inst));
    d.nested_installer_type = Some("PORTABLE".to_string());
    assert!(is_portable_archive(&d, &inst));
    assert!(!is_portable_archive(&d, &installer("x64", Some("exe"))));
    assert_eq!(
        message(nested_files(&d)),
        "winget manifest missing NestedInstallerFiles"
    );
}

#[test]
fn native_installers_need_a_way_back() {
    let inst = installer("x64", Some("WIX"));
    assert_eq!(
        message(native_plan(&doc(), &inst, "a.msi")),
        "winget msi installer is missing ProductCode for managed uninstall"
    );
    let mut d = doc();
    d.apps_and_features_entries = Some(vec![app(None, None, None), app(Some("{P}"), None, None)]);
    let (cmd, args, back) = native_plan(&d, &inst, "a.msi").unwrap();
    assert_eq!(cmd, "msiexec.exe");
    assert_eq!(args, vec!["/i", "a.msi", "/qn", "/norestart"]);
    assert_eq!(back.args, vec!["/x", "{P}", "/qn", "/norestart"]);
    assert_eq!(product_code_for(&d, &inst).as_deref(), Some("{P}"));
    assert_eq!(
        message(native_plan(&doc(), &installer("x64", Some("appx")), "a")),
        "winget msix installer is missing PackageFamilyName for managed uninstall"
    );
    assert_eq!(
        message(native_plan(&doc(), &installer("x64", Some("exe")), "a")),
        "winget exe installer is missing InstallerSwitches"
    );
    assert_eq!(
        message(native_plan(&doc(), &installer("x64", Some("PWA")), "a")),
        "wax does not support native winget InstallerType=pwa"
    );
}

#[test]
fn program_installers_run_silently() {
    let mut d = doc();
    d.installer_switches = Some(WingetInstallerSwitches {
        silent: None,
        silent_with_progress: Some("/S  /Q".to_string()),
        custom: Some("/C".to_string()),
        install_location: Some("/D x".to_string()),
    });
    let inst = installer("x64", Some("inno"));
    assert_eq!(
        message(native_plan(&d, &inst, "a.exe")),
        "winget exe installer is missing silent uninstall metadata"
    );
    d.apps_and_features_entries = Some(vec![app(None, None, Some("un.exe /S now"))]);
    let (cmd, args, back) = native_plan(&d, &inst, "a.exe").unwrap();
    assert_eq!(cmd, "a.exe");
    assert_eq!(args, vec!["/S", "/Q", "/C", "/D", "x"]);
    assert_eq!(back.command, "un.exe");
    assert_eq!(back.args, vec!["/S", "now"]);
    assert_eq!(exe_uninstall(&d).unwrap().command, "un.exe");
    d.apps_and_features_entries = Some(vec![app(None, None, Some("  "))]);
    assert_eq!(message(native_plan(&d, &inst, "a.exe")), "empty silent uninstall metadata");
    assert_eq!(message(exe_uninstall(&d)), "empty silent uninstall metadata");
    assert_eq!(native_end(false, false), NativeEnd::Clear);
    assert_eq!(native_end(true, false), NativeEnd::Undo);
    assert_eq!(native_end(true, true), NativeEnd::Done);
    let silent = WingetInstallerSwitches {
        silent: None,
        silent_with_progress: None,
        custom: Some("/C".to_string()),
        install_location: None,
    };
    assert_eq!(
        message(exe_install_args(&silent)),
        "winget exe installer is missing silent install switches"
    );
    assert_eq!(split_switches(" a\tb "), vec!["a", "b"]);
}

#[test]
fn quotes_are_doubled() {
    assert_eq!(ps_quote("C:/it's"), "'C:/it''s'");
    assert_eq!(ps_quote(""), "''");
}

#[test]
fn portable_files_are_placed() {
    let file = |path: &str, alias: Option<&str>| WingetNestedFile {
        relative_file_path: path.to_string(),
        portable_command_alias: alias.map(|a| a.to_string()),
    };
    let f = file("bin\\lg.exe", Some("lazygit"));
    assert_eq!(nested_source("/x", &f, true).unwrap(), "/x/bin/lg.exe");
    assert_eq!(
        message(nested_source("/x", &file("..\\lg.exe", None), true)),
        "Unsafe path in winget manifest: ../lg.exe"
    );
    assert_eq!(
        message(join_under_root("/x", "D:a", true)),
        "Unsafe path in winget manifest: D:a"
    );
    assert_eq!(
        nested_copy(&f, "/x/bin/lg.exe", true, "/b").unwrap(),
        "/b/lazygit.exe"
    );
    assert_eq!(
        nested_copy(&file("a", None), "/x/lg.exe", true, "/b").unwrap(),
        "/b/lg.exe"
    );
    assert_eq!(
        nested_copy(&file("a", None), "/", true, "/b").unwrap(),
        "/b/app.exe"
    );
    assert_eq!(
        message(nested_copy(&f, "/x/lg.exe", false, "/b")),
        "nested portable file missing: /x/lg.exe"
    );
    assert_eq!(
        staging_dir("/r", true, "A.B", "1.0"),
        "/r/winget-apps/A_B/1.0"
    );
    assert_eq!(
        staging_dir("/r", false, "A.B", "1.0"),
        "/r/winget-installers/A_B/1.0"
    );
    assert_eq!(staged_installer("/s", "/tmp/app.msi"), "/s/app.msi");
    assert_eq!(staged_installer("/s", "/"), "/s/installer.bin");
    assert_eq!(archive_name("https://a/b.zip"), "b.zip");
    assert_eq!(archive_name(""), "winget-installer.bin");
    assert_eq!(expected_sha256(&installer("x64", None)), "abc");
}

#[test]
fn outcomes_are_told() {
    assert!(native_outcome(true, true, "exit code: 0", "msiexec.exe").is_ok());
    assert_eq!(
        message(native_outcome(true, false, "exit code: 1603", "msiexec.exe")),
        "native installer command failed with exit code: 1603: msiexec.exe"
    );
    assert!(matches!(
        native_outcome(false, true, "", "x"),
        Err(WaxError::PlatformNotSupported(_))
    ));
    assert!(check_platform(true).is_ok());
    assert!(matches!(
        check_platform(false),
        Err(WaxError::PlatformNotSupported(_))
    ));
    assert_eq!(
        installed_text("A.B", "1", Some("/b")),
        "Installed A.B 1 (winget portable zip) — binaries under:\n  /b"
    );
    assert_eq!(
        installed_text("A.B", "1", None),
        "Installed A.B 1 (winget native installer)"
    );
}

#[test]
fn installer_facts_come_before_manifest_facts() {
    let mut d = doc();
    d.installer_type = Some("msi".to_string());
    assert_eq!(installer_type_for(&d, &installer("x64", None)), "msi");
    assert_eq!(installer_type_for(&d, &installer("x64", Some("exe"))), "exe");
    assert_eq!(installer_type_for(&doc(), &installer("x64", None)), "");
    assert!(installer_switches_for(&d, &installer("x64", None)).is_none());
    assert!(package_family_name_for(&d).is_none());
    d.apps_and_features_entries = Some(vec![app(None, None, None), app(None, Some("F_1"), None)]);
    assert_eq!(package_family_name_for(&d).as_deref(), Some("F_1"));
}

#[test]
fn native_commands_are_spelled_out() {
    assert_eq!(msi_install_args("a.msi"), ["/i", "a.msi", "/qn", "/norestart"]);
    let u = msi_uninstall("{1}");
    assert_eq!(u.command, "msiexec.exe");
    assert_eq!(u.args, ["/x", "{1}", "/qn", "/norestart"]);
    assert_eq!(msix_install_args("a'b")[4], "Add-AppxPackage -Path 'a''b'");
    let u = msix_uninstall("F_1");
    assert_eq!(u.command, "powershell.exe");
    assert_eq!(
        u.args[4],
        "Get-AppxPackage -PackageFamilyName 'F_1' | Remove-AppxPackage"
    );
}
