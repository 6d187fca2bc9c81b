use wax::api::{Cask, CaskArtifact, CaskDetails};
use wax::cask::{
    detect_artifact_type, detect_artifact_type_from_content_type,
    detect_artifact_type_from_disposition, extension_of, file_of_url, outcome, staged,
    staged_copy, CaskInstaller, CaskState, CaskroomEntry, InstalledCask, RollbackContext,
    StagingContext, StagingStep, VersionEntry,
};
use wax::commands::install_casks::{
    add_discovered, artifact_step, check_resolved, failure_text, folder_path,
    infer_artifact_type_from_cask_artifacts, install_casks, install_from_downloaded, registered,
    resolve_artifact_type, sort_requests, step_message, summary, cask_next, CaskNext, CaskPipelineFail, CaskRequests, CaskStep,
    Folder, Shell,
};
use wax::error::WaxError;
use wax::json::Json;
use wax::table::Table;
use wax::ui::Clearing;

fn text(s: &str) -> Json {
    Json::Text(s.to_string())
}

fn target(s: &str) -> Json {
    Json::Object(vec![("target".to_string(), text(s))])
}

fn record(name: &str, version: &str) -> InstalledCask {
    InstalledCask {
        name: name.to_string(),
        version: version.to_string(),
        install_date: 7,
        artifact_type: None,
        binary_paths: None,
        app_name: None,
    }
}

fn details(url: &str, artifacts: Option<Vec<CaskArtifact>>) -> CaskDetails {
    CaskDetails {
        token: "tool".to_string(),
        name: vec![],
        desc: None,
        homepage: String::new(),
        version: "2.0".to_string(),
        url: url.to_string(),
        sha256: String::new(),
        artifacts,
    }
}

fn message(e: WaxError) -> String {
    match e {
        WaxError::InstallError(m) => m,
        WaxError::PlatformNotSupported(m) => m,
        _ => panic!("another error"),
    }
}

#[test]
fn addresses_tell_artifact_types() {
    assert_eq!(detect_artifact_type("http://a/x.dmg?token=1#top"), Some("dmg"));
    assert_eq!(detect_artifact_type("http://a/x.pkg"), Some("pkg"));
    assert_eq!(detect_artifact_type("http://a/x.zip"), Some("zip"));
    for ending in [".tar.gz", ".tgz", ".tar.bz2", ".tbz", ".tar.xz", ".txz"] {
        assert_eq!(
            detect_artifact_type(&format!("http://a/x{}", ending)),
            Some("tar.gz")
        );
    }
    assert_eq!(detect_artifact_type("http://a/x.exe"), None);
    let by_type = detect_artifact_type_from_content_type;
    assert_eq!(by_type("application/x-apple-diskimage"), Some("dmg"));
    assert_eq!(by_type(" application/zip ; charset=x"), Some("zip"));
    assert_eq!(by_type("application/octet-stream"), Some("binary"));
    assert_eq!(by_type("application/gzip"), Some("tar.gz"));
    assert_eq!(by_type("application/x-pkg"), Some("pkg"));
    assert_eq!(by_type("text/html"), None);
    let by_name = detect_artifact_type_from_disposition;
    assert_eq!(by_name("attachment; filename=\"x.dmg\""), Some("dmg"));
    assert_eq!(by_name("attachment; filename*=UTF-8''Raycast-1.0.zip"), Some("zip"));
    assert_eq!(by_name("attachment; filename=x.txt; filename=y.pkg"), Some("pkg"));
    assert_eq!(by_name("inline"), None);
}

#[test]
fn servers_tell_artifact_types() {
    let probe = CaskInstaller::probe_artifact_type;
    assert_eq!(probe("http://a/x.zip", None, None), Some("zip"));
    assert_eq!(
        probe("http://a/x", Some("attachment; filename=x.pkg"), Some("application/zip")),
        Some("pkg")
    );
    assert_eq!(probe("http://a/x", None, Some("application/zip")), Some("zip"));
    assert_eq!(probe("http://a/x", None, None), None);
}

#[test]
fn downloads_are_staged() {
    assert!(matches!(
        StagingContext::step("dmg", "u", "/s"),
        StagingStep::Attach { mount_point } if mount_point == "/s/mount"
    ));
    assert!(matches!(StagingContext::step("zip", "u", "/s"), StagingStep::Unzip));
    assert!(matches!(StagingContext::step("txz", "u", "/s"), StagingStep::Untar));
    assert!(matches!(
        StagingContext::step("binary", "http://a/My%20Tool?x=1", "/s"),
        StagingStep::Copy { dest } if dest == "/s/My Tool"
    ));
    for (url, dest) in [
        ("http://a/%c3%A4b", "/s/äb"),
        ("http://a/a%2", "/s/a%2"),
        ("http://a/a%zz%41", "/s/a%zzA"),
        ("http://a/a%4%41%", "/s/a%4A%"),
        ("http://a/a%E4", "/s/a%E4"),
    ] {
        assert!(matches!(
            StagingContext::step("binary", url, "/s"),
            StagingStep::Copy { dest: d } if d == dest
        ));
    }
    assert_eq!(file_of_url("http://a/b/c?d/e"), "c");
    assert_eq!(staged_copy("/s", "n", None), "/s/n");
    assert_eq!(staged_copy("/s", "n", Some("m".to_string())), "/s/m");
    let attached = StagingContext::new(
        StagingStep::Attach { mount_point: "/s/mount".to_string() },
        "/s",
    );
    assert_eq!(attached.staging_root, "/s/mount");
    assert_eq!(attached.mount_point.as_deref(), Some("/s/mount"));
    let plain = StagingContext::new(StagingStep::Unzip, "/s");
    assert_eq!(plain.staging_root, "/s");
    assert!(plain.mount_point.is_none());
    assert!(staged(&StagingStep::Unzip, true, b"").is_ok());
    assert_eq!(
        message(staged(&StagingStep::Unzip, false, b"bad\xff").unwrap_err()),
        "Failed to extract ZIP: bad\u{fffd}"
    );
    assert_eq!(
        message(staged(&StagingStep::Untar, false, b"x").unwrap_err()),
        "Failed to extract tarball: x"
    );
    assert_eq!(message(outcome(false, "No: ", b"x").unwrap_err()), "No: x");
}

#[test]
fn artifacts_find_their_places() {
    assert!(CaskInstaller::check_platform_support("macos").is_ok());
    assert_eq!(
        message(CaskInstaller::check_platform_support("linux").unwrap_err()),
        "Cask installation is only supported on macOS. Use formulae for Linux packages."
    );
    assert_eq!(CaskInstaller::applications_dir("macos").unwrap(), "/Applications");
    assert_eq!(
        CaskInstaller::install_app("macos", "sub/Tool.app", "/s/sub/Tool.app", true).unwrap(),
        "/Applications/Tool.app"
    );
    assert_eq!(
        message(CaskInstaller::install_app("macos", "T.app", "/s/T.app", false).unwrap_err()),
        "App source does not exist: \"/s/T.app\""
    );
    assert_eq!(
        message(CaskInstaller::install_app("macos", "..", "/s", true).unwrap_err()),
        "Invalid app source: .."
    );
    assert_eq!(
        CaskInstaller::install_pkg("macos", "/s/a.pkg", true).unwrap(),
        ["sudo", "installer", "-pkg", "/s/a.pkg", "-target", "/"]
    );
    let mut record = InstalledCask {
        name: "c".to_string(),
        version: "1".to_string(),
        install_date: 0,
        artifact_type: None,
        binary_paths: None,
        app_name: None,
    };
    assert_eq!(CaskState::app_link("/p", &record), None);
    record.app_name = Some("C.app".to_string());
    assert_eq!(
        CaskState::app_link("/p", &record).unwrap(),
        ("/Applications/C.app".to_string(), "/p/Caskroom/c/1/C.app".to_string())
    );
    assert_eq!(
        CaskState::dirs_of("/p", Some("/h"), "c"),
        ["/p/Caskroom/c", "/h/.local/wax/Caskroom/c"]
    );
    assert_eq!(CaskState::dirs_of("/p", None, "c"), ["/p/Caskroom/c"]);
    let dirs = vec!["/a".to_string(), "/b".to_string()];
    let binary = |os: &str, target: Option<&str>, there: bool, usable: Vec<bool>, home: Option<&str>| {
        CaskInstaller::install_binary(os, "bin/x", target, there, &dirs, &usable, home)
    };
    let second = vec![false, true];
    assert_eq!(
        binary("macos", None, true, second.clone(), None).unwrap().as_deref(),
        Some("/b/x")
    );
    assert_eq!(
        binary("macos", Some("y"), true, second.clone(), None).unwrap().as_deref(),
        Some("/b/y")
    );
    assert_eq!(
        binary("macos", None, true, vec![false, false], Some("/h")).unwrap().as_deref(),
        Some("/h/.local/bin/x")
    );
    assert!(binary("macos", None, true, vec![false, false], None).is_err());
    assert_eq!(binary("macos", None, false, vec![false, false], None).unwrap(), None);
    assert!(matches!(
        binary("linux", None, true, second, None),
        Err(WaxError::PlatformNotSupported(_))
    ));
    assert!(CaskInstaller::wants_wrapper_script("macos", false, Some("c")));
    assert!(!CaskInstaller::wants_wrapper_script("macos", true, Some("c")));
    assert!(!CaskInstaller::wants_wrapper_script("macos", false, None));
    assert!(!CaskInstaller::wants_wrapper_script("linux", false, Some("c")));
    assert_eq!(
        CaskInstaller::install_font("macos", "F.ttf", Some("/h")).unwrap(),
        "/h/Library/Fonts/F.ttf"
    );
    assert_eq!(
        CaskInstaller::install_manpage("macos", "man/x.7", "/p").unwrap(),
        "/p/share/man/man7/x.7"
    );
    assert_eq!(
        CaskInstaller::install_manpage("macos", "x", "/p").unwrap(),
        "/p/share/man/man1/x"
    );
    assert_eq!(
        CaskInstaller::install_generic_directory("macos", "a/B.saver", "/d").unwrap(),
        "/d/B.saver"
    );
    assert_eq!(
        CaskInstaller::install_completion("macos", "/p", "c/_x", true, "zsh", "t").unwrap(),
        Some("/p/share/zsh/site-functions/_x".to_string())
    );
    assert_eq!(
        CaskInstaller::install_completion("macos", "/p", "c", false, "zsh", "t").unwrap(),
        None
    );
    assert_eq!(
        message(
            CaskInstaller::install_completion("macos", "/p", "c", true, "csh", "t").unwrap_err()
        ),
        "Unsupported shell: csh"
    );
    let clear = |there, dir| CaskInstaller::install_artifact("macos", there, dir).unwrap();
    assert_eq!(clear(true, true), Clearing::RemoveDir);
    assert_eq!(clear(true, false), Clearing::RemoveFile);
    assert_eq!(clear(false, false), Clearing::Keep);
    assert!(matches!(
        CaskInstaller::install_artifact("linux", true, true),
        Err(WaxError::PlatformNotSupported(_))
    ));
    assert_eq!(extension_of("a.tar.gz").as_deref(), Some("gz"));
    assert_eq!(extension_of(".hidden"), None);
    assert_eq!(extension_of("plain"), None);
}

#[test]
fn binaries_go_where_they_can() {
    let dirs = CaskInstaller::bin_candidates("/opt/x");
    assert_eq!(dirs, ["/opt/x/bin", "/usr/local/bin", "/opt/homebrew/bin"]);
    assert_eq!(
        CaskInstaller::detect_writable_bin_dir(&dirs, &vec![false, true, true], None).unwrap(),
        "/usr/local/bin"
    );
    assert_eq!(
        CaskInstaller::detect_writable_bin_dir(&dirs, &vec![false; 3], Some("/h")).unwrap(),
        "/h/.local/bin"
    );
    assert!(CaskInstaller::detect_writable_bin_dir(&dirs, &vec![false; 3], None).is_err());
}

#[test]
fn casks_are_recorded() {
    assert_eq!(
        CaskState::new(Some("/h")).unwrap().legacy_state_path,
        "/h/.wax/installed_casks.json"
    );
    assert!(CaskState::new(None).is_err());
    assert_eq!(CaskState::caskroom_dir("/p"), "/p/Caskroom");
    assert_eq!(
        CaskState::user_caskroom_dir(Some("/h")).unwrap(),
        "/h/.local/wax/Caskroom"
    );
    assert_eq!(CaskState::version_dir("/p", "a", "1"), "/p/Caskroom/a/1");
    assert!(CaskState::links_app(true, false));
    assert!(!CaskState::links_app(true, true));
    let mut t: Table<InstalledCask> = Table::new();
    CaskState::add(&mut t, record("kept", "1"));
    let entry = |name: &str, is_dir: bool, version: &str| CaskroomEntry {
        name: name.to_string(),
        is_dir,
        versions: vec![
            VersionEntry { name: ".metadata".to_string(), is_dir: true, modified: Some(1) },
            VersionEntry { name: version.to_string(), is_dir: true, modified: Some(5) },
        ],
    };
    CaskState::load(
        &mut t,
        &vec![
            entry("kept", true, "9"),
            entry("new", true, "3"),
            entry(".hidden", true, "1"),
            entry("file", false, "1"),
        ],
    );
    assert_eq!(t.entries.len(), 2);
    assert_eq!(t.get("kept").unwrap().version, "1");
    assert_eq!(t.get("new").unwrap().version, "3");
    assert_eq!(t.get("new").unwrap().install_date, 5);
    assert_eq!(
        CaskState::scan_cask_version_dir(&vec![]),
        ("unknown".to_string(), 0)
    );
    CaskState::remove(&mut t, "kept");
    assert!(!t.contains_key("kept"));
    add_discovered(&mut t, vec![record("new", "8"), record("other", "4")]);
    assert_eq!(t.get("new").unwrap().version, "3");
    assert_eq!(t.get("other").unwrap().version, "4");
}

#[test]
fn failed_installs_are_undone() {
    let mut r = RollbackContext::new();
    r.add("/a".to_string());
    r.add("/b".to_string());
    assert_eq!(r.undone(), ["/a", "/b"]);
    r.commit();
    assert!(r.undone().is_empty());
}

#[test]
fn artifacts_become_steps() {
    let app = CaskArtifact::App { app: vec![text("T.app")] };
    let binary = CaskArtifact::Binary { binary: vec![text("x"), target("y")] };
    let artifact = CaskArtifact::Artifact { artifact: vec![text("x"), target("/y")] };
    let plain = CaskArtifact::Artifact { artifact: vec![text("x")] };
    assert!(matches!(artifact_step(&app), CaskStep::App { source, guessed: false } if source == "T.app"));
    assert!(matches!(
        artifact_step(&binary),
        CaskStep::Binary { source, target: Some(t) } if source == "x" && t == "y"
    ));
    assert!(matches!(
        artifact_step(&artifact),
        CaskStep::Artifact { source, target } if source == "x" && target == "/y"
    ));
    assert!(matches!(artifact_step(&plain), CaskStep::Nothing));
    assert!(matches!(
        artifact_step(&CaskArtifact::ZshCompletion { zsh_completion: vec![text("_x")] }),
        CaskStep::Completion { shell: Shell::Zsh, .. }
    ));
    assert!(matches!(
        artifact_step(&CaskArtifact::Preflight { preflight: Some(Json::Null) }),
        CaskStep::SkipPreflight
    ));
    assert!(matches!(
        artifact_step(&CaskArtifact::Zap { zap: vec![text("x")] }),
        CaskStep::Nothing
    ));
    assert_eq!(
        step_message(&artifact_step(&artifact)).unwrap(),
        "installing artifact: x to /y"
    );
    assert_eq!(step_message(&CaskStep::Nothing), None);
    let d = details("http://a/x.zip", Some(vec![app, binary]));
    let steps = install_from_downloaded(&d, "zip", &vec![]);
    assert_eq!(steps.len(), 2);
    let r = registered(&d, "zip", &steps, vec!["/b/y".to_string()], 4);
    assert_eq!(r.name, "tool");
    assert_eq!(r.version, "2.0");
    assert_eq!(r.install_date, 4);
    assert_eq!(r.app_name.as_deref(), Some("T.app"));
    assert_eq!(r.artifact_type.as_deref(), Some("zip"));
    assert_eq!(r.binary_paths.unwrap(), ["/b/y"]);
    let bare = details("http://a/x.zip", None);
    let found = vec!["readme".to_string(), "G.app".to_string(), "H.app".to_string()];
    let guessed = install_from_downloaded(&bare, "zip", &found);
    assert_eq!(guessed.len(), 1);
    assert_eq!(
        step_message(&guessed[0]).unwrap(),
        "installing guessed app: G.app"
    );
    assert!(install_from_downloaded(&bare, "pkg", &found).is_empty());
}

#[test]
fn folders_have_places() {
    let at = |f: Folder| folder_path(f, "macos", Some("/h")).unwrap();
    assert_eq!(at(Folder::Dictionary), "/h/Library/Dictionaries");
    assert_eq!(at(Folder::Colorpicker), "/h/Library/ColorPickers");
    assert_eq!(at(Folder::Prefpane), "/h/Library/PreferencePanes");
    assert_eq!(at(Folder::Qlplugin), "/h/Library/QuickLook");
    assert_eq!(at(Folder::ScreenSaver), "/h/Library/Screen Savers");
    assert_eq!(at(Folder::Service), "/h/Library/Services");
    assert_eq!(at(Folder::Suite), "/Applications");
    assert!(folder_path(Folder::Suite, "linux", Some("/h")).is_err());
    assert!(folder_path(Folder::Service, "macos", None).is_err());
}

#[test]
fn types_are_inferred_from_artifacts() {
    let pkg = || CaskArtifact::Pkg { pkg: vec![text("a.pkg")] };
    let binary = || CaskArtifact::Binary { binary: vec![text("x")] };
    let app = || CaskArtifact::App { app: vec![text("T.app")] };
    let both = details("http://a/x", Some(vec![binary(), pkg()]));
    assert_eq!(infer_artifact_type_from_cask_artifacts(&both, true), Some("pkg"));
    assert_eq!(resolve_artifact_type(&both, None, true).unwrap(), "binary");
    assert_eq!(resolve_artifact_type(&both, Some("zip"), true).unwrap(), "zip");
    let apps = details("http://a/x", Some(vec![app()]));
    assert_eq!(resolve_artifact_type(&apps, None, true).unwrap(), "dmg");
    assert_eq!(
        message(resolve_artifact_type(&apps, None, false).unwrap_err()),
        "Unsupported artifact type for URL: http://a/x"
    );
    let known = details("http://a/x.tbz", Some(vec![app()]));
    assert_eq!(resolve_artifact_type(&known, Some("zip"), true).unwrap(), "tar.gz");
}

#[test]
fn requests_for_casks_are_sorted() {
    let cask = Cask {
        token: "known".to_string(),
        full_token: "homebrew/cask/known".to_string(),
        name: vec![],
        desc: None,
        homepage: String::new(),
        version: "1".to_string(),
        deprecated: false,
        disabled: false,
    };
    let mut t: Table<InstalledCask> = Table::new();
    CaskState::add(&mut t, record("have", "1"));
    let names: Vec<String> = ["known", "have", "nothing"].iter().map(|s| s.to_string()).collect();
    let casks = vec![cask];
    let on_mac = sort_requests(&names, &t, true, &casks);
    assert_eq!(on_mac.to_install, ["known"]);
    assert_eq!(on_mac.already_installed, ["have"]);
    assert_eq!(on_mac.unknown, ["nothing"]);
    assert!(on_mac.linux_installs.is_empty());
    let elsewhere = sort_requests(&names, &t, false, &casks);
    assert_eq!(elsewhere.linux_installs, ["known", "nothing"]);
    assert!(elsewhere.to_install.is_empty());
}

#[test]
fn cask_outcomes_are_told() {
    assert!(check_resolved(0, 1).is_ok());
    assert_eq!(message(check_resolved(0, 0).unwrap_err()), "No casks could be resolved");
    assert_eq!(failure_text(CaskPipelineFail::Download, "a", "b"), "a download failed: b");
    assert_eq!(failure_text(CaskPipelineFail::Checksum, "a", "b"), "a checksum failed: b");
    assert_eq!(failure_text(CaskPipelineFail::Install, "a", "b"), "a failed: b");
    assert_eq!(summary(1, 0, 12), "1 cask installed [12ms]");
    assert_eq!(summary(2, 0, 12), "2 casks installed [12ms]");
    assert_eq!(summary(2, 1, 12), "2/3 casks installed (1 failed) [12ms]");
    assert!(install_casks(&vec![]).is_ok());
    assert_eq!(
        message(install_casks(&vec!["a".to_string(), "b".to_string()]).unwrap_err()),
        "Some casks failed: a, b"
    );
}

#[test]
fn trials_install_no_cask() {
    let some = || vec!["a".to_string()];
    let requests = |to_install: Vec<String>, linux_installs: Vec<String>| CaskRequests {
        to_install,
        linux_installs,
        already_installed: vec![],
        unknown: some(),
    };
    assert_eq!(cask_next(&requests(some(), vec![]), true), CaskNext::Trial);
    assert_eq!(cask_next(&requests(vec![], some()), true), CaskNext::Trial);
    assert_eq!(cask_next(&requests(some(), vec![]), false), CaskNext::Install);
    assert_eq!(cask_next(&requests(vec![], some()), false), CaskNext::Install);
    assert_eq!(cask_next(&requests(vec![], vec![]), false), CaskNext::Nothing);
}
