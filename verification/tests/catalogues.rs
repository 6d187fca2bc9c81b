use wax::api::Formula;
use wax::chocolatey;
use wax::chocolatey::{
    collect_exe_files, install_portable_tools, is_portable_exe, nupkg_url, search_package_ids,
    search_url, take_ids, FileTree,
};
use wax::ecosystem_install::{
    auto_pick_ecosystem, brew_has, dry_run_text, handle_found, install_forced, install_one_qualified,
    worth_asking_winget, Found, Forced, Handling,
};
use wax::error::WaxError;
use wax::json::Json;
use wax::outside::Zipped;
use wax::package_spec::Ecosystem;
use wax::remote_search::{
    collect_remote_hits, dedupe_remote_by_speed, fit_of, hit_hint, looks_like_version_folder,
    match_score_token, package_id_from_winget_manifest_path, scoop_index_is_fresh, scoop_names,
    winget_hits, winget_search_url, RemoteHit,
};
use wax::scoop;
use wax::scoop::{
    archive_kind_from_url, bin_copy, check_tree, manifest_text, manifest_url, may_lead_out,
    normalize_scoop_hash, parse_bin_paths, resolve_manifest_json, resolved_staging_dir,
    scoop_arch_key, source_tree, strip_url_fragment, unsupported_script_fields,
    value_is_empty_or_comment_only, wax_bin_dir, ArchEntry, ScoopManifest,
};
use wax::system::extractor::Placement;
use wax::table::{Entry, Table};

fn text(s: &str) -> Json {
    Json::Text(s.to_string())
}

fn strings(v: &[&str]) -> Vec<String> {
    v.iter().map(|s| s.to_string()).collect()
}

fn install_error(e: WaxError) -> String {
    match e {
        WaxError::InstallError(m) => m,
        other => panic!("not an install error: {:?}", other),
    }
}

// ---------------------------------------------------------------------------
// Scoop

const SHA: &str = "0123456789abcdef0123456789abcdef0123456789abcdef0123456789abcdef";

fn manifest() -> ScoopManifest {
    ScoopManifest {
        version: "15.1.0".to_string(),
        url: Some("https://example.com/rg.zip#/dl.7z".to_string()),
        hash: Some(format!("sha256:{}", SHA.to_uppercase())),
        architecture: None,
        bin: Some(text("rg.exe")),
        pre_install: None,
        post_install: None,
        installer: None,
    }
}

#[test]
fn manifest_without_architectures_resolves() {
    let r = resolve_manifest_json(&manifest(), "x86_64").unwrap();
    assert_eq!(r.version, "15.1.0");
    assert_eq!(r.download_url, "https://example.com/rg.zip");
    assert_eq!(r.sha256, SHA);
    assert_eq!(r.extract_dir, None);
    assert_eq!(r.bin_paths, strings(&["rg.exe"]));
}

#[test]
fn manifest_picks_the_entry_of_the_architecture() {
    let mut m = manifest();
    m.architecture = Some(Table {
        entries: vec![
            Entry {
                name: "64bit".to_string(),
                value: ArchEntry {
                    url: "https://example.com/x64.zip".to_string(),
                    hash: SHA.to_string(),
                    extract_dir: Some("ripgrep-15.1.0".to_string()),
                },
            },
            Entry {
                name: "arm64".to_string(),
                value: ArchEntry {
                    url: "https://example.com/arm.tar.gz".to_string(),
                    hash: SHA.to_string(),
                    extract_dir: None,
                },
            },
        ],
    });
    let r = resolve_manifest_json(&m, "x86_64").unwrap();
    assert_eq!(r.download_url, "https://example.com/x64.zip");
    assert_eq!(r.extract_dir.as_deref(), Some("ripgrep-15.1.0"));
    let r = resolve_manifest_json(&m, "aarch64").unwrap();
    assert_eq!(r.download_url, "https://example.com/arm.tar.gz");
    let e = resolve_manifest_json(&m, "x86").unwrap_err();
    assert_eq!(
        install_error(e),
        "Scoop manifest has no 32bit architecture entry for this host"
    );
}

#[test]
fn manifest_errors_come_in_order() {
    let mut m = manifest();
    m.installer = Some(Json::Null);
    assert!(install_error(resolve_manifest_json(&m, "x86_64").unwrap_err())
        .starts_with("This Scoop manifest uses `installer` scripts; wax only supports"));
    let mut m = manifest();
    m.url = None;
    assert_eq!(
        install_error(resolve_manifest_json(&m, "x86_64").unwrap_err()),
        "Scoop manifest has no url (and no architecture block)"
    );
    let mut m = manifest();
    m.hash = None;
    assert_eq!(
        install_error(resolve_manifest_json(&m, "x86_64").unwrap_err()),
        "Scoop manifest has no hash (and no architecture block)"
    );
    let mut m = manifest();
    m.hash = Some("sha1:AB\"".to_string());
    assert_eq!(
        install_error(resolve_manifest_json(&m, "x86_64").unwrap_err()),
        "Expected 64-char sha256 hex from manifest, got \"sha1:ab\\\"\""
    );
}

#[test]
fn scripts_that_do_nothing_are_no_scripts() {
    assert!(value_is_empty_or_comment_only(&Json::Null));
    assert!(value_is_empty_or_comment_only(&text("  # nothing")));
    assert!(value_is_empty_or_comment_only(&Json::List(vec![text(""), text(" #x")])));
    assert!(!value_is_empty_or_comment_only(&Json::List(vec![text("#"), text("rm")])));
    assert!(!value_is_empty_or_comment_only(&Json::List(vec![Json::Bool(true)])));
    assert!(!value_is_empty_or_comment_only(&Json::Bool(false)));
    let mut m = manifest();
    m.pre_install = Some(text("# only words"));
    m.post_install = Some(text("Remove-Item x"));
    assert_eq!(unsupported_script_fields(&m), Some("post_install"));
    m.pre_install = Some(text("Remove-Item x"));
    assert_eq!(unsupported_script_fields(&m), Some("pre_install"));
}

#[test]
fn bins_take_many_shapes() {
    assert_eq!(
        parse_bin_paths(&Some(text("bin\\rg.exe"))).unwrap(),
        strings(&["bin/rg.exe"])
    );
    let list = Json::List(vec![
        text("a\\b.exe"),
        Json::List(vec![text("c.exe"), text("see")]),
        Json::List(vec![]),
        Json::Bool(true),
    ]);
    assert_eq!(
        parse_bin_paths(&Some(list)).unwrap(),
        strings(&["a/b.exe", "c.exe"])
    );
    assert_eq!(
        install_error(parse_bin_paths(&None).unwrap_err()),
        "Scoop manifest has no bin field (wax cannot guess executables)"
    );
    assert_eq!(
        install_error(parse_bin_paths(&Some(Json::List(vec![]))).unwrap_err()),
        "Scoop manifest bin field resolved to no executables"
    );
    assert!(matches!(
        parse_bin_paths(&Some(Json::Bool(true))),
        Err(WaxError::ParseError(m)) if m == "Scoop manifest bin field has unsupported shape"
    ));
}

#[test]
fn hashes_and_addresses_are_cleaned() {
    assert_eq!(normalize_scoop_hash(" SHA256: ABC "), "abc");
    assert_eq!(normalize_scoop_hash("sha256:DEF"), "def");
    assert_eq!(normalize_scoop_hash("AbC"), "abc");
    assert_eq!(strip_url_fragment("https://a/b#c#d"), "https://a/b");
    assert_eq!(strip_url_fragment("https://a/b"), "https://a/b");
    assert_eq!(scoop_arch_key("x86_64"), "64bit");
    assert_eq!(scoop_arch_key("aarch64"), "arm64");
    assert_eq!(scoop_arch_key("x86"), "32bit");
    assert_eq!(scoop_arch_key("riscv64"), "64bit");
}

#[test]
fn archives_are_told_by_their_address() {
    assert_eq!(archive_kind_from_url("https://a/B.ZIP").unwrap(), "zip");
    assert_eq!(archive_kind_from_url("https://a/b.tar.gz?x=1").unwrap(), "tar.gz");
    assert_eq!(archive_kind_from_url("https://a/b.tgz").unwrap(), "tar.gz");
    assert_eq!(
        install_error(archive_kind_from_url("https://a/b.7z").unwrap_err()),
        "Unsupported download type for wax scoop-install (need .zip or .tar.gz/.tgz URL): https://a/b.7z"
    );
    assert_eq!(scoop::download_name("zip"), "download.zip");
}

#[test]
fn paths_of_a_manifest_stay_below_their_root() {
    assert_eq!(
        scoop::join_under_root("/r", "a/./b.exe", true).unwrap(),
        "/r/a/./b.exe"
    );
    assert_eq!(
        install_error(scoop::join_under_root("/r", "a/../../b", true).unwrap_err()),
        "Unsafe path in manifest: a/../../b"
    );
    assert!(may_lead_out("/etc/passwd", false));
    assert!(may_lead_out("C:/x", true));
    assert!(!may_lead_out("C:/x", false));
    assert!(!may_lead_out("a..b/c", true));
}

#[test]
fn scoop_files_go_where_they_belong() {
    assert_eq!(
        manifest_url(None, "rg"),
        "https://raw.githubusercontent.com/ScoopInstaller/Main/master/bucket/rg.json"
    );
    assert_eq!(manifest_url(Some("https://b//"), "rg"), "https://b/rg.json");
    assert_eq!(
        manifest_text("u", true, "200 OK", "body".to_string()).unwrap(),
        "body"
    );
    assert_eq!(
        install_error(manifest_text("u", false, "404 Not Found", String::new()).unwrap_err()),
        "Failed to fetch manifest u: HTTP 404 Not Found"
    );
    assert_eq!(
        resolved_staging_dir(Some("/h"), "rg", "1").unwrap(),
        "/h/.local/wax/scoop-apps/rg/1"
    );
    assert_eq!(wax_bin_dir(Some("/h")).unwrap(), "/h/.local/wax/bin");
    assert!(wax_bin_dir(None).is_err());
    assert_eq!(source_tree("/x", &Some("a\\b".to_string())), "/x/a/b");
    assert_eq!(source_tree("/x", &None), "/x");
    assert!(check_tree(true, &None).is_ok());
    assert_eq!(
        install_error(check_tree(false, &Some("a".to_string())).unwrap_err()),
        "Extracted files missing expected extract_dir Some(\"a\")"
    );
    assert_eq!(
        install_error(check_tree(false, &None).unwrap_err()),
        "Extracted files missing expected extract_dir None"
    );
    assert_eq!(bin_copy("/v/rg.exe", true, "/b").unwrap(), "/b/rg.exe");
    assert_eq!(
        install_error(bin_copy("/v/rg.exe", false, "/b").unwrap_err()),
        "Expected binary missing after extract: /v/rg.exe"
    );
    assert_eq!(
        install_error(bin_copy("/", true, "/b").unwrap_err()),
        "Invalid bin path"
    );
    assert!(scoop::check_platform(true).is_ok());
    assert!(matches!(
        scoop::check_platform(false),
        Err(WaxError::PlatformNotSupported(_))
    ));
    assert_eq!(
        scoop::installed_text("rg", "1", "/b"),
        "Installed rg 1 (Scoop manifest) — add to PATH if needed:\n  /b"
    );
}

// ---------------------------------------------------------------------------
// Chocolatey

#[test]
fn gallery_search_is_encoded() {
    assert_eq!(
        search_url("visual studio+ü").unwrap(),
        "https://community.chocolatey.org/packages?q=visual%20studio%2B%C3%BC"
    );
    assert_eq!(search_url(" \t"), None);
    assert_eq!(
        nupkg_url("git"),
        "https://community.chocolatey.org/api/v2/package/git"
    );
}

#[test]
fn gallery_page_lists_packages() {
    let page = r##"<a href="/packages/git">x</a><a href="/packages/Git#files">
        <a href="/packages/vim?x=1"><a href="/packages/nano">"##;
    assert_eq!(search_package_ids(page, 25), strings(&["git", "vim", "nano"]));
    assert_eq!(search_package_ids(page, 2), strings(&["git", "vim"]));
    assert!(search_package_ids("nothing", 25).is_empty());
    assert_eq!(
        take_ids(&strings(&["a", "a", "b"]), 5),
        strings(&["a", "b"])
    );
}

#[test]
fn portable_programs_are_collected_to_a_depth() {
    assert!(is_portable_exe("/t/a.EXE"));
    assert!(!is_portable_exe("/t/a.txt"));
    assert!(!is_portable_exe("/t/Uninstall.exe"));
    assert!(!is_portable_exe("/t/chocolateyHelper.exe"));
    assert!(!is_portable_exe("/t/exe"));
    let tree = vec![
        FileTree::File("/t/a.exe".to_string()),
        FileTree::Folder(vec![
            FileTree::File("/t/d/b.exe".to_string()),
            FileTree::Folder(vec![FileTree::File("/t/d/e/c.exe".to_string())]),
        ]),
    ];
    assert_eq!(
        collect_exe_files(&tree, 0, 4),
        strings(&["/t/a.exe", "/t/d/b.exe", "/t/d/e/c.exe"])
    );
    assert_eq!(
        collect_exe_files(&tree, 0, 1),
        strings(&["/t/a.exe", "/t/d/b.exe"])
    );
    assert!(collect_exe_files(&tree, 2, 1).is_empty());
}

#[test]
fn portable_package_is_planned() {
    let tree = Some(vec![FileTree::File("/t/a.exe".to_string())]);
    let plan = install_portable_tools("git", &tree, Some("/h")).unwrap();
    assert_eq!(plan.bin_dir, "/h/.local/wax/bin");
    assert_eq!(plan.staging, "/h/.local/wax/choco-apps/git");
    assert_eq!(
        plan.copies,
        vec![("/t/a.exe".to_string(), "/h/.local/wax/bin/a.exe".to_string())]
    );
    assert_eq!(
        install_error(install_portable_tools("git", &None, Some("/h")).err().unwrap()),
        "Chocolatey package has no tools/ directory in .nupkg (wax cannot run install scripts)"
    );
    assert_eq!(
        install_error(
            install_portable_tools("git", &Some(vec![]), Some("/h"))
                .err()
                .unwrap()
        ),
        "No suitable portable .exe under tools/ (this package likely needs choco.exe + PowerShell)"
    );
    assert!(install_portable_tools("git", &tree, None).is_err());
    assert!(chocolatey::check_platform(true).is_ok());
    assert!(matches!(
        chocolatey::check_platform(false),
        Err(WaxError::PlatformNotSupported(_))
    ));
    assert_eq!(
        chocolatey::installed_text("git", "/b"),
        "Installed git from Chocolatey .nupkg (tools/*.exe) — binaries under:\n  /b"
    );
}

// ---------------------------------------------------------------------------
// Searching everywhere

#[test]
fn scores_tell_how_well_a_name_fits() {
    assert_eq!(match_score_token("Git", "gIT"), Some(1000));
    assert_eq!(match_score_token("github", "GIT"), Some(900));
    assert_eq!(match_score_token("legit", "git"), Some(850));
    assert_eq!(match_score_token("vim", "git"), None);
    assert_eq!(fit_of("ab", "ab"), Some(1000));
}

#[test]
fn scoop_listing_gives_names() {
    let item = |p: &str| Json::Object(vec![("path".to_string(), text(p))]);
    let listing = Json::Object(vec![(
        "tree".to_string(),
        Json::List(vec![
            item("bucket/zoxide.json"),
            item("bucket/bat.json"),
            item("bucket/bat.json"),
            item("bucket/old/x.json"),
            item("README.md"),
            Json::Null,
        ]),
    )]);
    assert_eq!(scoop_names(&listing).unwrap(), strings(&["bat", "zoxide"]));
    assert!(matches!(
        scoop_names(&Json::Null),
        Err(WaxError::ParseError(m)) if m == "no tree array"
    ));
    assert!(scoop_index_is_fresh(100_000, 13_601));
    assert!(!scoop_index_is_fresh(100_000, 13_600));
}

#[test]
fn winget_paths_give_ids() {
    assert_eq!(
        package_id_from_winget_manifest_path(
            "manifests/j/JesseDuffield/lazygit/0.4/JesseDuffield.lazygit.installer.yaml"
        ),
        Some("JesseDuffield.lazygit".to_string())
    );
    assert_eq!(
        package_id_from_winget_manifest_path("manifests/j/Jesse/latest/x.yaml"),
        None
    );
    assert_eq!(
        package_id_from_winget_manifest_path("manifests/j/Jesse/1.0/x.json"),
        None
    );
    assert_eq!(
        package_id_from_winget_manifest_path("manifests/j/1.0/x.yaml"),
        None
    );
    assert_eq!(package_id_from_winget_manifest_path("a/b/c"), None);
    assert!(looks_like_version_folder("1.0"));
    assert!(!looks_like_version_folder("v1"));
    assert!(!looks_like_version_folder(""));
    assert_eq!(
        winget_search_url("a b", 15),
        "https://api.github.com/search/code?q=a%20b+filename:installer.yaml+repo:microsoft/winget-pkgs+path:/manifests/&per_page=15"
    );
}

#[test]
fn hits_of_all_catalogues_are_collected() {
    let scoop = Some(strings(&["git", "vim"]));
    let choco = Some(strings(&["git.install", "nano"]));
    let winget = Some(strings(&[
        "manifests/g/Git/Git/2.0/Git.Git.installer.yaml",
        "nothing",
    ]));
    let hits = collect_remote_hits(" git ", &scoop, &choco, &winget);
    let shown: Vec<(Ecosystem, &str, i32)> = hits
        .iter()
        .map(|h| (h.ecosystem, h.id.as_str(), h.score))
        .collect();
    assert_eq!(
        shown,
        vec![
            (Ecosystem::Scoop, "git", 1000),
            (Ecosystem::Chocolatey, "git.install", 900),
            (Ecosystem::Chocolatey, "nano", 700),
            (Ecosystem::Winget, "Git.Git", 900),
        ]
    );
    assert_eq!(
        hits[3].blurb.as_deref(),
        Some("manifests/g/Git/Git/2.0/Git.Git.installer.yaml")
    );
    assert!(collect_remote_hits("  ", &scoop, &choco, &winget).is_empty());
    let paths = strings(&["manifests/g/Git/Git/2.0/x.yaml", "manifests/h/H/H/1/x.yaml"]);
    let limited = winget_hits(&paths, "zzz", 1);
    assert_eq!(limited.len(), 1);
    assert_eq!(limited[0].score, 400);
}

fn hit(eco: Ecosystem, id: &str, score: i32) -> RemoteHit {
    RemoteHit {
        ecosystem: eco,
        id: id.to_string(),
        blurb: None,
        score,
    }
}

#[test]
fn hits_are_shown_in_order() {
    let d = dedupe_remote_by_speed(vec![
        hit(Ecosystem::Chocolatey, "c", 900),
        hit(Ecosystem::Scoop, "b", 900),
        hit(Ecosystem::Scoop, "a", 900),
        hit(Ecosystem::Winget, "z", 1000),
        hit(Ecosystem::Scoop, "A", 800),
    ]);
    let ids: Vec<&str> = d.iter().map(|h| h.id.as_str()).collect();
    assert_eq!(ids, vec!["z", "a", "b", "c"]);
    assert_eq!(hit_hint(&d[3]), "wax install choco/c");
}

// ---------------------------------------------------------------------------
// Choosing the ecosystem

#[test]
fn prefixes_choose_the_ecosystem() {
    assert!(matches!(
        install_one_qualified("scoop/rg", false, false),
        Ok(Handling::Ecosystem(Ecosystem::Scoop, n)) if n == "rg"
    ));
    assert!(matches!(
        install_one_qualified("brew/rg", false, true),
        Ok(Handling::Homebrew)
    ));
    assert!(matches!(
        install_one_qualified("scoop/rg", true, true),
        Ok(Handling::Homebrew)
    ));
    assert!(matches!(
        install_one_qualified("rg", false, true),
        Ok(Handling::Fastest(n)) if n == "rg"
    ));
    assert!(matches!(
        install_one_qualified("rg", false, false),
        Ok(Handling::Homebrew)
    ));
}

#[test]
fn names_are_checked() {
    let message = |raw: &str| match install_one_qualified(raw, false, false) {
        Err(WaxError::InvalidInput(m)) => m,
        _ => panic!("accepted: {}", raw),
    };
    assert_eq!(message("scoop/ "), "empty package name after prefix");
    assert_eq!(
        message("scoop/a/b"),
        "names with '/' after a scoop/choco/winget/brew prefix are not supported"
    );
    assert_eq!(message("a b"), "unsupported characters in package id: a b");
    assert_eq!(message("a/b"), "unsupported characters in package id: a/b");
    assert!(install_one_qualified("g++_1.0-ü", false, false).is_ok());
}

fn formula(name: &str) -> Formula {
    Formula {
        name: name.to_string(),
        full_name: name.to_string(),
        desc: None,
        homepage: String::new(),
        stable: "1.0".to_string(),
        bottled: true,
        installed: None,
        dependencies: None,
        build_dependencies: None,
        bottle: None,
        post_install_defined: false,
    }
}

#[test]
fn fastest_ecosystem_is_picked() {
    let none = Found { brew: false, scoop: false, winget: false, choco: false };
    assert_eq!(auto_pick_ecosystem(none), None);
    assert_eq!(
        auto_pick_ecosystem(Found { choco: true, winget: true, ..none }),
        Some(Ecosystem::Winget)
    );
    assert!(matches!(
        handle_found("x", Found { brew: true, scoop: true, ..none }),
        Ok(Handling::Homebrew)
    ));
    assert!(matches!(
        handle_found("x", Found { scoop: true, choco: true, ..none }),
        Ok(Handling::Ecosystem(Ecosystem::Scoop, n)) if n == "x"
    ));
    assert!(matches!(
        handle_found("x", none),
        Err(WaxError::FormulaNotFound(m))
            if m == "no matching package 'x' in brew index, Scoop Main, winget-pkgs, or Chocolatey"
    ));
    assert!(brew_has(&vec![formula("ripgrep")], "RipGrep"));
    assert!(!brew_has(&vec![formula("ripgrep")], "rg"));
    assert!(worth_asking_winget("a.b"));
    assert!(!worth_asking_winget("ab"));
    assert_eq!(
        dry_run_text(Ecosystem::Chocolatey, "git"),
        "dry-run: would install via choco → git"
    );
}

#[test]
fn resolve_ripgrep_main_manifest() {
    let url = "https://github.com/BurntSushi/ripgrep/releases/download/15.1.0/ripgrep-15.1.0-x86_64-pc-windows-msvc.zip";
    let mut m = manifest();
    m.url = None;
    m.hash = None;
    m.architecture = Some(Table {
        entries: vec![Entry {
            name: "64bit".to_string(),
            value: ArchEntry {
                url: url.to_string(),
                hash: SHA.to_string(),
                extract_dir: Some("ripgrep-15.1.0-x86_64-pc-windows-msvc".to_string()),
            },
        }],
    });
    let r = resolve_manifest_json(&m, "x86_64").unwrap();
    assert_eq!(r.version, "15.1.0");
    assert!(r.download_url.ends_with(".zip"));
    assert_eq!(r.sha256.len(), 64);
    assert!(r.extract_dir.as_ref().unwrap().contains("ripgrep"));
    assert_eq!(r.bin_paths.len(), 1);
    assert!(r.bin_paths[0].contains("rg"));
}

#[test]
fn deduping_twice_is_deduping_once() {
    let hits = vec![
        hit(Ecosystem::Chocolatey, "Git", 900),
        hit(Ecosystem::Scoop, "git", 800),
        hit(Ecosystem::Winget, "b", 800),
        hit(Ecosystem::Scoop, "a", 800),
    ];
    let shown = |v: &Vec<RemoteHit>| -> Vec<(Ecosystem, String, i32)> {
        v.iter().map(|h| (h.ecosystem, h.id.clone(), h.score)).collect()
    };
    let once = dedupe_remote_by_speed(hits);
    let twice = dedupe_remote_by_speed(once.clone());
    assert_eq!(once.len(), 3);
    assert_eq!(shown(&once), shown(&twice));
}

#[test]
fn trials_only_say_what_they_would_do() {
    assert!(matches!(
        install_forced(Ecosystem::Scoop, "rg", true),
        Forced::Shown(m) if m == "dry-run: would install via scoop → rg"
    ));
    assert!(matches!(install_forced(Ecosystem::Brew, "rg", false), Forced::Nothing));
    assert!(matches!(
        install_forced(Ecosystem::Winget, "A.B", false),
        Forced::Install(Ecosystem::Winget)
    ));
}

fn zipped(entries: &[(&str, bool)]) -> Vec<u8> {
    let mut archive = zip::ZipWriter::new(std::io::Cursor::new(Vec::new()));
    let options = zip::write::SimpleFileOptions::default();
    for (name, dir) in entries {
        if *dir {
            archive.add_directory(*name, options).unwrap();
        } else {
            archive.start_file(*name, options).unwrap();
            std::io::Write::write_all(&mut archive, b"text").unwrap();
        }
    }
    archive.finish().unwrap().into_inner()
}

#[test]
fn zip_archives_stay_inside() {
    let bytes = zipped(&[
        ("bin", true),
        ("bin/tool.exe", false),
        ("../up", false),
        ("/root", false),
        ("a/../../up", false),
        ("a/../b", false),
    ]);
    let u = scoop::extract_zip_file(&bytes).unwrap();
    assert_eq!(u.fault, None);
    assert_eq!(u.placements.len(), 6);
    assert!(matches!(&u.placements[0], Placement::MakeDir(p) if p == "bin/"));
    assert!(matches!(&u.placements[1], Placement::Unpack(p) if p == "bin/tool.exe"));
    assert!(matches!(&u.placements[2], Placement::Skip));
    assert!(matches!(&u.placements[3], Placement::Skip));
    assert!(matches!(&u.placements[4], Placement::Skip));
    assert!(matches!(&u.placements[5], Placement::Unpack(p) if p == "a/../b"));
    assert!(scoop::extract_zip_file(&zipped(&[])).unwrap().placements.is_empty());
}

#[test]
fn what_is_no_zip_archive_is_refused() {
    match scoop::extract_zip_file(b"no archive") {
        Err(WaxError::InstallError(m)) => assert!(!m.is_empty()),
        other => panic!("not refused: {:?}", other),
    }
}

#[test]
fn zip_entries_are_placed_up_to_the_first_fault() {
    let entry = |name: &str, enclosed: bool, dir: bool| {
        Ok(Zipped { name: name.to_string(), enclosed, dir })
    };
    let u = scoop::unpack_zip_entries(&vec![
        entry("", true, false),
        entry("out", false, false),
        entry("d", true, true),
        entry("f", true, false),
        Err("broken".to_string()),
        entry("g", true, false),
    ]);
    assert_eq!(u.fault.as_deref(), Some("broken"));
    assert_eq!(u.placements.len(), 4);
    assert!(matches!(&u.placements[0], Placement::Skip));
    assert!(matches!(&u.placements[1], Placement::Skip));
    assert!(matches!(&u.placements[2], Placement::MakeDir(p) if p == "d"));
    assert!(matches!(&u.placements[3], Placement::Unpack(p) if p == "f"));
}
