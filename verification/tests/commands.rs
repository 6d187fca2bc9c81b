use wax::api::{find_first, has_cask, Bottle, BottleFile, Cask, CaskArtifact, CaskDetails, Formula};
use wax::cask::InstalledCask;
use wax::commands::info::{
    artifact_label, cask_suffix, display_name, info, info_cask, installed_dependents,
    installed_suffix, InfoTarget,
};
use wax::commands::install::{
    alias_of, bottle_urls, built, cellar_version, check_requested, classify, content_dir,
    even_share, find_formula, head_version, install_extracted_bottle, links_alias,
    packages_to_install, postinstall_program, program_of, request_step, route, share_rest,
    source_record, source_route, split_version, tap_name, unknown_text, unpacked_dir, InstallPlan,
    Outcome, Request, RequestStep, Route, SourceRoute,
};
use wax::commands::link::{link, link_summary};
use wax::commands::list::{
    cellar_candidates, collect_installed_rows, list, lowered_matches, matches_query,
    no_match_text, offer_upgrade_for_selection, page_size, print_summary, summarize_counts, Offer,
};
use wax::commands::reinstall::{
    position_prefix, reinstall, reinstall_step, reinstall_summary, selected, shown_version,
    sorted_names,
};
use wax::commands::show_deps::{deps, print_dep_tree};
use wax::commands::source::{find_homepage, is_web_scheme, opener, source};
use wax::commands::uninstall::{
    asks_first, removal_of, uninstall, uninstall_cask, uninstall_package_direct, CaskRemoval,
    PackageRemoval, Removal,
};
use wax::commands::update::{
    print_update_status, process_fetch, save_new_metadata, CacheMetadata, FetchResult, IndexStep,
};
use wax::commands::upgrade::{
    check_package, concurrent_limit, dependents_text, dependents_to_reinstall, failures_text,
    get_outdated_packages, min_connections, plan_text, progress_label, upgrade_cask_single,
    upgrade_single, upgrade_summary, upgrade_urls, upgrade_via, Latest, OutdatedPackage,
    SingleUpgrade, UpgradeVia,
};
use wax::commands::wax_info::{active_taps, wax_info};
use wax::error::WaxError;
use wax::formula_parser::BuildSystem;
use wax::install::{InstallMode, InstallState, InstalledPackage};
use wax::table::Table;
use wax::timing::Timing;

const LINUX: &str = "x86_64_linux";

fn strings(v: &[&str]) -> Vec<String> {
    v.iter().map(|s| s.to_string()).collect()
}

fn formula(name: &str, version: &str, needs: &[&str]) -> Formula {
    let mut files = Table::new();
    files.insert(
        LINUX.to_string(),
        BottleFile { url: format!("https://b/{}", name), sha256: "abc".to_string() },
    );
    Formula {
        name: name.to_string(),
        full_name: format!("core/{}", name),
        desc: None,
        homepage: format!("https://{}.org", name),
        stable: version.to_string(),
        bottled: true,
        installed: None,
        dependencies: Some(strings(needs)),
        build_dependencies: None,
        bottle: Some(Bottle { rebuild: 0, files }),
        post_install_defined: false,
    }
}

fn cask(token: &str, version: &str) -> Cask {
    Cask {
        token: token.to_string(),
        full_token: format!("homebrew/cask/{}", token),
        name: vec![],
        desc: None,
        homepage: format!("https://{}.app", token),
        version: version.to_string(),
        deprecated: false,
        disabled: false,
    }
}

fn package(name: &str, version: &str) -> InstalledPackage {
    source_record(name, version, LINUX, InstallMode::User, false, 1)
}

fn recorded(names: &[(&str, &str)]) -> Table<InstalledPackage> {
    let mut t = Table::new();
    for (n, v) in names {
        InstallState::add(&mut t, package(n, v));
    }
    t
}

fn installed_cask(name: &str, kind: Option<&str>) -> InstalledCask {
    InstalledCask {
        name: name.to_string(),
        version: "1".to_string(),
        install_date: 0,
        artifact_type: kind.map(|s| s.to_string()),
        binary_paths: Some(strings(&["/b/x"])),
        app_name: None,
    }
}

#[test]
fn formulae_are_found_by_name() {
    let f = vec![formula("a", "1", &[]), formula("b", "1", &[]), formula("a", "2", &[])];
    assert_eq!(find_formula(&f, "a"), Some(2));
    assert_eq!(find_formula(&f, "core/b"), Some(1));
    assert_eq!(find_formula(&f, "user/tap/b"), Some(1));
    assert_eq!(find_formula(&f, "tap/b"), None);
    assert_eq!(find_first(&f, "a").unwrap().stable, "1");
    assert!(find_first(&f, "z").is_none());
    assert_eq!(f[0].bottle_file(LINUX).unwrap().url, "https://b/a");
    assert!(f[0].bottle_file("other").is_none());
    assert!(has_cask(&vec![cask("c", "1")], "homebrew/cask/c"));
}

#[test]
fn requests_are_classified() {
    let f = vec![formula("a", "1", &[])];
    let c = vec![cask("c", "1")];
    let t = recorded(&[("have", "1")]);
    assert!(matches!(classify("have", &t, &f, &c), Request::AlreadyInstalled));
    assert!(matches!(classify("a", &t, &f, &c), Request::Formula(0)));
    assert!(matches!(classify("c", &t, &f, &c), Request::Cask));
    assert!(matches!(
        classify("a@1.2", &t, &f, &c),
        Request::Version { name, version } if name == "a" && version == "1.2"
    ));
    assert!(matches!(classify("zzz", &t, &f, &c), Request::Unknown));
    assert_eq!(split_version("a@b@c"), Some(("a@b".to_string(), "c".to_string())));
    assert_eq!(split_version("@x"), None);
    assert_eq!(split_version("x@"), None);
    assert_eq!(tap_name("u/t/f").as_deref(), Some("u/t"));
    assert_eq!(tap_name("t/f").as_deref(), Some("t"));
    assert_eq!(tap_name("f"), None);
    assert_eq!(unknown_text("f", false), "Not found as formula or cask");
    assert_eq!(
        unknown_text("u/t/f", false),
        "Tap 'u/t' not installed. Add it with: wax tap add u/t"
    );
    assert_eq!(
        unknown_text("u/t/f", true),
        "Formula 'f' not found in tap 'u/t'. The formula might not exist in this tap. Try: wax install f"
    );
    assert!(check_requested(&strings(&["a"])).is_ok());
    assert!(matches!(
        check_requested(&vec![]),
        Err(WaxError::InvalidInput(m)) if m == "No packages specified"
    ));
}

#[test]
fn plans_hold_each_package_once() {
    let names = strings(&["a", "b", "c", "d"]);
    let outcomes = vec![
        Outcome::Resolved(strings(&["lib", "a"])),
        Outcome::Resolved(strings(&["lib", "b"])),
        Outcome::AlreadyInstalled,
        Outcome::Failed("gone".to_string()),
    ];
    let plan = InstallPlan::of(&names, &outcomes);
    assert_eq!(plan.all_to_install, ["lib", "a", "b"]);
    assert_eq!(plan.already_installed, ["c"]);
    assert_eq!(plan.errors, vec![("d".to_string(), "gone".to_string())]);
    assert!(plan.check(false).is_ok());
    assert_eq!(plan.requested(&names), ["a", "b"]);
    assert_eq!(plan.heading(&names).unwrap(), "installing a, b + 1 dependency");
    let f = vec![formula("lib", "1", &[]), formula("a", "1", &[]), formula("b", "1", &[])];
    assert_eq!(packages_to_install(&plan.all_to_install, &f).unwrap(), [0, 1, 2]);
    assert!(matches!(
        packages_to_install(&names, &f),
        Err(WaxError::FormulaNotFound(n)) if n == "c"
    ));
    let failed = InstallPlan::of(&strings(&["d"]), &vec![Outcome::Failed("x".to_string())]);
    assert!(matches!(
        failed.check(false),
        Err(WaxError::InstallError(m)) if m == "Cannot install any packages (all failed validation)"
    ));
    let mut plan = InstallPlan::new();
    plan.record("e", &Outcome::Cask);
    assert_eq!(plan.detected_casks, ["e"]);
}

#[test]
fn bottles_are_looked_up() {
    let f = vec![formula("a", "1", &[]), formula("b", "1", &[])];
    assert_eq!(
        bottle_urls(&f, &vec![1, 0], LINUX, false),
        vec![
            ("b".to_string(), "https://b/b".to_string()),
            ("a".to_string(), "https://b/a".to_string())
        ]
    );
    assert!(bottle_urls(&f, &vec![0], LINUX, true).is_empty());
    assert!(bottle_urls(&f, &vec![0], "other", false).is_empty());
    let mut counts = vec![2, 2, 2];
    share_rest(&mut counts, 8);
    assert_eq!(counts, [3, 3, 2]);
    share_rest(&mut counts, 8);
    assert_eq!(counts, [3, 3, 2]);
    assert_eq!(even_share(8, 3), 2);
    assert_eq!(even_share(2, 3), 1);
    assert_eq!(even_share(8, 0), 8);
    assert!(matches!(route(true, false, true, false), Route::Head));
    assert!(matches!(route(false, true, true, false), Route::Source { announced: true }));
    assert!(matches!(route(false, false, false, false), Route::Source { announced: false }));
    assert!(matches!(route(false, false, true, false), Route::Bottle));
}

#[test]
fn bottles_are_unpacked_and_recorded() {
    let entries = vec![
        ("1.2.txt".to_string(), false),
        ("1.2_1".to_string(), true),
    ];
    assert_eq!(cellar_version(&entries, "1.2", 0), "1.2_1");
    assert_eq!(cellar_version(&vec![], "1.2", 3), "1.2_3");
    assert_eq!(cellar_version(&vec![], "1.2", 0), "1.2");
    assert_eq!(content_dir("/x", "a", "1", true, true), "/x/a/1");
    assert_eq!(content_dir("/x", "a", "1", false, true), "/x/a");
    assert_eq!(content_dir("/x", "a", "1", false, false), "/x");
    let r = install_extracted_bottle("a", "1_1", "sha", 1, InstallMode::Global, LINUX, 5);
    assert_eq!(r.bottle_sha256.as_deref(), Some("sha"));
    assert_eq!(r.bottle_rebuild, 1);
    assert!(!r.from_source);
    assert_eq!(postinstall_program(true, b" /bin/brew \n").as_deref(), Some("/bin/brew"));
    assert_eq!(program_of(false, "/bin/brew"), None);
    assert_eq!(program_of(true, " "), None);
    assert_eq!(unpacked_dir("/x", &vec![("a".to_string(), true)]), "/x/a");
    assert_eq!(unpacked_dir("/x", &vec![("a".to_string(), false)]), "/x");
    assert_eq!(head_version(true, b"abc123\n"), "HEAD-abc123");
    assert_eq!(head_version(false, b""), "HEAD-HEAD");
    assert!(built(true, "", "").is_ok());
    assert!(matches!(built(false, "make: ", "no"), Err(WaxError::BuildError(m)) if m == "make: no"));
    let none = recorded(&[]);
    assert_eq!(alias_of("x-full", &none).as_deref(), Some("x"));
    assert_eq!(alias_of("x-full", &recorded(&[("x", "1")])), None);
    assert_eq!(alias_of("x", &none), None);
    assert!(links_alias(true, false));
    assert!(!links_alias(true, true));
    let binary = Some(("u".to_string(), "s".to_string()));
    assert!(matches!(
        source_route("a", 1, BuildSystem::Unknown, binary, "linux", "x"),
        Ok(SourceRoute::Binary { .. })
    ));
    assert!(matches!(
        source_route("a", 1, BuildSystem::Unknown, None, "linux", "x"),
        Err(WaxError::BuildError(m))
            if m == "Formula 'a' has no pre-built binary for this platform (os=linux, arch=x)"
    ));
    assert!(matches!(
        source_route("a", 1, BuildSystem::CMake, None, "linux", "x"),
        Ok(SourceRoute::Build)
    ));
}

fn latest(version: &str, current: bool) -> Latest {
    Latest { version: version.to_string(), current }
}

#[test]
fn outdated_packages_are_found() {
    let mut f = formula("a", "2", &[]);
    let p = package("a", "1");
    let o = check_package("a", &p, &f, &latest("2", false), LINUX).unwrap();
    assert_eq!(o.latest_version, "2");
    assert_eq!(o.installed_version, "1");
    assert!(check_package("a", &p, &f, &latest("1", true), LINUX).is_none());
    let mut pinned = package("a", "1");
    pinned.pinned = true;
    assert!(check_package("a", &pinned, &f, &latest("2", false), LINUX).is_none());
    let mut other = package("a", "1");
    other.bottle_sha256 = Some("old".to_string());
    let o = check_package("a", &other, &f, &latest("1", true), LINUX).unwrap();
    assert_eq!(o.latest_version, "1 (bottle updated)");
    f.bottle.as_mut().unwrap().rebuild = 2;
    let o = check_package("a", &p, &f, &latest("1", true), LINUX).unwrap();
    assert_eq!(o.latest_version, "1 (rebuild 2)");
    let installed = recorded(&[("z", "1"), ("a", "1"), ("unknown", "1")]);
    let formulae = vec![formula("a", "2", &[]), formula("z", "2", &[])];
    let mut casks = Table::new();
    casks.insert("m".to_string(), installed_cask("m", None));
    let all = get_outdated_packages(
        &installed,
        &formulae,
        &vec![latest("2", false), latest("2", false), latest("2", false)],
        &casks,
        &vec![cask("m", "3")],
        &vec![Some(latest("3", false))],
        LINUX,
    );
    let names: Vec<&str> = all.iter().map(|o| o.name.as_str()).collect();
    assert_eq!(names, ["a", "m", "z"]);
    assert!(all[1].is_cask);
    assert_eq!(plan_text(&all), "upgrading a, m (cask), z");
    assert_eq!(
        dependents_to_reinstall(&all, &vec![strings(&["z", "q"]), vec![], strings(&["q", "p"])]),
        ["q", "p"]
    );
    assert_eq!(
        upgrade_urls(&all, &formulae, LINUX),
        vec![
            ("a".to_string(), "https://b/a".to_string()),
            ("z".to_string(), "https://b/z".to_string())
        ]
    );
}

#[test]
fn upgrades_are_told() {
    assert_eq!(dependents_text(&vec![]), None);
    assert_eq!(
        dependents_text(&strings(&["a", "b"])).unwrap(),
        "will reinstall 2 dependents after: a, b"
    );
    assert_eq!(concurrent_limit(0), 1);
    assert_eq!(concurrent_limit(5), 5);
    assert_eq!(concurrent_limit(100), 32);
    assert_eq!(min_connections(8, 3), 2);
    assert_eq!(min_connections(8, 5), 1);
    assert_eq!(progress_label(0, 2, "a"), "(1/2) a");
    assert_eq!(upgrade_summary(1, 0, 5), "1 package upgraded [5ms]");
    assert_eq!(upgrade_summary(2, 1, 5), "2 upgraded, 1 failed [5ms]");
    assert_eq!(failures_text(&vec![]), None);
    assert_eq!(
        failures_text(&strings(&["a"])).unwrap(),
        "1 package failed to upgrade: a"
    );
    let mut o = OutdatedPackage {
        name: "a".to_string(),
        installed_version: "1".to_string(),
        latest_version: "2".to_string(),
        is_cask: false,
        install_mode: Some(InstallMode::Global),
    };
    assert!(matches!(
        upgrade_via(&o, true, InstallMode::User),
        UpgradeVia::Bottle(InstallMode::Global)
    ));
    assert!(matches!(
        upgrade_via(&o, false, InstallMode::User),
        UpgradeVia::Install { user: false, global: true }
    ));
    o.install_mode = None;
    assert!(matches!(
        upgrade_via(&o, true, InstallMode::User),
        UpgradeVia::Bottle(InstallMode::User)
    ));
    o.is_cask = true;
    assert!(matches!(upgrade_via(&o, true, InstallMode::User), UpgradeVia::Cask));
}

#[test]
fn single_upgrades_are_decided() {
    let p = package("a", "1");
    let mut pinned = package("a", "1");
    pinned.pinned = true;
    assert!(matches!(
        upgrade_single("a", None, true, false, false),
        Err(WaxError::NotInstalled(_))
    ));
    assert!(matches!(
        upgrade_single("a", Some(&pinned), true, false, false),
        Ok(SingleUpgrade::Pinned)
    ));
    assert!(matches!(
        upgrade_single("a", Some(&p), false, false, false),
        Err(WaxError::FormulaNotFound(_))
    ));
    assert!(matches!(
        upgrade_single("a", Some(&p), true, true, false),
        Ok(SingleUpgrade::UpToDate)
    ));
    assert!(matches!(
        upgrade_single("a", Some(&p), true, false, true),
        Ok(SingleUpgrade::DryRun)
    ));
    assert!(matches!(
        upgrade_single("a", Some(&p), true, false, false),
        Ok(SingleUpgrade::Upgrade)
    ));
    assert!(matches!(
        upgrade_cask_single("a", true, false, false, false),
        Err(WaxError::CaskNotFound(_))
    ));
    assert!(matches!(
        upgrade_cask_single("a", false, true, false, false),
        Err(WaxError::NotInstalled(_))
    ));
    assert!(matches!(
        upgrade_cask_single("a", true, true, false, false),
        Ok(SingleUpgrade::Upgrade)
    ));
}

#[test]
fn installed_packages_are_listed() {
    assert_eq!(
        cellar_candidates(None, "/p", Some("/h")),
        ["/p/Cellar", "/h/.local/wax/Cellar"]
    );
    assert_eq!(
        cellar_candidates(None, "/p", None),
        ["/p/Cellar", "/p/.local/wax/Cellar"]
    );
    assert_eq!(cellar_candidates(Some("/t/Cellar"), "/p", Some("/h")), ["/t/Cellar"]);
    let mut installed = recorded(&[("b", "1")]);
    installed.entries[0].value.from_source = true;
    let mut casks = Table::new();
    casks.insert("a".to_string(), installed_cask("a", None));
    let rows = collect_installed_rows(
        &vec![
            ("c".to_string(), strings(&["1", "2"])),
            ("b".to_string(), strings(&["1"])),
        ],
        &installed,
        &casks,
    );
    let lines: Vec<&str> = rows.iter().map(|r| r.line.as_str()).collect();
    assert_eq!(lines, ["a 1 (cask)", "b 1 (source)", "c 1, 2"]);
    assert_eq!(summarize_counts(&rows), (2, 1));
    assert_eq!(print_summary(3, 2, 1), "3 packages installed (2 formulae, 1 cask)");
    assert_eq!(print_summary(1, 1, 0), "1 package installed (1 formula)");
    assert!(matches_query(&rows[1], "SOURCE"));
    assert!(lowered_matches("abc", "x", "b"));
    assert!(!lowered_matches("abc", "x", "y"));
    assert_eq!(list(&rows, Some("cask")).len(), 1);
    assert_eq!(list(&rows, None).len(), 3);
    assert!(page_size(1) >= 1);
    let o = OutdatedPackage {
        name: "b".to_string(),
        installed_version: "1".to_string(),
        latest_version: "2".to_string(),
        is_cask: false,
        install_mode: None,
    };
    let outdated = vec![o];
    assert!(matches!(
        offer_upgrade_for_selection("b", &installed, &outdated),
        Offer::Upgrade(0)
    ));
    assert!(matches!(
        offer_upgrade_for_selection("c", &installed, &outdated),
        Offer::UpToDate
    ));
    installed.entries[0].value.pinned = true;
    assert!(matches!(
        offer_upgrade_for_selection("b", &installed, &outdated),
        Offer::Pinned
    ));
}

#[test]
fn formulae_and_casks_are_shown() {
    let mut f = vec![formula("a", "1", &["lib"]), formula("lib", "1", &[])];
    let c = vec![cask("c", "1")];
    assert!(matches!(info("core/a", false, &f, &c), Ok(InfoTarget::Formula(0))));
    assert!(matches!(info("c", false, &f, &c), Ok(InfoTarget::Cask)));
    assert!(matches!(info("a", true, &f, &c), Ok(InfoTarget::Cask)));
    assert!(matches!(
        info("z", false, &f, &c),
        Err(WaxError::FormulaNotFound(m)) if m == "z (not found as formula or cask)"
    ));
    assert!(info_cask("c", &c).is_ok());
    assert!(matches!(info_cask("z", &c), Err(WaxError::CaskNotFound(_))));
    assert_eq!(installed_suffix(&f[0]), "");
    f[0].installed = Some(strings(&["1"]));
    assert_eq!(installed_suffix(&f[0]), " · installed");
    f[0].installed = Some(strings(&["0"]));
    assert_eq!(installed_suffix(&f[0]), " · installed (0)");
    f[0].installed = Some(strings(&["0", "1"]));
    assert_eq!(installed_suffix(&f[0]), " · installed (0, 1)");
    assert_eq!(cask_suffix(None, "1"), "");
    assert_eq!(cask_suffix(Some("1"), "1"), " · installed");
    assert_eq!(cask_suffix(Some("0"), "1"), " · installed (0)");
    let t = recorded(&[("a", "1"), ("lib", "1")]);
    assert_eq!(installed_dependents(&f, "lib", &t), ["a"]);
    assert_eq!(deps("a", &f, None).unwrap(), ["lib"]);
    assert!(deps("a", &f, Some(&recorded(&[]))).unwrap().is_empty());
    assert!(matches!(deps("z", &f, None), Err(WaxError::FormulaNotFound(_))));
    assert_eq!(print_dep_tree(&strings(&["lib"]), &f).len(), 1);
    assert_eq!(
        artifact_label(&CaskArtifact::ScreenSaver { screen_saver: vec![] }),
        "screen_saver"
    );
    let mut d = CaskDetails {
        token: "tool".to_string(),
        name: vec![],
        desc: None,
        homepage: String::new(),
        version: "1".to_string(),
        url: String::new(),
        sha256: String::new(),
        artifacts: None,
    };
    assert_eq!(display_name(&d), "tool");
    d.name = strings(&["The Tool", "x"]);
    assert_eq!(display_name(&d), "The Tool");
}

#[test]
fn circular_dependencies_are_shown_once() {
    let f = vec![formula("a", "1", &["b"]), formula("b", "1", &["a"])];
    let lines = print_dep_tree(&strings(&["a"]), &f);
    assert!(lines.len() <= 3);
    assert!(lines.iter().any(|l| l.contains('b')));
}

#[test]
fn homepages_are_found() {
    let f = vec![formula("a", "1", &[])];
    let c = vec![cask("c", "1")];
    assert_eq!(find_homepage(&f, &c, "a").unwrap(), ("https://a.org".to_string(), false));
    assert_eq!(find_homepage(&f, &c, "c").unwrap(), ("https://c.app".to_string(), true));
    assert!(find_homepage(&f, &c, "z").is_none());
    assert_eq!(source(&f, &c, "a").unwrap(), ("https://a.org".to_string(), false));
    assert!(source(&f, &c, "z").is_err());
    assert!(is_web_scheme(Some("https".to_string())));
    assert!(!is_web_scheme(Some("file".to_string())));
    assert!(!is_web_scheme(None));
    assert_eq!(opener("macos"), Some("open"));
    assert_eq!(opener("linux"), Some("xdg-open"));
    assert_eq!(opener("plan9"), None);
}

#[test]
fn packages_are_selected() {
    let t = recorded(&[("b", "1"), ("a", "1")]);
    assert_eq!(sorted_names(&t), ["a", "b"]);
    assert_eq!(selected(&strings(&["x"]), false, &t, "none").unwrap(), ["x"]);
    assert_eq!(selected(&vec![], true, &t, "none").unwrap(), ["a", "b"]);
    assert!(matches!(
        reinstall(&vec![], false, &t),
        Err(WaxError::InvalidInput(m))
            if m == "Specify package name(s) or use --all to reinstall everything"
    ));
    assert!(matches!(
        uninstall(&vec![], false, &t),
        Err(WaxError::InvalidInput(m))
            if m == "Specify package name(s) or use --all to uninstall everything"
    ));
    let step = reinstall_step("a", &t);
    assert!(step.remove && step.user && !step.global);
    let new = reinstall_step("z", &t);
    assert!(!new.remove && !new.user && !new.global);
    assert_eq!(position_prefix(0, 2), "[1/2] ");
    assert_eq!(position_prefix(0, 1), "");
    assert_eq!(shown_version("a", &t), "1");
    assert_eq!(shown_version("z", &t), "latest");
    assert_eq!(reinstall_summary(1, 3), "1 package reinstalled [3ms]");
    assert_eq!(reinstall_summary(2, 3), "2 packages reinstalled [3ms]");
    let s = link(&strings(&["b", "z"]), false, &t).unwrap();
    assert_eq!(s.found, [0]);
    assert_eq!(s.missing, ["z"]);
    assert!(matches!(
        link(&vec![], false, &t),
        Err(WaxError::InvalidInput(m))
            if m == "Specify package names or use --all to relink everything"
    ));
    assert_eq!(link_summary(2, 0), "2 packages linked");
    assert_eq!(link_summary(2, 1), "2 linked, 1 errors");
}

#[test]
fn removals_are_decided() {
    let p = wax::commands::install::source_record("a", "1.2", "p", InstallMode::User, false, 0);
    assert!(matches!(uninstall_package_direct("a", &p, "/c", true), PackageRemoval::Trial));
    assert!(matches!(
        uninstall_package_direct("a", &p, "/c", false),
        PackageRemoval::Remove { version, dir } if version == "1.2" && dir == "/c/a"
    ));
    assert!(matches!(removal_of("a", true, true, false, false), Ok(Removal::Cask)));
    assert!(matches!(removal_of("a", false, true, true, true), Ok(Removal::Package)));
    assert!(matches!(removal_of("a", false, false, true, true), Ok(Removal::Cask)));
    assert!(matches!(removal_of("a", false, false, false, true), Ok(Removal::Found)));
    assert!(matches!(
        removal_of("a", false, false, false, false),
        Err(WaxError::NotInstalled(n)) if n == "a"
    ));
    assert!(asks_first(1, false, false, false));
    assert!(!asks_first(0, false, false, false));
    assert!(!asks_first(1, true, false, false));
    assert!(!asks_first(1, false, true, false));
    assert!(matches!(
        uninstall_cask(Some(&installed_cask("a", Some("tar.gz"))), "a", false, false),
        Ok(CaskRemoval::Files(v)) if v == ["/b/x"]
    ));
    assert!(matches!(
        uninstall_cask(Some(&installed_cask("a", Some("pkg"))), "a", false, false),
        Ok(CaskRemoval::Unknown)
    ));
    assert!(matches!(
        uninstall_cask(Some(&installed_cask("a", None)), "a", true, false),
        Ok(CaskRemoval::App(p)) if p == "/Applications/a.app"
    ));
    assert!(matches!(
        uninstall_cask(Some(&installed_cask("a", None)), "a", false, false),
        Err(WaxError::PlatformNotSupported(_))
    ));
    assert!(matches!(
        uninstall_cask(Some(&installed_cask("a", None)), "a", false, true),
        Ok(CaskRemoval::Trial)
    ));
    assert!(matches!(
        uninstall_cask(None, "a", true, true),
        Err(WaxError::NotInstalled(n)) if n == "a"
    ));
}

#[test]
fn nothing_is_linked_of_nothing() {
    for (names, all) in [(vec![], false), (strings(&["a"]), false), (vec![], true)] {
        let s = link(&names, all, &Table::new()).unwrap();
        assert!(s.found.is_empty() && s.missing.is_empty());
    }
}

#[test]
fn trials_hand_no_version_on() {
    let version = || Request::Version { name: "a".to_string(), version: "1".to_string() };
    assert!(matches!(request_step(version(), true), RequestStep::PassOver));
    assert!(matches!(
        request_step(version(), false),
        RequestStep::InstallVersion { name, version } if name == "a" && version == "1"
    ));
    assert!(matches!(request_step(Request::Formula(3), true), RequestStep::Resolve(3)));
    assert!(matches!(request_step(Request::Cask, true), RequestStep::Cask));
    assert!(matches!(request_step(Request::Unknown, false), RequestStep::Unknown));
    assert!(matches!(
        request_step(Request::AlreadyInstalled, false),
        RequestStep::AlreadyInstalled
    ));
}

#[test]
fn updates_keep_what_stands() {
    let fetch = |not_modified: bool, count: Option<usize>, etag: Option<&str>| FetchResult {
        not_modified,
        count,
        etag: etag.map(|s| s.to_string()),
        last_modified: None,
    };
    assert!(matches!(process_fetch(&fetch(true, Some(1), None)), IndexStep::Keep));
    assert!(matches!(process_fetch(&fetch(false, Some(4), None)), IndexStep::Save(4)));
    assert!(matches!(process_fetch(&fetch(false, None, None)), IndexStep::Keep));
    let known = CacheMetadata {
        last_updated: 1,
        formula_count: 1,
        cask_count: 1,
        formulae_etag: Some("f".to_string()),
        formulae_last_modified: Some("m".to_string()),
        casks_etag: Some("c".to_string()),
        casks_last_modified: None,
    };
    let m = save_new_metadata(
        Some(&known),
        5,
        6,
        &fetch(false, Some(5), Some("new")),
        &fetch(true, None, None),
        9,
    );
    assert_eq!(m.last_updated, 9);
    assert_eq!((m.formula_count, m.cask_count), (5, 6));
    assert_eq!(m.formulae_etag.as_deref(), Some("new"));
    assert_eq!(m.formulae_last_modified.as_deref(), Some("m"));
    assert_eq!(m.casks_etag.as_deref(), Some("c"));
    assert_eq!(m.casks_last_modified, None);
    let quiet = Timing { show: false };
    assert_eq!(
        print_update_status(true, true, 5, 6, 0, &quiet, 1),
        "up to date · 5 formulae, 6 casks"
    );
    assert_eq!(
        print_update_status(false, true, 5, 6, 1, &quiet, 1),
        "updated formulae · 5 formulae, 6 casks, 1 tap"
    );
    assert_eq!(
        print_update_status(true, false, 5, 6, 2, &quiet, 1),
        "updated casks · 5 formulae, 6 casks, 2 taps"
    );
}

#[test]
fn the_program_tells_of_itself() {
    assert_eq!(active_taps(&vec![]), None);
    let lines = wax_info("1.0", "/p", Some("/h"), "linux", "x86_64");
    assert!(lines.iter().any(|(_, v)| v.contains("1.0")));
    assert!(lines.iter().any(|(_, v)| v.contains("/p")));
}

fn list_test_rows(found: &[(&str, &str)]) -> Vec<wax::commands::list::InstalledRow> {
    let found = found
        .iter()
        .map(|(n, v)| (n.to_string(), strings(&[v])))
        .collect();
    collect_installed_rows(&found, &Table::new(), &Table::new())
}

#[test]
fn list_plain_shows_test_cellar_formulae() {
    let rows = list_test_rows(&[("wax-a-listtest", "1.0.0"), ("wax-b-listtest", "2.0.0")]);
    let shown = list(&rows, None);
    assert_eq!(shown.len(), 2);
    assert!(shown[0].line.contains("wax-a-listtest"));
    assert!(shown[1].line.contains("wax-b-listtest"));
}

#[test]
fn list_plain_filter_excludes_non_matching() {
    let rows = list_test_rows(&[("wax-a-listtest", "1.0.0"), ("wax-b-listtest", "2.0.0")]);
    let shown = list(&rows, Some("wax-b"));
    assert_eq!(shown.len(), 1);
    assert!(shown[0].line.contains("wax-b-listtest"));
}

#[test]
fn list_plain_no_match_reports_query() {
    let rows = list_test_rows(&[("only-wax-pkg", "1.0")]);
    let needle = "zzz-nope-match";
    assert!(list(&rows, Some(needle)).is_empty());
    let text = no_match_text(Some(needle));
    assert!(text.contains("no installed packages match"));
    assert!(text.contains(needle));
}
