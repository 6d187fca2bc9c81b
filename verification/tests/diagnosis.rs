use wax::commands::doctor::{
    check_broken_symlinks, check_cache, check_cask_state, check_cellar, check_glibc_version,
    check_gpu_toolchain, check_install_state, check_metal_toolchain, check_opt_symlinks,
    check_path, check_prefix, check_state_consistency, check_symlink_dir, check_tools,
    check_user_cellar, collect_broken_symlinks_recursive, drop_missing, linked_dirs,
    missing_packages, needs_refresh, needs_relink, needs_reset, relative_path, report_relinked,
    report_saved, report_untracked, symlink_dirs, untracked_packages, DiagResult, DirEntry,
    IndexState, Mark, OptLink, RecordState,
};
use wax::commands::install::source_record;
use wax::install::{InstallMode, InstallState, InstalledPackage};
use wax::table::Table;

fn strings(v: &[&str]) -> Vec<String> {
    v.iter().map(|s| s.to_string()).collect()
}

fn last(d: &DiagResult) -> (Mark, &str) {
    let f = d.findings.last().unwrap();
    (f.mark, f.message.as_str())
}

#[test]
fn findings_are_counted() {
    let mut d = DiagResult::new(false);
    d.pass("a".to_string());
    d.warn("b".to_string());
    d.fail("c".to_string());
    d.fixed("d".to_string());
    assert_eq!((d.passed, d.warned, d.failed, d.fixed), (1, 1, 1, 1));
    assert_eq!(
        d.doctor(),
        ("result: 1 passed, 1 warnings, 1 errors, 1 fixed".to_string(), true)
    );
    let mut clean = DiagResult::new(false);
    clean.pass("a".to_string());
    assert_eq!(clean.doctor(), ("result: 1 passed".to_string(), false));
    let mut mending = DiagResult::new(true);
    mending.warn("a".to_string());
    assert!(!mending.doctor().1);
}

#[test]
fn places_are_checked() {
    let mut d = DiagResult::new(false);
    check_prefix(&mut d, "/p", false, None, false);
    assert_eq!(d.findings.len(), 1);
    assert_eq!(last(&d), (Mark::Fail, "prefix missing: /p"));
    check_prefix(&mut d, "/p", true, None, false);
    assert_eq!(
        last(&d),
        (Mark::Warn, "prefix not writable: /p (use --user or sudo)")
    );
    check_cellar(&mut d, "/c", None, None);
    assert_eq!(last(&d), (Mark::Warn, "cellar missing: /c"));
    check_cellar(&mut d, "/c", Some(3), None);
    assert_eq!(last(&d), (Mark::Pass, "cellar: /c (3 packages)"));
    check_user_cellar(&mut d, "/u", Some(2));
    assert_eq!(last(&d), (Mark::Pass, "user cellar: /u (2 packages)"));
    let before = d.findings.len();
    check_user_cellar(&mut d, "/u", None);
    assert_eq!(d.findings.len(), before);
    check_symlink_dir(&mut d, "/p", "bin", false, None);
    assert_eq!(last(&d), (Mark::Warn, "bin directory missing: /p/bin"));
    assert!(symlink_dirs().contains(&"bin".to_string()));
    let mut m = DiagResult::new(true);
    check_prefix(&mut m, "/p", false, Some(Ok(())), true);
    assert_eq!((m.fixed, m.passed), (1, 1));
    check_prefix(&mut m, "/p", false, Some(Err("no".to_string())), true);
    assert_eq!(
        m.findings[2].message,
        "cannot create prefix /p: no (try with sudo)"
    );
    check_cellar(&mut m, "/c", None, Some(Ok(())));
    assert_eq!(last(&m), (Mark::Fixed, "created cellar: /c"));
}

#[test]
fn the_search_path_is_checked() {
    let mut d = DiagResult::new(false);
    check_path(&mut d, "/p/bin", true, Some("/usr/bin:/p/bin"));
    assert_eq!(last(&d), (Mark::Pass, "/p/bin is in PATH"));
    check_path(&mut d, "/p/bin", true, Some("/usr/bin"));
    assert_eq!(d.warned, 1);
    let before = d.findings.len();
    check_path(&mut d, "/p/bin", false, Some("/usr/bin"));
    assert_eq!(d.findings.len(), before);
}

#[test]
fn the_cache_is_checked() {
    let fresh = IndexState::Read { formulae: 5, casks: 6, last_updated: 0 };
    let month: i64 = 30 * 86_400;
    let mut d = DiagResult::new(false);
    check_cache(&mut d, &fresh, 3600, None);
    assert_eq!(d.findings[0].message, "cache: 5 formulae, 6 casks");
    assert_eq!(last(&d), (Mark::Pass, "cache age: 1h (updated recently)"));
    check_cache(&mut d, &fresh, -7200, None);
    assert_eq!(last(&d), (Mark::Pass, "cache age: 0h (updated recently)"));
    assert!(!needs_refresh(&fresh, 3600, true));
    assert!(!needs_refresh(&fresh, month, false));
    assert!(needs_refresh(&fresh, month, true));
    assert!(needs_refresh(&fresh, 169 * 3600, true));
    assert!(!needs_refresh(&fresh, 169 * 3600 - 1, true));
    check_cache(&mut d, &fresh, month, None);
    assert_eq!(
        last(&d),
        (Mark::Warn, "cache is 30 days old — run `wax update`")
    );
    check_cache(&mut d, &IndexState::Missing, month, None);
    assert_eq!(
        last(&d),
        (Mark::Fail, "cache not initialized — run `wax update`")
    );
    let unreadable = IndexState::Unreadable("bad".to_string());
    check_cache(&mut d, &unreadable, month, None);
    assert_eq!(last(&d), (Mark::Fail, "cache error: bad"));
    assert!(needs_refresh(&IndexState::Missing, 0, true));
    assert!(!needs_refresh(&unreadable, 0, true));
    let mut m = DiagResult::new(true);
    check_cache(&mut m, &fresh, month, Some(Ok(())));
    assert_eq!(m.findings[1].message, "cache is 30 days old — refreshing...");
    assert_eq!(last(&m), (Mark::Fixed, "cache refreshed"));
    check_cache(&mut m, &fresh, month, Some(Err("x".to_string())));
    assert_eq!(last(&m), (Mark::Fail, "cache refresh failed: x"));
    check_cache(&mut m, &IndexState::Missing, month, Some(Ok(())));
    assert_eq!(last(&m), (Mark::Fixed, "cache initialized"));
    check_cache(&mut m, &IndexState::Missing, month, Some(Err("x".to_string())));
    assert_eq!(last(&m), (Mark::Fail, "cache init failed: x"));
}

#[test]
fn corrupt_records_are_reset() {
    let corrupt = RecordState::Corrupt("bad".to_string());
    let no = || Some(Err("no".to_string()));
    assert!(needs_reset(&corrupt, true));
    assert!(!needs_reset(&corrupt, false));
    assert!(!needs_reset(&RecordState::Holding(1), true));
    let mut m = DiagResult::new(true);
    check_install_state(&mut m, &corrupt, Some(Ok(())), Some(Ok(())));
    assert_eq!(m.findings[0].message, "install state corrupt: bad");
    assert_eq!(m.findings[0].mark, Mark::Warn);
    assert_eq!(last(&m), (Mark::Fixed, "install state rebuilt from cellar"));
    check_install_state(&mut m, &corrupt, Some(Ok(())), no());
    assert_eq!(last(&m), (Mark::Fixed, "install state reset to empty"));
    check_install_state(&mut m, &corrupt, no(), None);
    assert_eq!(last(&m), (Mark::Fail, "cannot reset install state: no"));
    check_cask_state(&mut m, &corrupt, Some(Ok(())));
    assert_eq!(last(&m), (Mark::Fixed, "cask state reset"));
    check_cask_state(&mut m, &corrupt, no());
    assert_eq!(last(&m), (Mark::Fail, "cannot reset cask state: no"));
    let mut d = DiagResult::new(false);
    check_install_state(&mut d, &corrupt, None, None);
    assert_eq!(last(&d), (Mark::Fail, "install state corrupt: bad"));
    check_cask_state(&mut d, &corrupt, None);
    assert_eq!(last(&d), (Mark::Fail, "cask state corrupt: bad"));
    let nowhere = RecordState::Unavailable("no home".to_string());
    check_install_state(&mut d, &nowhere, None, None);
    assert_eq!(last(&d), (Mark::Fail, "install state unavailable: no home"));
    check_cask_state(&mut d, &nowhere, None);
    assert_eq!(last(&d), (Mark::Fail, "cask state unavailable: no home"));
}

#[test]
fn the_record_is_checked() {
    let mut d = DiagResult::new(false);
    check_install_state(&mut d, &RecordState::Holding(4), None, None);
    assert_eq!(last(&d), (Mark::Pass, "install state: 4 packages tracked"));
    check_cask_state(&mut d, &RecordState::Holding(2), None);
    assert_eq!(last(&d), (Mark::Pass, "cask state: 2 casks tracked"));
    let before = d.findings.len();
    check_cask_state(&mut d, &RecordState::Holding(0), None);
    assert_eq!(d.findings.len(), before);
    check_state_consistency(&mut d, 0, 0);
    assert_eq!(last(&d), (Mark::Pass, "install state consistent with cellar"));
    let mut t: Table<InstalledPackage> = Table::new();
    for n in ["a", "b", "c"] {
        InstallState::add(&mut t, source_record(n, "1", "p", InstallMode::User, false, 0));
    }
    let missing = missing_packages(&t, &vec![Some(true), Some(false), None]);
    assert_eq!(missing, ["b"]);
    assert_eq!(untracked_packages(&t, &strings(&["a", "z"])), ["z"]);
    drop_missing(&mut d, &mut t, &missing);
    assert!(t.contains_key("b"));
    assert_eq!(last(&d), (Mark::Warn, "tracked but missing from cellar: b"));
    let mut m = DiagResult::new(true);
    drop_missing(&mut m, &mut t, &missing);
    assert!(!t.contains_key("b"));
    assert_eq!(last(&m), (Mark::Fixed, "removed stale tracking entry: b"));
    report_saved(&mut m, Ok(()));
    assert_eq!(last(&m).0, Mark::Fixed);
    report_saved(&mut m, Err("full".to_string()));
    assert_eq!(last(&m), (Mark::Fail, "cannot save state: full"));
    report_untracked(&mut m, &strings(&["z"]), Some(Ok(())));
    assert_eq!(last(&m), (Mark::Fixed, "registered 1 untracked packages"));
    report_untracked(&mut d, &strings(&["z"]), None);
    assert_eq!(last(&d), (Mark::Warn, "in cellar but untracked: z"));
}

#[test]
fn links_are_checked() {
    let link = |p: &str, leads_somewhere: bool| DirEntry::Link { path: p.to_string(), leads_somewhere };
    let tree = vec![
        link("/a", false),
        DirEntry::Dir(vec![link("/d/b", false), DirEntry::Other]),
        link("/c", true),
    ];
    let broken = collect_broken_symlinks_recursive(&tree);
    assert_eq!(broken, ["/a", "/d/b"]);
    let mut d = DiagResult::new(false);
    check_broken_symlinks(&mut d, &broken, &vec![]);
    assert_eq!(d.failed, 2);
    assert_eq!(last(&d), (Mark::Fail, "broken symlink: /d/b"));
    check_broken_symlinks(&mut d, &vec![], &vec![]);
    assert_eq!(last(&d), (Mark::Pass, "no broken symlinks"));
    let many: Vec<String> = (0..8).map(|i| format!("/{}", i)).collect();
    check_broken_symlinks(&mut d, &many, &vec![]);
    assert_eq!(last(&d).1, "... and 3 more broken symlinks");
    let mut m = DiagResult::new(true);
    check_broken_symlinks(&mut m, &broken, &vec![Ok(()), Err("no".to_string())]);
    assert_eq!((m.fixed, m.failed), (1, 1));
    assert_eq!(m.findings[0].message, "removed broken symlink: /a");
    assert_eq!(linked_dirs(), ["bin", "lib", "sbin", "include", "share", "opt"]);
    assert_eq!(relative_path("/p/bin/x", "/p"), "bin/x");
    assert_eq!(relative_path("/q/x", "/p"), "/q/x");
    assert!(needs_relink(OptLink::Nothing));
    assert!(needs_relink(OptLink::Link { leads: false }));
    assert!(!needs_relink(OptLink::Link { leads: true }));
    assert!(!check_opt_symlinks(&mut d, &vec![]));
    assert!(!check_opt_symlinks(&mut d, &strings(&["a"])));
    assert_eq!(last(&d).1, "missing opt/ symlink: a");
    assert!(check_opt_symlinks(&mut m, &strings(&["a"])));
    report_relinked(&mut m, &strings(&["a"]), &strings(&["1"]), &vec![Ok(())]);
    assert_eq!(last(&m), (Mark::Fixed, "relinked a@1"));
}

#[test]
fn the_machine_is_checked() {
    let mut d = DiagResult::new(false);
    check_glibc_version(&mut d, Some("ldd (GNU libc) 2.35\nmore"));
    assert_eq!(d.warned, 1);
    check_glibc_version(&mut d, Some("ldd (GNU libc) 2.40\n"));
    assert_eq!(last(&d), (Mark::Pass, "glibc version: 2.40"));
    check_metal_toolchain(&mut d, Some("  Metal Support: Metal 3\n"));
    assert_eq!(last(&d), (Mark::Pass, "Metal: Metal Support: Metal 3"));
    check_gpu_toolchain(&mut d, None, Some("OpenGL version string: 4.6\n"));
    assert_eq!(last(&d), (Mark::Pass, "GPU: OpenGL version string: 4.6"));
    check_gpu_toolchain(&mut d, None, None);
    assert_eq!(last(&d).0, Mark::Warn);
    let before = d.findings.len();
    check_tools(&mut d, true, false, Some(true), true);
    assert_eq!(d.findings[before].message, "curl installed (required for downloads)");
    assert_eq!(d.findings[before + 1].message, "git not found (required for taps)");
    assert_eq!(last(&d), (Mark::Pass, "homebrew installed"));
}
