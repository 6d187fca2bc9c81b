use wax::cask::{CaskState, InstalledCask};
use wax::commands::lock::{add_packages, lock, lock_summary};
use wax::commands::pin::{pin, unpin};
use wax::commands::sync::{
    needs_install, platform_note, sync, sync_item, sync_summary, sync_with_found,
};
use wax::api::{Bottle, BottleFile, Formula};
use wax::error::WaxError;
use wax::install::{
    cellars_to_scan, clear_opt_link, default_install_mode, formula_path, link_dirs, link_entry,
    opt_link, unlink_entry, InstallMode, InstallState, InstalledPackage, LinkStep, UnlinkStep,
};
use wax::links::{create_symlinks, remove_symlinks, LinkNode};
use wax::lockfile::{Lockfile, LockfilePackage};
use wax::table::Table;
use wax::ui::{Clearing, Standing};

fn package(name: &str, version: &str) -> InstalledPackage {
    InstalledPackage {
        name: name.to_string(),
        version: version.to_string(),
        platform: "x86_64_linux".to_string(),
        install_date: 7,
        install_mode: InstallMode::User,
        from_source: false,
        bottle_rebuild: 0,
        bottle_sha256: None,
        pinned: false,
    }
}

fn cask(name: &str, version: &str) -> InstalledCask {
    InstalledCask {
        name: name.to_string(),
        version: version.to_string(),
        install_date: 7,
        artifact_type: None,
        binary_paths: None,
        app_name: None,
    }
}

fn recorded(list: &[(&str, &str)]) -> Table<InstalledPackage> {
    let mut t = Table::new();
    for (n, v) in list {
        InstallState::add(&mut t, package(n, v));
    }
    t
}

fn strings(v: &[&str]) -> Vec<String> {
    v.iter().map(|s| s.to_string()).collect()
}

#[test]
fn modes_come_from_flags() {
    assert_eq!(InstallMode::from_flags(true, false).unwrap(), Some(InstallMode::User));
    assert_eq!(InstallMode::from_flags(false, true).unwrap(), Some(InstallMode::Global));
    assert_eq!(InstallMode::from_flags(false, false).unwrap(), None);
    assert!(matches!(
        InstallMode::from_flags(true, true),
        Err(WaxError::InstallError(m)) if m == "Cannot specify both --user and --global"
    ));
    for mode in [None, Some(InstallMode::User), Some(InstallMode::Global)] {
        let (user, global) = InstallMode::flags(mode);
        assert_eq!(InstallMode::from_flags(user, global).unwrap(), mode);
    }
    assert_eq!(
        InstallMode::User.prefix(Some("/h"), "/b").unwrap(),
        "/h/.local/wax"
    );
    assert_eq!(InstallMode::Global.prefix(None, "/b").unwrap(), "/b");
    assert!(InstallMode::User.prefix(None, "/b").is_err());
    assert_eq!(
        InstallMode::User.cellar_path(Some("/h"), "/b").unwrap(),
        "/h/.local/wax/Cellar"
    );
    assert!(InstallMode::Global.validate("/b", false).is_err());
    assert!(InstallMode::Global.validate("/b", true).is_ok());
    assert!(InstallMode::User.validate("/b", false).is_ok());
    let _ = default_install_mode();
}

#[test]
fn records_are_added_and_removed() {
    let mut t = recorded(&[("a", "1")]);
    InstallState::add(&mut t, package("b", "1"));
    InstallState::remove(&mut t, "b");
    assert_eq!(t.entries.len(), 1);
    InstallState::add(&mut t, package("a", "2"));
    assert_eq!(t.get("a").unwrap().version, "2");
    let mut c: Table<InstalledCask> = Table::new();
    CaskState::add(&mut c, cask("x", "1"));
    CaskState::remove(&mut c, "x");
    assert!(c.entries.is_empty());
}

#[test]
fn scans_bring_records_in_line() {
    let mut t = recorded(&[("a", "1")]);
    t.entries[0].value.pinned = true;
    let found = vec![
        ("a".to_string(), "2".to_string()),
        ("b".to_string(), "1".to_string()),
    ];
    InstallState::scan_cellar_and_update(&mut t, &found, "/opt/homebrew/Cellar", "linux", "x86_64");
    assert_eq!(t.get("a").unwrap().version, "2");
    assert!(t.get("a").unwrap().pinned);
    let b = t.get("b").unwrap();
    assert_eq!(b.version, "1");
    assert_eq!(b.install_mode, InstallMode::Global);
    assert_eq!(b.platform, "linux-x86_64");
    assert_eq!(
        InstallState::detect_install_mode("/h/.local/wax/Cellar"),
        InstallMode::User
    );
    assert_eq!(
        InstallState::cellar_candidates("macos", "aarch64"),
        strings(&["/opt/homebrew", "/usr/local"])
    );
    assert_eq!(
        cellars_to_scan(
            Some("/b/Cellar".to_string()),
            &strings(&["/x", "/y", "/z"]),
            &vec![false, true, true],
            Some("/h/Cellar".to_string())
        ),
        strings(&["/b/Cellar", "/y/Cellar", "/h/Cellar"])
    );
    assert!(cellars_to_scan(None, &strings(&["/x"]), &vec![false], None).is_empty());
}

#[test]
fn pins_are_set_and_lifted() {
    let mut t = recorded(&[("a", "1"), ("b", "1")]);
    let missing = pin(&strings(&["a", "x"]), &mut t).unwrap();
    assert_eq!(missing, strings(&["x"]));
    assert!(t.get("a").unwrap().pinned);
    assert!(!t.get("b").unwrap().pinned);
    unpin(&strings(&["a"]), &mut t).unwrap();
    assert!(!t.get("a").unwrap().pinned);
    assert!(matches!(
        pin(&vec![], &mut t),
        Err(WaxError::InvalidInput(m)) if m == "No packages specified"
    ));
    assert!(InstallState::set_pinned(&mut t, "a", true));
    assert!(!InstallState::set_pinned(&mut t, "zzz", true));
}

fn formula(name: &str, version: &str) -> Formula {
    let mut files = Table::new();
    files.insert(
        "x86_64_linux".to_string(),
        BottleFile {
            url: format!("https://b/{}", name),
            sha256: "abc".to_string(),
        },
    );
    Formula {
        name: name.to_string(),
        full_name: name.to_string(),
        desc: None,
        homepage: String::new(),
        stable: version.to_string(),
        bottled: true,
        installed: None,
        dependencies: None,
        build_dependencies: None,
        bottle: Some(Bottle { rebuild: 0, files }),
        post_install_defined: false,
    }
}

#[test]
fn fresh_lockfile_asks_for_nothing() {
    let t = recorded(&[("a", "1"), ("b", "2")]);
    let mut casks: Table<InstalledCask> = Table::new();
    CaskState::add(&mut casks, cask("x", "9"));
    let l = Lockfile::generate(&t, &casks);
    assert_eq!(l.packages.get("b").unwrap().version, "2");
    assert_eq!(l.packages.get("b").unwrap().bottle, "x86_64_linux");
    assert_eq!(l.casks.get("x").unwrap().version, "9");
    assert!(sync(&l.packages, &t, &vec![]).unwrap().is_empty());
    let items = sync(
        &l.packages,
        &recorded(&[("a", "1")]),
        &vec![formula("b", "2")],
    )
    .unwrap();
    assert_eq!(items.len(), 1);
    assert_eq!(items[0].name, "b");
    assert_eq!(items[0].url, "https://b/b");
    assert_eq!(
        Lockfile::default_path(Some("/h")),
        "/h/.wax/locks/wax.lock"
    );
    assert_eq!(Lockfile::default_path(None), ".wax/locks/wax.lock");
    assert!(Lockfile::present(true).is_ok());
    assert!(matches!(Lockfile::present(false), Err(WaxError::LockfileError(_))));
}

#[test]
fn locked_packages_are_looked_up() {
    let locked = LockfilePackage {
        version: "1".to_string(),
        bottle: "x86_64_linux".to_string(),
    };
    assert!(!needs_install("a", &locked, &recorded(&[("a", "1")])));
    assert!(needs_install("a", &locked, &recorded(&[("a", "2")])));
    assert!(sync_item("a", &locked, &vec![]).is_err());
    assert!(sync_item("a", &locked, &vec![formula("a", "2")]).is_err());
    assert_eq!(
        sync_item("a", &locked, &vec![formula("a", "1")]).unwrap().sha256,
        "abc"
    );
    assert!(platform_note("a", "x", "x").is_none());
    assert!(platform_note("a", "x", "y").is_some());
    let _ = sync_summary(2, 5);
}

#[test]
fn discovered_packages_are_locked_too() {
    let l = lock(
        recorded(&[("a", "1")]),
        vec![package("a", "9"), package("m", "3")],
        Table::new(),
        vec![cask("x", "1")],
    );
    assert_eq!(l.packages.get("a").unwrap().version, "1");
    assert_eq!(l.packages.get("m").unwrap().version, "3");
    assert_eq!(l.casks.get("x").unwrap().version, "1");
    assert!(lock_summary(0, 0).is_none());
    assert!(lock_summary(1, 0).is_some());
}

fn node(name: &str, is_dir: bool, place: Standing, children: Vec<LinkNode>) -> LinkNode {
    LinkNode {
        name: name.to_string(),
        is_dir,
        leads_to_dir: is_dir,
        place,
        place_leads_to: None,
        children,
    }
}

fn link_to(name: &str, is_dir: bool, to: &str) -> LinkNode {
    LinkNode {
        name: name.to_string(),
        is_dir,
        leads_to_dir: is_dir,
        place: Standing::Symlink,
        place_leads_to: Some(to.to_string()),
        children: vec![],
    }
}

#[test]
fn removing_links_undoes_making_them() {
    let path = formula_path("/c", "tree", "2.1");
    assert_eq!(path, "/c/tree/2.1");
    let before = vec![
        Some(vec![node("tree", false, Standing::Nothing, vec![])]),
        None,
        None,
        Some(vec![node(
            "man",
            true,
            Standing::Dir,
            vec![node("man1", true, Standing::Nothing, vec![])],
        )]),
        None,
        None,
    ];
    let made = create_symlinks(&before, &path, "/p", "tree", Standing::Nothing, false);
    let made: Vec<(&str, &str, bool)> = made
        .iter()
        .map(|l| (l.source.as_str(), l.target.as_str(), l.remove))
        .collect();
    assert_eq!(
        made,
        vec![
            ("/c/tree/2.1/bin/tree", "/p/bin/tree", false),
            ("/c/tree/2.1/share/man/man1", "/p/share/man/man1", false),
            ("/c/tree/2.1", "/p/opt/tree", false),
        ]
    );
    let after = vec![
        Some(vec![link_to("tree", false, "/c/tree/2.1/bin/tree")]),
        None,
        None,
        Some(vec![node(
            "man",
            true,
            Standing::Dir,
            vec![link_to("man1", true, "/c/tree/2.1/share/man/man1")],
        )]),
        None,
        None,
    ];
    let gone = remove_symlinks(&after, &path, "/p", "tree", Standing::Symlink, Some(&path), false);
    let targets: Vec<&str> = made.iter().map(|l| l.1).collect();
    assert_eq!(gone, targets);
}

#[test]
fn links_of_others_stay() {
    let trees = vec![
        Some(vec![
            link_to("tree", false, "/c/other/1/bin/tree"),
            node("plain", false, Standing::File, vec![]),
        ]),
        None,
        None,
        None,
        None,
        None,
    ];
    let gone = remove_symlinks(
        &trees,
        "/c/tree/2.1",
        "/p",
        "tree",
        Standing::Symlink,
        Some("/c/tree/2.0"),
        false,
    );
    assert!(gone.is_empty());
    let trial = create_symlinks(&trees, "/c/tree/2.1", "/p", "tree", Standing::Nothing, true);
    assert!(trial.is_empty());
    let made = create_symlinks(&trees, "/c/tree/2.1", "/p", "tree", Standing::Symlink, false);
    assert!(made.iter().all(|l| l.remove && l.create));
    assert_eq!(made.len(), 3);
}

#[test]
fn linked_places_are_known() {
    let dirs = link_dirs("/c/a/1", "/p");
    let names: Vec<&str> = dirs.iter().map(|d| d.1.as_str()).collect();
    assert_eq!(
        names,
        vec!["/p/bin", "/p/lib", "/p/include", "/p/share", "/p/etc", "/p/sbin"]
    );
    assert_eq!(opt_link("/p", "a"), "/p/opt/a");
    assert_eq!(clear_opt_link(Standing::Dir, false), Clearing::RemoveDir);
    assert_eq!(clear_opt_link(Standing::Symlink, false), Clearing::RemoveFile);
    assert_eq!(clear_opt_link(Standing::Dir, true), Clearing::Keep);
    assert_eq!(clear_opt_link(Standing::Nothing, false), Clearing::Keep);
}

#[test]
fn what_was_found_counts_as_installed() {
    let found = || vec![package("b", "2"), package("a", "9")];
    let l = lock(recorded(&[("a", "1")]), found(), Table::new(), vec![]);
    assert_eq!(l.packages.get("a").unwrap().version, "1");
    assert_eq!(l.packages.get("b").unwrap().version, "2");
    let formulae = vec![formula("b", "2")];
    let left = sync(&l.packages, &recorded(&[("a", "1")]), &formulae).unwrap();
    assert_eq!(left.len(), 1);
    let left = sync_with_found(&l.packages, recorded(&[("a", "1")]), found(), &formulae).unwrap();
    assert!(left.is_empty());
    let mut t = recorded(&[("a", "1")]);
    add_packages(&mut t, vec![package("a", "2"), package("c", "3")]);
    assert_eq!(t.get("a").unwrap().version, "1");
    assert_eq!(t.get("c").unwrap().version, "3");
}

#[test]
fn entries_are_linked_one_by_one() {
    assert_eq!(link_entry(true, Standing::Dir, false), LinkStep::Descend);
    assert_eq!(link_entry(false, Standing::File, true), LinkStep::Skip);
    assert_eq!(
        link_entry(false, Standing::File, false),
        LinkStep::Link { remove: true, create: true }
    );
    assert_eq!(
        link_entry(false, Standing::Nothing, true),
        LinkStep::Link { remove: false, create: false }
    );
    let path = "/c/a/1";
    assert_eq!(
        unlink_entry(false, Standing::Symlink, Some("/c/a/1/bin/a"), path, false),
        UnlinkStep::Unlink { remove: true }
    );
    assert_eq!(
        unlink_entry(false, Standing::Symlink, Some("/c/b/1/bin/a"), path, false),
        UnlinkStep::Skip
    );
    assert_eq!(unlink_entry(false, Standing::Symlink, None, path, false), UnlinkStep::Skip);
    assert_eq!(unlink_entry(true, Standing::Dir, None, path, false), UnlinkStep::Descend);
    assert_eq!(unlink_entry(false, Standing::File, None, path, false), UnlinkStep::Skip);
}
