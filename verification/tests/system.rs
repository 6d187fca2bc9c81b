use std::io::Write;
use wax::error::WaxError;
use wax::system::extractor::apk::{self, find_second_gz_magic, place_apk_entry};
use wax::system::extractor::deb::{
    compression_from_name, extract, extract_data_tar, find_data_member, Compression,
};
use wax::system::extractor::{extract_package_tracked, place_entry, rpm, EntryKind, PackageKind, Placement, Unpacking};
use wax::system::installer::SystemInstaller;
use wax::system::manager::{
    check_generation, declare_requested, declared_status, install_reason, live_packages,
    platform_label, pre_install_reason, pre_remove_reason, record_dropped, record_installed,
    record_removed, record_restored, refresh_tracked_state, removal_order,
    remove_managed_packages, remove_reason, rollback_reason, rollback_target, sync_declared,
};
use wax::system::query::{query_apk, query_dpkg, query_pacman, query_rpm};
use wax::system::registry::PackageMetadata;
use wax::system::state::SystemState;

fn strings(v: &[&str]) -> Vec<String> {
    v.iter().map(|s| s.to_string()).collect()
}

fn item(n: &str, v: Option<&str>) -> (String, Option<String>) {
    (n.to_string(), v.map(|s| s.to_string()))
}

#[test]
fn declarations_come_and_go() {
    let mut s = SystemState::new();
    s.declare("vim");
    s.declare("vim");
    s.declare("git");
    assert_eq!(s.declared, strings(&["vim", "git"]));
    assert!(s.is_declared("vim"));
    s.undeclare("vim");
    assert!(!s.is_declared("vim"));
    s.mark_installed("vim", Some("9".to_string()), true, 5);
    assert_eq!(s.installed.get("vim").unwrap().version.as_deref(), Some("9"));
    s.mark_removed("vim");
    assert!(!s.installed.contains_key("vim"));
}

#[test]
fn undeclaring_gives_back_the_state() {
    let mut s = SystemState::new();
    s.declare("git");
    s.mark_installed("vim", None, false, 5);
    s.declare("vim");
    assert!(s.installed.get("vim").unwrap().declared);
    s.undeclare("vim");
    assert_eq!(s.declared, strings(&["git"]));
    assert!(!s.installed.get("vim").unwrap().declared);
    assert_eq!(s.installed.get("vim").unwrap().installed_at, 5);
    s.mark_installed("ed", None, true, 6);
    s.declare("ed");
    s.undeclare("ed");
    assert!(!s.installed.get("ed").unwrap().declared);
}

#[test]
fn live_packages_win_over_the_record() {
    let live = live_packages(
        vec![item("b", Some("1")), item("a", None)],
        &vec![
            ("b".to_string(), "2".to_string()),
            ("c".to_string(), "3".to_string()),
        ],
    );
    assert_eq!(
        live,
        vec![item("a", None), item("b", Some("2")), item("c", Some("3"))]
    );
    let mut s = SystemState::new();
    s.declare("c");
    s.mark_installed("b", None, false, 1);
    s.mark_installed("gone", None, false, 1);
    refresh_tracked_state(&mut s, &live, 9);
    assert!(!s.installed.contains_key("gone"));
    assert!(!s.installed.contains_key("a"));
    assert_eq!(s.installed.get("b").unwrap().version.as_deref(), Some("2"));
    assert!(s.installed.get("c").unwrap().declared);
    assert_eq!(
        declared_status(&s),
        vec![("c".to_string(), true)]
    );
}

#[test]
fn steps_are_recorded() {
    let mut s = SystemState::new();
    declare_requested(&mut s, &strings(&["vim"]));
    record_installed(&mut s, &strings(&["vim"]), &vec![item("vim", Some("9"))], true, 3);
    assert!(s.installed.get("vim").unwrap().declared);
    record_dropped(&mut s, &strings(&["vim"]));
    assert!(!s.installed.contains_key("vim"));
    assert!(s.is_declared("vim"));
    record_restored(&mut s, &vec![item("vim", Some("8"))], 4);
    assert_eq!(s.installed.get("vim").unwrap().version.as_deref(), Some("8"));
    record_removed(&mut s, &strings(&["vim"]));
    assert!(!s.is_declared("vim"));
    assert!(!s.installed.contains_key("vim"));
}

#[test]
fn syncing_converges() {
    let mut s = SystemState::new();
    assert!(sync_declared(&s).is_none());
    s.declare("a");
    s.declare("b");
    s.mark_installed("b", None, true, 1);
    s.mark_installed("c", None, false, 1);
    let plan = sync_declared(&s).unwrap();
    assert_eq!(plan.to_install, strings(&["a"]));
    assert_eq!(plan.to_remove, strings(&["c"]));
}

#[test]
fn generations_have_reasons() {
    let p = strings(&["a", "b"]);
    assert_eq!(install_reason(&p, false), "install a b");
    assert_eq!(install_reason(&p, true), "add a b");
    assert_eq!(pre_install_reason(&p, true), "pre-add a b");
    assert_eq!(remove_reason(&p), "remove a b");
    assert_eq!(pre_remove_reason(&p), "pre-remove a b");
    assert_eq!(rollback_reason(12), "rollback to gen-12");
    assert_eq!(rollback_target(Some(3), None).unwrap(), 3);
    assert_eq!(rollback_target(None, Some(2)).unwrap(), 2);
    assert!(matches!(
        rollback_target(None, None),
        Err(WaxError::InstallError(m)) if m == "no previous generation to roll back to"
    ));
    assert!(check_generation(7, true).is_ok());
    assert!(matches!(
        check_generation(7, false),
        Err(WaxError::InstallError(m)) if m == "generation 7 not found"
    ));
    assert_eq!(platform_label(true, None, "macos"), "macOS");
    assert_eq!(
        platform_label(false, Some(("Fedora".to_string(), "39".to_string())), "linux"),
        "Fedora 39"
    );
    assert_eq!(
        platform_label(false, Some(("Arch".to_string(), String::new())), "linux"),
        "Arch"
    );
    assert_eq!(platform_label(false, None, "linux"), "linux");
}

#[test]
fn removals_are_ordered() {
    let d = |p: &str, n: usize| (p.to_string(), n);
    assert_eq!(
        removal_order(vec![d("/a", 2), d("/a/b/c", 4), d("/a/b", 3), d("/x/y", 3)]),
        vec![d("/a/b/c", 4), d("/a/b", 3), d("/x/y", 3), d("/a", 2)]
    );
    assert_eq!(
        remove_managed_packages(&strings(&["a", "b", "c"]), &vec![true, false, false]),
        strings(&["b", "c"])
    );
}

#[test]
fn package_managers_are_queried() {
    assert_eq!(
        query_dpkg(Some(b"vim\t9\n\t1\nabc\t\n")),
        vec![item("abc", Some("")), item("vim", Some("9"))]
    );
    assert_eq!(query_rpm(Some(b"bash\t5-1\n")), vec![item("bash", Some("5-1"))]);
    assert_eq!(query_pacman(Some(b"vim 9\n")), vec![item("vim", Some("9"))]);
    assert_eq!(
        query_apk(Some(b"musl-1.2\nfoo-bar\n")),
        vec![item("foo-bar", None), item("musl", Some("1.2"))]
    );
    assert_eq!(
        query_apk(Some(b"zlib-1.3\nbusybox-1.36.1-r2\n")),
        vec![item("busybox", Some("1.36.1-r2")), item("zlib", Some("1.3"))]
    );
    assert!(query_apk(None).is_empty());
}

fn package(name: &str, sha: Option<&str>) -> PackageMetadata {
    PackageMetadata {
        name: name.to_string(),
        version: "1".to_string(),
        description: String::new(),
        download_url: String::new(),
        sha256: sha.map(|s| s.to_string()),
        installed_size: 0,
        depends: vec![],
        provides: vec![],
    }
}

#[test]
fn downloads_are_checked_and_counted() {
    assert_eq!(SystemInstaller::download_name("http://a/b/c.deb"), "c.deb");
    assert_eq!(SystemInstaller::download_name("http://a/"), "");
    let sha = "ba7816bf8f01cfea414140de5dae2223b00361a396177a9cb410ff61f20015ad";
    assert!(SystemInstaller::check_download(&package("a", Some(sha)), b"abc").is_ok());
    assert!(SystemInstaller::check_download(&package("a", None), b"abc").is_ok());
    assert!(matches!(
        SystemInstaller::check_download(&package("a", Some("00")), b"abc"),
        Err(WaxError::ChecksumMismatch { expected, actual }) if expected == "00" && actual == sha
    ));
    assert_eq!(
        SystemInstaller::install_packages(
            &vec![package("a", None), package("b", None)],
            &vec![false, true]
        ),
        vec![("b".to_string(), "1".to_string())]
    );
    assert_eq!(SystemInstaller::install_prefix(true, None), "/");
    assert_eq!(SystemInstaller::install_prefix(false, Some("/h")), "/h/.local");
    assert_eq!(
        SystemInstaller::install_prefix(false, None),
        "/tmp/system/root"
    );
}

fn gz(bytes: &[u8]) -> Vec<u8> {
    let mut e = flate2::write::GzEncoder::new(Vec::new(), flate2::Compression::default());
    e.write_all(bytes).unwrap();
    e.finish().unwrap()
}

fn xz(bytes: &[u8]) -> Vec<u8> {
    let mut e = xz2::write::XzEncoder::new(Vec::new(), 1);
    e.write_all(bytes).unwrap();
    e.finish().unwrap()
}

fn bz2(bytes: &[u8]) -> Vec<u8> {
    let mut e = bzip2::write::BzEncoder::new(Vec::new(), bzip2::Compression::fast());
    e.write_all(bytes).unwrap();
    e.finish().unwrap()
}

fn ar(members: &[(&str, &[u8])]) -> Vec<u8> {
    let mut out = b"!<arch>\n".to_vec();
    for (name, data) in members {
        out.extend(format!("{:<16}{:<12}{:<6}{:<6}{:<8}{:<10}`\n", name, 0, 0, 0, "100644", data.len()).as_bytes());
        out.extend(*data);
        if data.len() % 2 == 1 {
            out.push(b'\n');
        }
    }
    out
}

/// An archive with directories, files and links, each written `name@target`.
fn tree(names: &[&str]) -> Vec<u8> {
    let mut b = tar::Builder::new(Vec::new());
    for name in names {
        let mut h = tar::Header::new_gnu();
        h.set_size(0);
        h.set_mode(0o644);
        let mut path = *name;
        if let Some((at, target)) = name.split_once('@') {
            path = at;
            h.set_entry_type(tar::EntryType::Symlink);
            h.set_link_name(target).unwrap();
        } else if name.ends_with('/') {
            h.set_entry_type(tar::EntryType::Directory);
        } else {
            h.set_entry_type(tar::EntryType::Regular);
        }
        h.as_old_mut().name[..path.len()].copy_from_slice(path.as_bytes());
        h.set_cksum();
        b.append(&h, &b""[..]).unwrap();
    }
    b.into_inner().unwrap()
}

fn done(u: &Unpacking) -> Vec<String> {
    u.placements
        .iter()
        .map(|p| match p {
            Placement::Skip => "skip".to_string(),
            Placement::MakeDir(p) => format!("dir {}", p),
            Placement::Link(p) => format!("link {}", p),
            Placement::Unpack(p) => format!("file {}", p),
        })
        .collect()
}

#[test]
fn what_follows_an_archive_is_not_read() {
    let mut gzipped = gz(&tree(&["a", "b"]));
    let n = gzipped.len();
    gzipped[n - 8] ^= 0xff;
    let u = extract_data_tar(&gzipped, Compression::Gz).unwrap();
    assert_eq!(u.fault, None);
    assert_eq!(done(&u), vec!["file a", "file b"]);
    let mut package = gz(b"signature");
    package.extend(&gzipped);
    let u = apk::extract_tracked(&package).unwrap();
    assert_eq!(u.fault, None);
    assert_eq!(done(&u), vec!["file a", "file b"]);
}

#[test]
fn packages_are_told_by_their_name() {
    assert_eq!(extract_package_tracked("/a/x.deb").unwrap(), PackageKind::Deb);
    assert_eq!(
        extract_package_tracked("/a/x.pkg.tar.zst").unwrap(),
        PackageKind::Pacman
    );
    assert_eq!(extract_package_tracked("/a/x.apk").unwrap(), PackageKind::Apk);
    assert_eq!(extract_package_tracked("/a/x.rpm").unwrap(), PackageKind::Rpm);
    assert!(matches!(
        extract_package_tracked("/a/x.zip"),
        Err(WaxError::InstallError(m)) if m == "unknown package format: /a/x.zip"
    ));
}

#[test]
fn debian_packages_are_unpacked() {
    let c = |s: &str| compression_from_name(&s.chars().collect::<Vec<char>>());
    assert_eq!(c("data.tar.gz"), Compression::Gz);
    assert_eq!(c("data.tar.xz"), Compression::Xz);
    assert_eq!(c("data.tar.zst"), Compression::Zst);
    assert_eq!(c("data.tar.bz2"), Compression::Bz2);
    assert_eq!(c("data.tar"), Compression::Plain);
    let files = tree(&["./", "./usr/", "./usr/bin/x", "./usr/bin/y@x", "../up"]);
    let all = vec!["skip", "dir usr/", "file usr/bin/x", "link usr/bin/y", "skip"];
    let z = zstd::encode_all(&files[..], 1).unwrap();
    for (bytes, c) in [
        (gz(&files), Compression::Gz),
        (xz(&files), Compression::Xz),
        (bz2(&files), Compression::Bz2),
        (z, Compression::Zst),
        (files.clone(), Compression::Plain),
    ] {
        let u = extract_data_tar(&bytes, c).unwrap();
        assert_eq!(u.fault, None);
        assert_eq!(done(&u), all);
    }
    let torn = extract_data_tar(b"abc", Compression::Gz).unwrap();
    assert!(torn.fault.is_some());
    assert!(torn.placements.is_empty());
    let torn = extract_data_tar(&files[..1600], Compression::Plain).unwrap();
    assert!(torn.fault.is_some());
    assert_eq!(done(&torn), vec!["skip", "dir usr/", "file usr/bin/x"]);
    let data = gz(&files);
    let deb = ar(&[
        ("debian-binary", b"2.0\n"),
        ("control.tar.gz", b"odd"),
        ("data.tar.gz/", &data),
    ]);
    let m = find_data_member(&deb).unwrap();
    assert_eq!(m.size as usize, data.len());
    assert_eq!(m.compression, Compression::Gz);
    assert_eq!(done(&extract(&deb).unwrap()), all);
    assert!(extract(&deb[..deb.len() - 2]).is_err());
    assert!(extract(b"nonsense").is_err());
    assert!(extract(&ar(&[("debian-binary", b"2.0\n")])).is_err());
}

#[test]
fn alpine_packages_are_unpacked() {
    let first = gz(b"signature");
    let second = gz(&tree(&[".PKGINFO", "usr/bin/x"]));
    let mut both = first.clone();
    both.extend(&second);
    assert_eq!(find_second_gz_magic(&both), Some(first.len()));
    assert_eq!(find_second_gz_magic(&first), None);
    assert_eq!(
        done(&apk::extract_tracked(&both).unwrap()),
        vec!["skip", "file usr/bin/x"]
    );
    assert!(matches!(
        apk::extract_tracked(&first),
        Err(WaxError::InstallError(m)) if m == "Could not find second gzip stream in .apk file"
    ));
    assert!(matches!(place_apk_entry(".PKGINFO", EntryKind::Other), Placement::Skip));
    assert!(matches!(
        place_apk_entry("usr/bin/x", EntryKind::Other),
        Placement::Unpack(p) if p == "usr/bin/x"
    ));
}

#[test]
fn entries_never_leave_the_destination() {
    assert!(matches!(
        place_entry("../../etc/passwd", EntryKind::Other),
        Placement::Skip | Placement::Unpack(_)
    ));
    match place_entry("../../etc/passwd", EntryKind::Other) {
        Placement::Unpack(p) => assert!(!p.contains("..")),
        Placement::Skip => {}
        _ => panic!("unexpected"),
    }
    assert!(matches!(place_entry("./usr/", EntryKind::Dir), Placement::MakeDir(_)));
    assert!(matches!(
        place_entry("usr/l", EntryKind::Symlink { named: true }),
        Placement::Link(_)
    ));
}

#[test]
fn red_hat_packages_need_tools() {
    assert!(rpm::extract(true, true).is_ok());
    assert!(rpm::extract(false, true).is_err());
    assert!(rpm::extract(true, false).is_err());
    assert!(rpm::extract_tracked(true, true).is_ok());
    assert!(rpm::extract_tracked(false, false).is_err());
}
