use std::io::Write;
use wax::error::WaxError;
use wax::outside::{xml_events, TarItem, XmlEvent};
use wax::system::registry::apk::{find_index, parse_apkindex, ApkRegistry};
use wax::system::registry::apt::{parse_packages_file, AptRegistry};
use wax::system::registry::dnf::{
    decode_primary, find_primary_location, parse_primary_xml, DnfRegistry,
};
use wax::system::registry::pacman::{
    packages_in, parse_desc, parse_desc_fields, parse_pacman_db, PacmanRegistry,
};
use wax::system::registry::{
    holds, is_cache_fresh, keep_first_seen, parse_dep_name, PackageIndex, PackageMetadata,
};

fn gz(bytes: &[u8]) -> Vec<u8> {
    let mut e = flate2::write::GzEncoder::new(Vec::new(), flate2::Compression::default());
    e.write_all(bytes).unwrap();
    e.finish().unwrap()
}

fn tar_gz(files: &[(&str, &str)]) -> Vec<u8> {
    let mut b = tar::Builder::new(Vec::new());
    for (name, text) in files {
        let mut h = tar::Header::new_gnu();
        h.set_size(text.len() as u64);
        h.set_mode(0o644);
        h.set_cksum();
        b.append_data(&mut h, name, text.as_bytes()).unwrap();
    }
    gz(&b.into_inner().unwrap())
}

fn strings(v: &[&str]) -> Vec<String> {
    v.iter().map(|s| s.to_string()).collect()
}

fn package(name: &str, version: &str, provides: &[&str]) -> PackageMetadata {
    PackageMetadata {
        name: name.to_string(),
        version: version.to_string(),
        description: String::new(),
        download_url: String::new(),
        sha256: None,
        installed_size: 0,
        depends: vec![],
        provides: strings(provides),
    }
}

#[test]
fn names_are_looked_up() {
    let index = PackageIndex {
        packages: vec![
            package("a", "1", &["virtual"]),
            package("b", "1", &["virtual"]),
            package("virtual2", "1", &[]),
        ],
    };
    assert_eq!(index.find("b").unwrap().name, "b");
    assert_eq!(index.find("virtual").unwrap().name, "a");
    assert!(index.find("zzz").is_none());
    assert_eq!(index.find_position("virtual2"), Some(2));
    assert!(holds(&strings(&["x"]), "x"));
    assert_eq!(parse_dep_name("libc6 (>= 2.17)"), "libc6");
    assert_eq!(parse_dep_name("libc6(>=2)"), "libc6");
    assert_eq!(parse_dep_name(""), "");
    assert!(is_cache_fresh(Some(86_399)));
    assert!(!is_cache_fresh(Some(86_400)));
    assert!(!is_cache_fresh(None));
    let kept = keep_first_seen(vec![
        package("a", "1", &[]),
        package("b", "1", &[]),
        package("a", "2", &[]),
    ]);
    assert_eq!(kept.len(), 2);
    assert_eq!(kept[0].version, "1");
}

const APKINDEX: &str = "C:Q1\nP:busybox\nV:1.36.1-r2\nT:tools\nI:952\nD:!old so:libc.musl>=1 musl\np:cmd:sh=1 /bin/sh\n\nP:noversion\n\n";

#[test]
fn alpine_indexes_are_read() {
    let r = ApkRegistry::new("https://m", "v3.19", "arm");
    assert_eq!(
        r.index_url("main"),
        "https://m/v3.19/main/APKINDEX.tar.gz"
    );
    let p = parse_apkindex(APKINDEX, "https://m", "v3.19", "main", "armv7");
    assert_eq!(p.len(), 1);
    assert_eq!(p[0].name, "busybox");
    assert_eq!(p[0].version, "1.36.1-r2");
    assert_eq!(p[0].installed_size, 952);
    assert_eq!(
        p[0].download_url,
        "https://m/v3.19/main/armv7/busybox-1.36.1-r2.apk"
    );
    assert_eq!(p[0].depends.last().unwrap(), "musl");
    assert!(!p[0].depends.iter().any(|d| d.starts_with('!')));
    let bytes = tar_gz(&[("DESCRIPTION", "x"), ("APKINDEX", APKINDEX)]);
    assert_eq!(r.read_index("main", &bytes).unwrap().len(), 1);
    assert!(r.read_index("main", &tar_gz(&[("x", "y")])).unwrap().is_empty());
    assert!(matches!(
        find_index(&vec![TarItem::BadEntry("bad".to_string())]),
        Err(WaxError::InstallError(m)) if m == "Failed to read tar entry: bad"
    ));
    assert!(matches!(
        find_index(&vec![TarItem::BadPath("bad".to_string())]),
        Err(WaxError::InstallError(m)) if m == "Failed to get entry path: bad"
    ));
    assert!(matches!(
        find_index(&vec![TarItem::File {
            path: "APKINDEX".to_string(),
            text: Err("bad".to_string())
        }]),
        Err(WaxError::InstallError(m)) if m == "Failed to read APKINDEX: bad"
    ));
}

const PACKAGES: &str = "Package: curl\nVersion: 8.0.0\nInstalled-Size: 2\nDepends: libc6 (>= 2.34), libcurl4 | libcurl3, \nProvides: fetcher (= 1)\nFilename: pool/c/curl.deb\nSHA256: ab\nDescription: get urls\n more words\n\nPackage: broken\n\n";

#[test]
fn debian_indexes_are_read() {
    let r = AptRegistry::ubuntu_default("aarch64");
    assert_eq!(
        r.index_url("main"),
        "http://archive.ubuntu.com/ubuntu/dists/jammy/main/binary-arm64/Packages.gz"
    );
    assert_eq!(r.cache_file(), "apt-jammy.json");
    let p = parse_packages_file(PACKAGES, "http://m");
    assert_eq!(p.len(), 1);
    assert_eq!(p[0].name, "curl");
    assert_eq!(p[0].depends, strings(&["libc6", "libcurl4"]));
    assert_eq!(p[0].provides, strings(&["fetcher"]));
    assert_eq!(p[0].installed_size, 2048);
    assert_eq!(p[0].sha256.as_deref(), Some("ab"));
    assert_eq!(p[0].download_url, "http://m/pool/c/curl.deb");
    assert_eq!(p[0].description, "get urls");
    assert_eq!(r.read_index(&gz(PACKAGES.as_bytes())).unwrap().len(), 1);
    assert!(matches!(
        r.read_index(b"no gzip"),
        Err(WaxError::InstallError(m)) if m.starts_with("Failed to decompress APT Packages.gz: ")
    ));
    let merged = r.merge(vec![package("a", "1", &[]), package("a", "2", &[])]);
    assert_eq!(merged.packages.len(), 1);
}

const DESC: &str = "%FILENAME%\nvim-9.1-1-x86_64.pkg.tar.zst\n\n%NAME%\nvim\n\n%VERSION%\n9.1-1\n\n%DESC%\neditor\n\n%ISIZE%\n100\n\n%SHA256SUM%\nab\n\n%DEPENDS%\nglibc>=2\ngpm\n\n";

#[test]
fn arch_databases_are_read() {
    let r = PacmanRegistry::arch_default("x86_64");
    assert_eq!(
        r.index_url("core"),
        "https://geo.mirror.pkgbuild.com/core/os/x86_64/core.db"
    );
    assert_eq!(r.cache_file("core"), "pacman-core.json");
    let fields = parse_desc_fields("%A%\n1\n2\n\n3\n%A%\n4\n");
    assert_eq!(fields.get("A").unwrap(), &strings(&["4"]));
    let p = parse_desc(DESC, "https://m", "core", "x86_64").unwrap();
    assert_eq!(p.name, "vim");
    assert_eq!(p.version, "9.1-1");
    assert_eq!(p.installed_size, 100);
    assert_eq!(
        p.download_url,
        "https://m/core/os/x86_64/vim-9.1-1-x86_64.pkg.tar.zst"
    );
    assert!(parse_desc("%NAME%\nx\n", "m", "core", "x86_64").is_none());
    let db = tar_gz(&[("vim-9.1-1/desc", DESC), ("vim-9.1-1/files", "x")]);
    assert_eq!(
        parse_pacman_db(&db, "https://m", "core", "x86_64").unwrap().len(),
        1
    );
    assert!(packages_in(
        &vec![TarItem::BadEntry("bad".to_string())],
        "m",
        "core",
        "x86_64"
    )
    .is_err());
}

const REPOMD: &str = r#"<?xml version="1.0"?><repomd><data type="filelists"><location href="f.xml"/></data><data type="primary"><location href="repodata/p.xml.gz"/></data></repomd>"#;

const PRIMARY: &str = r#"<metadata><package type="rpm"><name>bash</name><version epoch="0" ver="5.2" rel="1.fc39"/><checksum type="sha256" pkgid="YES">ab</checksum><summary>A &amp; B</summary><description>long</description><size installed="7" package="3"/><location href="Packages/b/bash.rpm"/><format><rpm:requires><rpm:entry name="libc.so.6"/><rpm:entry name="rpmlib(x)"/><rpm:entry name="/bin/sh"/></rpm:requires></format></package><package type="rpm"><name>x</name></package></metadata>"#;

#[test]
fn rpm_repositories_are_read() {
    let r = DnfRegistry::new("https://m/os//");
    assert_eq!(r.repomd_url(), "https://m/os/repodata/repomd.xml");
    assert_eq!(r.primary_url("a.xml"), "https://m/os/a.xml");
    assert_eq!(r.cache_file(), "dnf-https---m-os.json");
    assert_eq!(
        find_primary_location(REPOMD).as_deref(),
        Some("repodata/p.xml.gz")
    );
    assert_eq!(find_primary_location("<repomd/>"), None);
    let p = parse_primary_xml(PRIMARY, "https://m/os");
    assert_eq!(p.len(), 1);
    assert_eq!(p[0].name, "bash");
    assert_eq!(p[0].version, "5.2-1.fc39");
    assert_eq!(p[0].description, "A & B");
    assert_eq!(p[0].sha256.as_deref(), Some("ab"));
    assert_eq!(p[0].installed_size, 7);
    assert_eq!(p[0].download_url, "https://m/os/Packages/b/bash.rpm");
    assert_eq!(p[0].depends, strings(&["libc.so.6", "bin/sh"]));
    assert_eq!(
        r.read_primary("p.xml.gz", &gz(PRIMARY.as_bytes())).unwrap().len(),
        1
    );
    let zst = zstd::encode_all(PRIMARY.as_bytes(), 1).unwrap();
    assert_eq!(r.read_primary("p.xml.zst", &zst).unwrap().len(), 1);
    assert_eq!(decode_primary("p.xml", b"<a/>").unwrap(), "<a/>");
    assert!(decode_primary("p.xml", &[0xff]).is_err());
    assert!(decode_primary("p.xml.gz", b"x").is_err());
    assert!(decode_primary("p.xml.zst", b"x").is_err());
}

#[test]
fn xml_is_read_in_events() {
    let e = xml_events("<a:b c:d=\"1&lt;2\">t&amp;u</a:b><!-- c --><x/>");
    match &e[0] {
        XmlEvent::Open { name, attrs } => {
            assert_eq!(name, "b");
            assert_eq!(attrs, &vec![("d".to_string(), "1<2".to_string())]);
        }
        _ => panic!("unexpected"),
    }
    assert!(matches!(&e[1], XmlEvent::Text { text } if text == "t&u"));
    assert!(matches!(&e[2], XmlEvent::Close { name } if name == "b"));
    assert!(matches!(&e[3], XmlEvent::Other));
    assert!(matches!(&e[4], XmlEvent::Open { name, .. } if name == "x"));
    assert_eq!(e.len(), 5);
    assert!(xml_events("<a></b>").len() < 3);
}
