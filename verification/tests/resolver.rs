use wax::system::registry::{PackageIndex, PackageMetadata};
use wax::system::resolver::Resolver;

fn make_pkg(name: &str, version: &str, depends: &[&str]) -> PackageMetadata {
    PackageMetadata {
        name: name.to_string(),
        version: version.to_string(),
        description: "".to_string(),
        download_url: "".to_string(),
        sha256: None,
        installed_size: 0,
        depends: depends.iter().map(|s| s.to_string()).collect(),
        provides: vec![],
    }
}

#[test]
fn test_resolve_no_deps() {
    let index = PackageIndex {
        packages: vec![make_pkg("curl", "8.0.0", &[])],
    };
    let resolver = Resolver::new(&index);
    let result = resolver.resolve(&["curl".to_string()]).unwrap();
    assert_eq!(result.len(), 1);
    assert_eq!(result[0].name, "curl");
}

#[test]
fn test_resolve_with_deps() {
    let index = PackageIndex {
        packages: vec![
            make_pkg("curl", "8.0.0", &["libc6", "libssl3"]),
            make_pkg("libc6", "2.35", &[]),
            make_pkg("libssl3", "3.0.0", &["libc6"]),
        ],
    };
    let resolver = Resolver::new(&index);
    let result = resolver.resolve(&["curl".to_string()]).unwrap();
    let names: Vec<_> = result.iter().map(|p| p.name.as_str()).collect();
    assert!(names.contains(&"curl"));
    assert!(names.contains(&"libc6"));
    assert!(names.contains(&"libssl3"));
    let libc_pos = names.iter().position(|&n| n == "libc6").unwrap();
    let curl_pos = names.iter().position(|&n| n == "curl").unwrap();
    assert!(libc_pos < curl_pos);
}

#[test]
fn test_resolve_missing_dep_skipped() {
    let index = PackageIndex {
        packages: vec![
            make_pkg("nginx", "1.24.0", &["libpcre3", "missing-virtual-pkg"]),
            make_pkg("libpcre3", "8.45", &[]),
        ],
    };
    let resolver = Resolver::new(&index);
    let result = resolver.resolve(&["nginx".to_string()]).unwrap();
    let names: Vec<_> = result.iter().map(|p| p.name.as_str()).collect();
    assert!(names.contains(&"nginx"));
    assert!(names.contains(&"libpcre3"));
}

#[test]
fn test_resolve_deduplicates() {
    let index = PackageIndex {
        packages: vec![
            make_pkg("curl", "8.0.0", &["libc6"]),
            make_pkg("wget", "1.21.0", &["libc6"]),
            make_pkg("libc6", "2.35", &[]),
        ],
    };
    let resolver = Resolver::new(&index);
    let result = resolver
        .resolve(&["curl".to_string(), "wget".to_string()])
        .unwrap();
    let libc_count = result.iter().filter(|p| p.name == "libc6").count();
    assert_eq!(libc_count, 1);
}

#[test]
fn circles_are_gone_round_once() {
    let index = PackageIndex {
        packages: vec![
            make_pkg("a", "1", &["b", "d"]),
            make_pkg("b", "1", &["c"]),
            make_pkg("c", "1", &["a", "d"]),
            make_pkg("d", "1", &[]),
        ],
    };
    let result = Resolver::new(&index)
        .resolve(&["a".to_string(), "c".to_string()])
        .unwrap();
    let names: Vec<&str> = result.iter().map(|p| p.name.as_str()).collect();
    assert_eq!(names, ["d", "c", "b", "a"]);
}

#[test]
fn a_package_comes_once_under_all_its_names() {
    let mut postfix = make_pkg("postfix", "3", &[]);
    postfix.provides = vec!["mta".to_string()];
    let index = PackageIndex {
        packages: vec![make_pkg("app", "1", &["mta", "postfix"]), postfix],
    };
    let result = Resolver::new(&index).resolve(&["app".to_string()]).unwrap();
    let names: Vec<&str> = result.iter().map(|p| p.name.as_str()).collect();
    assert_eq!(names, ["postfix", "app"]);
}

#[test]
fn what_is_resolved_is_what_the_requests_reach() {
    let index = PackageIndex {
        packages: vec![
            make_pkg("a", "1", &["b"]),
            make_pkg("b", "1", &["c (>= 2)", "", "nowhere"]),
            make_pkg("c", "2", &["a"]),
            make_pkg("apart", "1", &["a"]),
        ],
    };
    let resolver = Resolver::new(&index);
    let names = |asked: &[&str]| -> Vec<String> {
        let asked: Vec<String> = asked.iter().map(|s| s.to_string()).collect();
        let found = resolver.resolve(&asked).unwrap();
        found.iter().map(|p| p.name.clone()).collect()
    };
    assert_eq!(names(&["a"]), vec!["c", "b", "a"]);
    assert_eq!(names(&["c"]), vec!["b", "a", "c"]);
    assert_eq!(names(&["apart", "b"]), vec!["c", "b", "a", "apart"]);
    assert!(names(&["nowhere"]).is_empty());
}
