use wax::api::{Cask, Formula};
use wax::bottle::is_mach_o;
use wax::cask::InstalledCask;
use wax::commands::bundle::{
    add_tap, bundle_dump, cargo_install, find_waxfile, is_cargo_installed, is_uv_tool_installed,
    names_of, names_tool, parse_brewfile_args, parse_brewfile_entry, parse_brewfile_string,
    parse_waxfile, print_dry_run, split_brewfile_directive, strip_brewfile_comment, tool_outcome,
    uv_tool_install, waxfile_candidates, BundleEntry, Waxfile,
};
use wax::commands::install::source_record;
use wax::commands::self_update::{
    check_release, nightly_args, release_urls, release_version, verify_release,
};
use wax::discovery::{
    build_cask_candidate_index, build_formula_token_index, bundle_identifier_matches_cask,
    bundle_identifier_vendor, candidate_indices_for_value, cask_match_score,
    discover_linux_system_packages, discover_manually_installed_casks, macos_application_roots,
    names_in, parse_line_list, plist_text, read_app_bundle_name, read_app_bundle_version,
    read_info_plist_string, slug_of, strip_app, AppBundleMetadata, AppEntry,
};
use wax::error::{ErrorKind, IoError, WaxError};
use wax::formula_parser::{BuildSystem, FormulaParser};
use wax::install::{InstallMode, InstallState, InstalledPackage};
use wax::package_spec::Ecosystem;
use wax::sudo::{is_file_exists_message, is_permission_message};
use wax::table::Table;
use wax::ui::{clearing_for, confirm_prompt, copy_dir_all, Clearing, CopyNext, Standing};

fn strings(v: &[&str]) -> Vec<String> {
    v.iter().map(|s| s.to_string()).collect()
}

fn chars(s: &str) -> Vec<char> {
    s.chars().collect()
}

fn shown(s: &[char]) -> String {
    s.iter().collect()
}

const FORMULA: &str = r#"class Tree < Formula
  desc "Display directories as trees"
  homepage "https://t.org"
  url "https://t.org/tree-2.1.1.tgz"
  sha256 "abc"
  license "GPL"

  depends_on "cmake" => :build
  depends_on "zlib"

  def install
    args = %w[x].each do
      nothing
    end
    system "./configure", "--prefix=#{prefix}", "--disable-static"
    system "make", "install"
  end

  def other
  end
end
"#;

#[test]
fn formulae_are_parsed() {
    let p = FormulaParser::parse_ruby_formula("tree", FORMULA).unwrap();
    assert_eq!(p.name, "tree");
    assert_eq!(p.desc.as_deref(), Some("Display directories as trees"));
    assert_eq!(p.homepage.as_deref(), Some("https://t.org"));
    assert_eq!(p.license.as_deref(), Some("GPL"));
    assert_eq!(p.source.url, "https://t.org/tree-2.1.1.tgz");
    assert_eq!(p.source.sha256, "abc");
    assert_eq!(p.source.version, "2.1.1");
    assert_eq!(p.runtime_dependencies, ["zlib"]);
    assert_eq!(p.build_dependencies, ["cmake"]);
    assert_eq!(p.build_system, BuildSystem::Autotools);
    assert_eq!(p.configure_args, ["--disable-static"]);
    assert_eq!(p.install_commands, ["./configure", "make"]);
    let block = FormulaParser::extract_install_block(FORMULA).unwrap();
    assert!(block.contains("nothing") && block.contains("make"));
    assert!(!block.contains("other"));
}

#[test]
fn faulty_formulae_are_refused() {
    assert!(matches!(
        FormulaParser::parse_ruby_formula("x", "sha256 \"a\""),
        Err(WaxError::ParseError(m)) if m == "Field 'url' not found in formula"
    ));
    assert!(matches!(
        FormulaParser::extract_install_block("url \"x\""),
        Err(WaxError::ParseError(m)) if m == "Install block not found in formula"
    ));
    assert_eq!(
        FormulaParser::extract_field(FORMULA, "homepage").unwrap(),
        "https://t.org"
    );
    assert_eq!(FormulaParser::extract_dependencies(FORMULA, true), ["cmake"]);
    assert_eq!(
        FormulaParser::extract_configure_args("\"--a=b\" \"--c=#{d}\""),
        ["--a=b"]
    );
    assert_eq!(
        FormulaParser::extract_install_commands("system \"make\"\nsystem  \"ls\""),
        ["make", "ls"]
    );
    assert_eq!(FormulaParser::extract_version_from_url("https://a/b"), "unknown");
    assert_eq!(FormulaParser::extract_shimscript("nothing"), None);
    assert_eq!(
        FormulaParser::fetch_formula_rb("Tree").unwrap(),
        "https://raw.githubusercontent.com/Homebrew/homebrew-core/master/Formula/t/Tree.rb"
    );
    assert_eq!(
        FormulaParser::fetch_cask_rb("firefox").unwrap(),
        "https://raw.githubusercontent.com/Homebrew/homebrew-cask/master/Casks/f/firefox.rb"
    );
    assert!(matches!(
        FormulaParser::fetch_formula_rb(""),
        Err(WaxError::ParseError(m)) if m == "Empty formula name"
    ));
    assert!(matches!(
        FormulaParser::fetch_cask_rb(""),
        Err(WaxError::ParseError(m)) if m == "Empty cask name"
    ));
}

#[test]
fn bundle_lines_are_read() {
    assert_eq!(shown(strip_brewfile_comment(&chars("brew \"a#b\" # c"))), "brew \"a#b\" ");
    let line = chars("brew \"a\"");
    let (word, rest) = split_brewfile_directive(&line).unwrap();
    assert_eq!((shown(word), shown(rest)), ("brew".to_string(), "\"a\"".to_string()));
    assert_eq!(parse_brewfile_string(&chars("\"a\", x"), 1).unwrap(), "a");
    assert!(matches!(
        parse_brewfile_string(&chars("a"), 1),
        Err(WaxError::BundleError(_))
    ));
    assert_eq!(
        parse_brewfile_args(&chars("\"a\", args: [\"x\", \"y\"]")).unwrap(),
        ["x", "y"]
    );
    assert_eq!(parse_brewfile_args(&chars("\"a\", args: \"x\"")).unwrap(), ["x"]);
    assert!(parse_brewfile_args(&chars("\"a\"")).unwrap().is_empty());
    assert!(matches!(
        parse_brewfile_args(&chars("\"a\", args: [\"x\"")),
        Err(WaxError::BundleError(m)) if m == "Unterminated args array in Brewfile"
    ));
    let e = parse_brewfile_entry(&chars("\"a\""), 1).unwrap();
    assert_eq!(e.name(), "a");
    assert!(e.args().is_none());
}

fn waxfile() -> Waxfile {
    Waxfile {
        tap: strings(&["u/t"]),
        brew: vec![BundleEntry::Simple("a".to_string())],
        cask: vec![],
        cargo: vec![BundleEntry::Detailed {
            name: "rg".to_string(),
            version: Some("1".to_string()),
            args: Some(strings(&["--locked"])),
        }],
        uv: vec![BundleEntry::Detailed {
            name: "ruff".to_string(),
            version: Some("2".to_string()),
            args: None,
        }],
    }
}

#[test]
fn bundles_are_carried_out() {
    let names = waxfile_candidates();
    let mut there = vec![false; names.len()];
    assert!(find_waxfile(&there).is_err());
    there[1] = true;
    assert_eq!(find_waxfile(&there).unwrap(), names[1]);
    let w = waxfile();
    assert_eq!(names_of(&w.brew), ["a"]);
    assert_eq!(cargo_install(&w.cargo[0]), ["install", "rg", "--version", "1", "--locked"]);
    assert_eq!(uv_tool_install(&w.uv[0]), ["tool", "install", "ruff==2"]);
    assert!(print_dry_run(&w).iter().any(|l| l.contains("rg")));
    assert!(is_cargo_installed("rg", b"rg v1:\n    rg\n"));
    assert!(!is_cargo_installed("fd", b"rg v1:\n    fd\n"));
    assert!(is_uv_tool_installed("ruff", b"ruff v2\n"));
    assert!(names_tool("  fd", "  fd", false));
    assert!(!names_tool("  fd", "  fd", true));
    assert!(!add_tap("u/t", true).unwrap());
    assert!(add_tap("u/t", false).unwrap());
    assert!(matches!(
        add_tap("t", false),
        Err(WaxError::BundleError(m)) if m == "Invalid tap format: t"
    ));
    assert!(tool_outcome("cargo install", "rg", true, Some(0)).is_ok());
    assert!(matches!(
        tool_outcome("cargo install", "rg", false, None),
        Err(WaxError::BundleError(m)) if m == "cargo install rg failed with exit code -1"
    ));
    assert_eq!(parse_waxfile("Brewfile", Err("x".to_string()), "brew \"b\"").unwrap().brew.len(), 1);
    assert_eq!(parse_waxfile("Waxfile.toml", Ok(waxfile()), "").unwrap().tap.len(), 1);
}

#[test]
fn bundles_are_dumped() {
    let mut t: Table<InstalledPackage> = Table::new();
    let casks: Table<InstalledCask> = Table::new();
    assert_eq!(bundle_dump(&t, &casks), "");
    for n in ["b", "a"] {
        InstallState::add(&mut t, source_record(n, "1", "p", InstallMode::User, false, 0));
    }
    assert_eq!(bundle_dump(&t, &casks), "brew = [\n  \"a\",\n  \"b\",\n]\n\n");
}

#[test]
fn releases_are_checked() {
    assert_eq!(release_version("v1.2"), "1.2");
    let (binary, sha) = release_urls("v1", "wax");
    assert_eq!(binary, "https://github.com/semitechnological/wax/releases/download/v1/wax");
    assert_eq!(sha, format!("{}.sha256", binary));
    let abc = "ba7816bf8f01cfea414140de5dae2223b00361a396177a9cb410ff61f20015ad";
    assert!(verify_release(b"abc", Some(format!("{}\n", abc).as_bytes())).is_ok());
    assert!(verify_release(b"abc", None).is_ok());
    assert!(matches!(
        verify_release(b"abd", Some(abc.as_bytes())),
        Err(WaxError::SelfUpdateError(_))
    ));
    assert!(check_release("a", Some(" ")).is_ok());
    assert!(check_release("a", Some("b")).is_err());
    assert_eq!(nightly_args(true).last().unwrap(), "--force");
    assert_eq!(nightly_args(false).len(), 5);
}

fn cask(token: &str, version: &str) -> Cask {
    Cask {
        token: token.to_string(),
        full_token: token.to_string(),
        name: strings(&["Visual Tool"]),
        desc: None,
        homepage: "https://vendor.com".to_string(),
        version: version.to_string(),
        deprecated: false,
        disabled: false,
    }
}

fn app(name: &str, id: Option<&str>, version: Option<&str>) -> AppBundleMetadata {
    AppBundleMetadata {
        bundle_name: name.to_string(),
        file_name: format!("{}.app", name),
        bundle_identifier: id.map(|s| s.to_string()),
        short_version: version.map(|s| s.to_string()),
        bundle_version: None,
    }
}

#[test]
fn apps_are_matched_to_casks() {
    assert_eq!(slug_of(&chars("my  tool!")), "my-tool");
    assert_eq!(strip_app("Tool.app"), "Tool");
    assert_eq!(strip_app("Tool"), "Tool");
    let casks = vec![cask("visual-tool", "2"), cask("other", "1")];
    let index = build_cask_candidate_index(&casks);
    assert!(candidate_indices_for_value(&index, &casks, "Visual Tool").contains(&0));
    assert!(candidate_indices_for_value(&index, &casks, "Nothing").is_empty());
    assert_eq!(
        bundle_identifier_vendor(Some("com.vendor.tool")).as_deref(),
        Some("vendor")
    );
    assert_eq!(bundle_identifier_vendor(None), None);
    assert!(bundle_identifier_matches_cask(Some("com.vendor.tool"), &casks[0]));
    assert!(!bundle_identifier_matches_cask(None, &casks[0]));
    assert_eq!(cask_match_score(&app("X", None, None), &casks[0]), 0);
    assert_eq!(
        cask_match_score(&app("X", Some("com.vendor.tool"), Some("2")), &casks[0]),
        160
    );
    let entries = vec![AppEntry {
        file_name: "Other.app".to_string(),
        is_dir: true,
        app: app("Other", None, Some("1")),
        date: 3,
    }];
    assert!(discover_manually_installed_casks("linux", &casks, &entries).entries.is_empty());
    let found = discover_manually_installed_casks("macos", &casks, &entries);
    assert_eq!(found.get("other").unwrap().install_date, 3);
    assert!(macos_application_roots(Some("/h")).contains(&"/Applications".to_string()));
    assert_eq!(read_info_plist_string("macos", Some(b" 1.2 \n")).as_deref(), Some("1.2"));
    assert_eq!(read_info_plist_string("macos", None), None);
    assert_eq!(read_info_plist_string("linux", Some(b"1.2")), None);
    assert_eq!(plist_text(" "), None);
    assert_eq!(read_app_bundle_name(None, Some("N".to_string()), "F.app"), "N");
    assert_eq!(
        read_app_bundle_name(Some("D".to_string()), Some("N".to_string()), "F.app"),
        "D"
    );
    for (file, stem) in [
        ("Foo.app", "Foo"),
        ("Foo.app.app", "Foo.app"),
        ("Foo 2.1", "Foo 2"),
        ("Foo", "Foo"),
        (".app", ".app"),
        ("..", ".."),
    ] {
        assert_eq!(read_app_bundle_name(None, None, file), stem);
    }
    assert_eq!(
        read_app_bundle_version(None, Some("3".to_string())).as_deref(),
        Some("3")
    );
}

#[test]
fn system_packages_are_matched_to_formulae() {
    let f = Formula {
        name: "ripgrep".to_string(),
        full_name: "ripgrep".to_string(),
        desc: None,
        homepage: String::new(),
        stable: "1".to_string(),
        bottled: false,
        installed: None,
        dependencies: None,
        build_dependencies: None,
        bottle: None,
        post_install_defined: false,
    };
    let formulae = vec![f];
    assert!(build_formula_token_index(&formulae).contains_key("ripgrep"));
    let inventory = vec![
        ("ripgrep".to_string(), "13.0".to_string()),
        ("unknown".to_string(), "1".to_string()),
    ];
    let found = discover_linux_system_packages("linux", &formulae, &inventory, "x86_64_linux", 8);
    assert!(discover_linux_system_packages("macos", &formulae, &inventory, "p", 8)
        .entries
        .is_empty());
    assert_eq!(found.entries.len(), 1);
    assert_eq!(found.get("ripgrep").unwrap().version, "13.0");
    assert_eq!(found.get("ripgrep").unwrap().install_date, 8);
    assert_eq!(names_in("a\n\n b \n"), ["a", "b"]);
    assert_eq!(parse_line_list(b"a\nb\n"), ["a", "b"]);
}

#[test]
fn small_questions_are_answered() {
    assert!(is_mach_o(&[0xcf, 0xfa, 0xed, 0xfe]));
    assert!(is_mach_o(&[0xce, 0xfa, 0xed, 0xfe, 0]));
    assert!(is_mach_o(&[0xfe, 0xed, 0xfa, 0xce]));
    assert!(is_mach_o(&[0xfe, 0xed, 0xfa, 0xcf]));
    assert!(is_mach_o(&[0xca, 0xfe, 0xba, 0xbe]));
    assert!(is_mach_o(&[0xbe, 0xba, 0xfe, 0xca]));
    assert!(!is_mach_o(&[0xfe, 0xed, 0xfa]));
    assert!(!is_mach_o(b"ELF!"));
    assert_eq!(Ecosystem::Chocolatey.label(), "choco");
    assert!(is_permission_message("permission denied"));
    assert!(!is_permission_message("fine"));
    assert!(is_file_exists_message("file exists"));
    assert!(confirm_prompt("y\n"));
    assert!(!confirm_prompt("n\n"));
    assert!(matches!(clearing_for(Standing::Dir, Standing::Nothing), Clearing::Keep));
    assert!(matches!(copy_dir_all(Ok(())), CopyNext::Done));
    assert!(matches!(
        copy_dir_all(Err(WaxError::IoError(IoError::new(ErrorKind::PermissionDenied, "no")))),
        CopyNext::WithSudo
    ));
    assert!(matches!(
        copy_dir_all(Err(WaxError::InstallError("x".to_string()))),
        CopyNext::Failed(_)
    ));
}
