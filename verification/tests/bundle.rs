use wax::commands::bundle::parse_brewfile;
use wax::error::WaxError;

#[test]
fn parse_brewfile_subset() {
    let waxfile = parse_brewfile(
        r#"
tap "homebrew/cask"
brew "ripgrep"
brew "bat", args: ["--HEAD"]
cask "iterm2" # terminal
cargo "cargo-edit"
uv "ruff"
mas "Ignored", id: 123
"#,
    )
    .unwrap();

    assert_eq!(waxfile.tap, vec!["homebrew/cask"]);
    assert_eq!(waxfile.brew.len(), 2);
    assert_eq!(waxfile.brew[0].name(), "ripgrep");
    assert_eq!(waxfile.brew[1].name(), "bat");
    assert_eq!(waxfile.brew[1].args().unwrap(), &["--HEAD".to_string()]);
    assert_eq!(waxfile.cask[0].name(), "iterm2");
    assert_eq!(waxfile.cargo[0].name(), "cargo-edit");
    assert_eq!(waxfile.uv[0].name(), "ruff");
}

#[test]
fn parse_brewfile_preserves_hash_inside_quotes() {
    let waxfile = parse_brewfile("brew \"pkg#name\" # trailing comment").unwrap();

    assert_eq!(waxfile.brew[0].name(), "pkg#name");
}

#[test]
fn parse_brewfile_rejects_unquoted_names() {
    let err = match parse_brewfile("brew ripgrep") {
        Err(WaxError::BundleError(message)) => message,
        _ => panic!("an unquoted name is no name"),
    };

    assert!(err.contains("Expected quoted string"));
}

#[test]
fn brewfiles_add_up() {
    let a = "tap \"x/y\"\nbrew \"one\"\r\n";
    let b = "brew \"two\"\nbrew \"one\"\r";
    for (first, second) in [(a, b), (b, a), (b, b), ("", a)] {
        let both = parse_brewfile(&format!("{}\n{}", first, second)).unwrap();
        let x = parse_brewfile(first).unwrap();
        let y = parse_brewfile(second).unwrap();
        let names = |w: &wax::commands::bundle::Waxfile| -> Vec<String> {
            w.brew.iter().map(|e| e.name().to_string()).collect()
        };
        assert_eq!(names(&both), [names(&x), names(&y)].concat());
        assert_eq!(both.tap, [x.tap, y.tap].concat());
    }
    assert!(parse_brewfile(&format!("{}\nnonsense", a)).is_err());
    assert!(parse_brewfile(&format!("nonsense\n{}", a)).is_err());
}
