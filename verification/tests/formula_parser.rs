use wax::formula_parser::{BuildSystem, FormulaParser};

#[test]
fn test_extract_version_from_url() {
    let url = "https://github.com/example/tree/archive/refs/tags/2.2.1.tar.gz";
    let version = FormulaParser::extract_version_from_url(url);
    assert_eq!(version, "2.2.1");
}

#[test]
fn test_detect_build_system() {
    let autotools = r#"system "./configure", "--prefix=#{prefix}""#;
    assert_eq!(
        FormulaParser::detect_build_system(autotools),
        BuildSystem::Autotools
    );

    let cmake = r#"system "cmake", "-S", ".", "-B", "build""#;
    assert_eq!(
        FormulaParser::detect_build_system(cmake),
        BuildSystem::CMake
    );

    let make = r#"system "make", "install""#;
    assert_eq!(FormulaParser::detect_build_system(make), BuildSystem::Make);
}

#[test]
fn test_extract_shimscript() {
    let ruby = r#"
  preflight do
    File.write shimscript, <<~EOS
      #!/bin/bash
      exec '#{appdir}/Firefox.app/Contents/MacOS/firefox' "$@"
    EOS
  end
        "#;
    let expected =
        "#!/bin/bash\n      exec '/Applications/Firefox.app/Contents/MacOS/firefox' \"$@\"";
    assert_eq!(
        FormulaParser::extract_shimscript(ruby).unwrap().trim(),
        expected
    );
}
