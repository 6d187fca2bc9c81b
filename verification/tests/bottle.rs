use wax::bottle::{
    changed_libraries, changed_rpaths, check_hash, command_output, detect_platform,
    elf_interpreter, file_kind, homebrew_prefix, macho_install_name, macho_libraries,
    macho_rpaths, macos_version, needs_signature, new_elf_rpath, new_install_name,
    patchelf_candidates, relocate_elf, BottleDownloader, FileKind,
};
use wax::error::WaxError;

const EMPTY_SHA: &str = "e3b0c44298fc1c149afbf4c8996fb92427ae41e4649b934ca495991b7852b855";

#[test]
fn registry_addresses_name_their_repository() {
    let url = "https://ghcr.io/v2/homebrew/core/tree/blobs/sha256:ab";
    assert!(BottleDownloader::needs_token(url));
    assert!(!BottleDownloader::needs_token("https://example.com/x"));
    assert!(BottleDownloader::has_marks_in_order(url));
    assert_eq!(
        BottleDownloader::extract_repo_path(url).unwrap(),
        "homebrew/core/tree"
    );
    assert!(!BottleDownloader::has_marks_in_order("a/blobs/b/v2/c"));
    assert!(matches!(
        BottleDownloader::extract_repo_path("https://ghcr.io/x"),
        Err(WaxError::InstallError(m)) if m == "Invalid GHCR URL format: https://ghcr.io/x"
    ));
    assert_eq!(
        BottleDownloader::token_url("homebrew/core/tree"),
        "https://ghcr.io/token?scope=repository:homebrew/core/tree:pull"
    );
}

#[test]
fn refused_downloads_quote_the_answer() {
    let long = "x".repeat(300);
    match BottleDownloader::refused("404 Not Found", &long) {
        WaxError::InstallError(m) => assert_eq!(
            m,
            format!("Download failed with HTTP 404 Not Found: {}", "x".repeat(200))
        ),
        other => panic!("{:?}", other),
    }
}

#[test]
fn checksums_decide() {
    assert!(BottleDownloader::verify_checksum(b"", EMPTY_SHA).is_ok());
    match BottleDownloader::verify_checksum(b"abc", EMPTY_SHA) {
        Err(WaxError::ChecksumMismatch { expected, actual }) => {
            assert_eq!(expected, EMPTY_SHA);
            assert_eq!(
                actual,
                "ba7816bf8f01cfea414140de5dae2223b00361a396177a9cb410ff61f20015ad"
            );
        }
        other => panic!("{:?}", other),
    }
    assert!(check_hash("a".to_string(), "a").is_ok());
    assert!(check_hash("a".to_string(), "b").is_err());
}

#[test]
fn files_are_told_by_their_first_bytes() {
    assert_eq!(file_kind(b"\x7fELF..."), FileKind::Elf);
    assert_eq!(file_kind(&[0xcf, 0xfa, 0xed, 0xfe, 7]), FileKind::MachO);
    assert_eq!(file_kind(&[0xca, 0xfe, 0xba, 0xbe]), FileKind::MachO);
    assert_eq!(file_kind(b"#!/bin/sh"), FileKind::Plain);
    assert_eq!(file_kind(b"\x7fEL"), FileKind::Plain);
}

#[test]
fn relocation_overwrites_in_place() {
    let mut content = b"a @@HOMEBREW_PREFIX@@/bin @@HOMEBREW_CELLAR@@ z".to_vec();
    let before = content.len();
    assert!(BottleDownloader::relocate_file(
        &mut content,
        "/usr/local",
        "/usr/local/Cellar"
    ));
    assert_eq!(content.len(), before);
    let mut expected = b"a /usr/local".to_vec();
    expected.extend([0u8; 9]);
    expected.extend(b"/bin /usr/local/Cellar\0\0 z");
    assert_eq!(content, expected);
    let mut plain = b"nothing here".to_vec();
    assert!(!BottleDownloader::relocate_file(&mut plain, "/p", "/p/Cellar"));
    assert_eq!(plain, b"nothing here".to_vec());
    let mut long = b"@@HOMEBREW_PREFIX@@".to_vec();
    assert!(!BottleDownloader::relocate_file(
        &mut long,
        "/home/linuxbrew/.linuxbrew",
        "/home/linuxbrew/.linuxbrew/Cellar"
    ));
    assert_eq!(long, b"@@HOMEBREW_PREFIX@@".to_vec());
    assert_eq!(
        BottleDownloader::cellar_of("/opt/homebrew"),
        "/opt/homebrew/Cellar"
    );
}

#[test]
fn elf_search_paths_are_resolved() {
    assert_eq!(
        relocate_elf(b"@@HOMEBREW_PREFIX@@/lib:/x\n", "/p", "/p/Cellar").as_deref(),
        Some("/p/lib:/x")
    );
    assert_eq!(new_elf_rpath("/x\n", "/p", "/p/Cellar"), None);
    assert_eq!(elf_interpreter("/p"), "/p/lib/ld.so");
    assert_eq!(patchelf_candidates().len(), 4);
}

#[test]
fn mach_o_names_are_resolved() {
    assert_eq!(
        macho_install_name(b"/f:\n@@HOMEBREW_PREFIX@@/lib/a.dylib\n", "/p", "/c").as_deref(),
        Some("/p/lib/a.dylib")
    );
    assert_eq!(new_install_name("/f:\n/usr/lib/a.dylib\n", "/p", "/c"), None);
    assert_eq!(new_install_name("/f:", "/p", "/c"), None);
    let listed = "/f:\n\t@@HOMEBREW_CELLAR@@/b/1/lib/b.dylib (compatibility version 1.0.0)\n\t/usr/lib/libSystem.B.dylib (x)\n";
    let expected = vec![(
        "@@HOMEBREW_CELLAR@@/b/1/lib/b.dylib".to_string(),
        "/c/b/1/lib/b.dylib".to_string(),
    )];
    assert_eq!(changed_libraries(listed, "/p", "/c"), expected);
    assert_eq!(macho_libraries(listed.as_bytes(), "/p", "/c"), expected);
    let commands = "Load command 1\n      cmd LC_RPATH\n  cmdsize 48\n     path @@HOMEBREW_PREFIX@@/lib (offset 12)\n";
    let expected = vec![(
        "@@HOMEBREW_PREFIX@@/lib".to_string(),
        "/p/lib".to_string(),
    )];
    assert_eq!(changed_rpaths(commands, "/p", "/c"), expected);
    assert_eq!(macho_rpaths(commands.as_bytes(), "/p", "/c"), expected);
    assert!(needs_signature(true, 0));
    assert!(needs_signature(false, 1));
    assert!(!needs_signature(false, 0));
}

#[test]
fn platforms_have_names() {
    assert_eq!(macos_version(Some("15.3.1".to_string())), "15");
    assert_eq!(macos_version(None), "14");
    assert_eq!(detect_platform("macos", "aarch64", "15"), "arm64_sequoia");
    assert_eq!(detect_platform("macos", "x86_64", "14"), "sonoma");
    assert_eq!(detect_platform("macos", "x86_64", "27"), "tahoe");
    assert_eq!(detect_platform("macos", "x86_64", "11"), "sequoia");
    assert_eq!(detect_platform("linux", "x86_64", ""), "x86_64_linux");
    assert_eq!(detect_platform("linux", "aarch64", ""), "arm64_linux");
    assert_eq!(detect_platform("windows", "x86_64", ""), "unknown");
}

#[test]
fn prefixes_follow_the_machine() {
    assert_eq!(homebrew_prefix("macos", "aarch64", false, None), "/opt/homebrew");
    assert_eq!(homebrew_prefix("macos", "x86_64", false, None), "/usr/local");
    assert_eq!(
        homebrew_prefix("linux", "x86_64", true, None),
        "/home/linuxbrew/.linuxbrew"
    );
    assert_eq!(
        homebrew_prefix("linux", "x86_64", true, Some(("/b".to_string(), true))),
        "/b"
    );
    assert_eq!(
        homebrew_prefix("linux", "x86_64", false, Some(("/b".to_string(), false))),
        "/usr/local"
    );
}

#[test]
fn command_output_is_trimmed_text() {
    assert_eq!(
        command_output(Some((true, b" /p \n".to_vec()))).as_deref(),
        Some("/p")
    );
    assert_eq!(command_output(Some((true, vec![0xff]))), None);
    assert_eq!(command_output(Some((false, b"x".to_vec()))), None);
    assert_eq!(command_output(None), None);
}
