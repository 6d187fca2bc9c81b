use wax::error::WaxError;
use wax::system_pm::{
    artifact_extension, attempt_command, attempt_commands, candidate_list, cask_attempts,
    check_artifact,
    check_artifact_hash, flathub_command, install_linux_artifact, list_installed_with, not_run,
    run_outcome, ArtifactStep, CaskAttempt, Invocation, SystemPm,
};

const ALL: [SystemPm; 10] = [
    SystemPm::Brew,
    SystemPm::Apt,
    SystemPm::Dnf,
    SystemPm::Pacman,
    SystemPm::Apk,
    SystemPm::Zypper,
    SystemPm::Emerge,
    SystemPm::Yum,
    SystemPm::Xbps,
    SystemPm::Nix,
];

fn line(i: &Invocation) -> String {
    format!("{} {}", i.program, i.args.join(" "))
}

fn strings(v: &[&str]) -> Vec<String> {
    v.iter().map(|s| s.to_string()).collect()
}

#[test]
fn managers_are_called_by_name() {
    let names: Vec<&str> = ALL.iter().map(|p| p.name()).collect();
    assert_eq!(
        names,
        vec![
            "brew", "apt", "dnf", "pacman", "apk", "zypper", "emerge", "yum", "xbps-install",
            "nix-env"
        ]
    );
}

#[test]
fn managers_install_and_remove() {
    let packages = strings(&["a", "b"]);
    let installs: Vec<String> = ALL
        .iter()
        .map(|p| line(&p.install(&packages).unwrap()))
        .collect();
    assert_eq!(
        installs,
        vec![
            "brew install a b",
            "sudo apt-get install -y a b",
            "sudo dnf install -y a b",
            "sudo pacman -S --noconfirm a b",
            "sudo apk add a b",
            "sudo zypper install -y a b",
            "sudo emerge a b",
            "sudo yum install -y a b",
            "sudo xbps-install -S a b",
            "nix-env -i a b",
        ]
    );
    let removes: Vec<String> = ALL
        .iter()
        .map(|p| line(&p.remove(&packages).unwrap()))
        .collect();
    assert_eq!(
        removes,
        vec![
            "brew uninstall a b",
            "sudo apt-get remove -y a b",
            "sudo dnf remove -y a b",
            "sudo pacman -R --noconfirm a b",
            "sudo apk del a b",
            "sudo zypper remove -y a b",
            "sudo emerge --unmerge a b",
            "sudo yum remove -y a b",
            "sudo xbps-remove -R a b",
            "nix-env -e a b",
        ]
    );
    assert!(SystemPm::Apt.install(&vec![]).is_none());
    assert!(SystemPm::Apt.remove(&vec![]).is_none());
}

#[test]
fn managers_upgrade_in_steps() {
    let lines = |p: SystemPm| -> Vec<String> { p.upgrade_all().iter().map(line).collect() };
    assert_eq!(lines(SystemPm::Brew), vec!["brew update", "brew upgrade"]);
    assert_eq!(
        lines(SystemPm::Apt),
        vec!["sudo apt-get update -q", "sudo apt-get upgrade -y"]
    );
    assert_eq!(lines(SystemPm::Dnf), vec!["sudo dnf upgrade --refresh -y"]);
    assert_eq!(
        lines(SystemPm::Emerge),
        vec!["sudo emerge --sync", "sudo emerge --update --deep --newuse @world"]
    );
    assert_eq!(lines(SystemPm::Nix), vec!["nix-channel --update", "nix-env -u *"]);
}

#[test]
fn first_manager_that_is_there_is_used() {
    assert_eq!(candidate_list(true).len(), 1);
    let names: Vec<&str> = candidate_list(false).iter().map(|c| c.0).collect();
    assert_eq!(names[0], "apt-get");
    assert_eq!(names[9], "brew");
    let mut there = vec![false; 10];
    assert_eq!(SystemPm::detect(false, &there), None);
    there[3] = true;
    there[9] = true;
    assert_eq!(SystemPm::detect(false, &there), Some(SystemPm::Apk));
    assert_eq!(SystemPm::detect(true, &vec![true]), Some(SystemPm::Brew));
}

#[test]
fn listings_are_read_by_program() {
    let item = |n: &str, v: Option<&str>| (n.to_string(), v.map(|s| s.to_string()));
    assert_eq!(
        list_installed_with("apk", "zlib-1.2\nfoo-bar\nmusl-1.2.4-r2\n-1\n"),
        vec![
            item("foo-bar", None),
            item("musl-1.2.4-r2", None),
            item("zlib", Some("1.2")),
        ]
    );
    assert_eq!(
        list_installed_with("xbps-query", "ii bash-5.2_1\nplain\n"),
        vec![item("bash", Some("5.2_1")), item("plain", None)]
    );
    assert_eq!(
        list_installed_with("nix-env", "hello-2.12\n"),
        vec![item("hello", Some("2.12"))]
    );
    assert_eq!(
        list_installed_with("dpkg-query", "b\t2\n\nb\t3\na 1 x\nc\n"),
        vec![item("a", Some("1")), item("b", Some("2")), item("c", None)]
    );
    assert_eq!(
        SystemPm::Pacman.list_installed(Some(b"vim 9.1\n")),
        vec![item("vim", Some("9.1"))]
    );
    assert!(SystemPm::Pacman.list_installed(None).is_empty());
    assert_eq!(
        line(&SystemPm::Apt.list_command()),
        "dpkg-query -W -f=${Package}\\t${Version}\\n"
    );
    assert_eq!(
        line(&SystemPm::Yum.list_command()),
        "rpm -qa --queryformat %{NAME}\t%{VERSION}-%{RELEASE}\n"
    );
}

#[test]
fn calls_have_outcomes() {
    assert!(run_outcome("x", true, Some(0)).is_ok());
    assert!(matches!(
        run_outcome("x", false, Some(3)),
        Err(WaxError::InstallError(m)) if m == "x exited with status 3"
    ));
    assert!(matches!(
        run_outcome("x", false, None),
        Err(WaxError::InstallError(m)) if m == "x exited with status -1"
    ));
    assert!(matches!(
        not_run("x", "gone"),
        WaxError::InstallError(m) if m == "Failed to run x: gone"
    ));
}

#[test]
fn casks_are_tried_in_order() {
    assert_eq!(
        cask_attempts(true, true, true),
        vec![
            CaskAttempt::Artifact,
            CaskAttempt::Snap,
            CaskAttempt::SnapClassic,
            CaskAttempt::Flatpak,
            CaskAttempt::Native
        ]
    );
    assert_eq!(cask_attempts(false, false, false), vec![CaskAttempt::Native]);
    let call = |a| attempt_command(SystemPm::Dnf, a, "code").map(|i| line(&i));
    assert_eq!(call(CaskAttempt::Artifact), None);
    assert_eq!(call(CaskAttempt::Snap).unwrap(), "snap install code");
    assert_eq!(
        call(CaskAttempt::SnapClassic).unwrap(),
        "snap install --classic code"
    );
    assert_eq!(
        call(CaskAttempt::Flatpak).unwrap(),
        "flatpak install -y flathub code"
    );
    assert_eq!(call(CaskAttempt::Native).unwrap(), "sudo dnf install -y code");
    let calls = |a| -> Vec<String> {
        attempt_commands(SystemPm::Dnf, a, "code").iter().map(line).collect()
    };
    assert!(calls(CaskAttempt::Artifact).is_empty());
    assert_eq!(calls(CaskAttempt::Snap), ["snap install code"]);
    assert_eq!(
        calls(CaskAttempt::Flatpak),
        [line(&flathub_command()), "flatpak install -y flathub code".to_string()]
    );
    assert_eq!(
        line(&flathub_command()),
        "flatpak remote-add --if-not-exists flathub https://dl.flathub.org/repo/flathub.flatpakrepo"
    );
}

#[test]
fn artifacts_are_installed_by_type() {
    assert_eq!(artifact_extension("https://a/b.DEB?x=y.z"), "deb");
    assert_eq!(artifact_extension("nodot"), "nodot");
    assert!(matches!(
        install_linux_artifact("deb", "/t/x.deb", "x", None),
        Ok(ArtifactStep::Run(i)) if line(&i) == "sudo dpkg -i /t/x.deb"
    ));
    assert!(matches!(
        install_linux_artifact("rpm", "/t/x.rpm", "x", None),
        Ok(ArtifactStep::Run(i)) if line(&i) == "sudo rpm -i --force /t/x.rpm"
    ));
    match install_linux_artifact("appimage", "/t/x", "x", Some("/h")).unwrap() {
        ArtifactStep::Copy { dir, dest, mark } => {
            assert_eq!(dir, "/h/.local/bin");
            assert_eq!(dest, "/h/.local/bin/x.AppImage");
            assert_eq!(line(&mark), "chmod +x /h/.local/bin/x.AppImage");
        }
        other => panic!("{:?}", other),
    }
    assert!(matches!(
        install_linux_artifact("appimage", "/t/x", "x", None),
        Ok(ArtifactStep::Copy { dir, .. }) if dir == "/tmp/.local/bin"
    ));
    assert!(matches!(
        install_linux_artifact("dmg", "/t/x", "x", None),
        Err(WaxError::InstallError(m))
            if m == "Unsupported artifact extension '.dmg' from Homebrew cask .rb"
    ));
}

#[test]
fn artifacts_have_checksums() {
    assert!(check_artifact("x", b"abc", None).is_ok());
    assert!(check_artifact(
        "x",
        b"abc",
        Some("ba7816bf8f01cfea414140de5dae2223b00361a396177a9cb410ff61f20015ad")
    )
    .is_ok());
    assert!(matches!(
        check_artifact_hash("x", "aa", Some("bb")),
        Err(WaxError::InstallError(m)) if m == "x checksum mismatch: expected bb, got aa"
    ));
}
