use wax::error::{ErrorKind, IoError, WaxError};
use wax::sudo::{
    acquire_sudo, finished, get_current_user, is_file_exists_error, is_permission_error,
    normalize_path, prompted, sudo_chown_recursive, sudo_copy, sudo_mkdir, sudo_password_prompt,
    sudo_remove, sudo_symlink, SudoMemory, SudoRun, SudoStep,
};

#[test]
fn test_acquire_sudo_for_cached() {
    let mut memory = SudoMemory { validated: true };
    let result = memory.acquire_sudo_for(false, false, false);
    assert!(result.is_ok());
    assert!(acquire_sudo(false, true, false).is_ok());
}

#[test]
fn sudo_password_prompt_is_wax_branded() {
    let prompt = sudo_password_prompt();
    assert!(prompt.contains("wax"));
    assert!(prompt.contains("%p"));
}

#[test]
fn test_normalize_path_does_not_resolve_symlinks() {
    let path = "some/relative/symlink";
    let normalized = normalize_path(path, Some("/work"));

    assert!(normalized.starts_with('/'));
    assert!(normalized.ends_with(path));
}

#[test]
fn test_is_permission_error() {
    let err = WaxError::IoError(IoError::new(ErrorKind::PermissionDenied, "permission denied"));
    assert!(is_permission_error(&err));

    let err = WaxError::IoError(IoError::new(ErrorKind::NotFound, "not found"));
    assert!(!is_permission_error(&err));

    let err = WaxError::InstallError("Failed: permission denied".to_string());
    assert!(is_permission_error(&err));

    let err = WaxError::InstallError("Failed: Permission Denied".to_string());
    assert!(is_permission_error(&err));

    let err = WaxError::InstallError("Failed: os error 13".to_string());
    assert!(is_permission_error(&err));

    let err = WaxError::InstallError("Failed: OS ERROR 13".to_string());
    assert!(is_permission_error(&err));

    let err = WaxError::InstallError("Failed: something else".to_string());
    assert!(!is_permission_error(&err));

    let err = WaxError::FormulaNotFound("formula".to_string());
    assert!(!is_permission_error(&err));
}

#[test]
fn test_is_file_exists_error() {
    let io_err = IoError::new(ErrorKind::AlreadyExists, "entity already exists");
    let err = WaxError::IoError(io_err);
    assert!(is_file_exists_error(&err));

    let io_err = IoError::new(ErrorKind::NotFound, "entity not found");
    let err = WaxError::IoError(io_err);
    assert!(!is_file_exists_error(&err));

    let err = WaxError::InstallError("Cannot proceed: File exists at path".to_string());
    assert!(is_file_exists_error(&err));

    let err = WaxError::InstallError("Failed with os error 17".to_string());
    assert!(is_file_exists_error(&err));

    let err = WaxError::InstallError("Permission denied".to_string());
    assert!(!is_file_exists_error(&err));

    let err = WaxError::CacheError("Corrupted cache".to_string());
    assert!(!is_file_exists_error(&err));
}

#[test]
fn test_acquire_sudo_for_prompt_success() {
    let mut memory = SudoMemory::new();
    assert!(matches!(
        memory.acquire_sudo_for(false, false, true),
        Ok(SudoStep::Prompt)
    ));
    let result = memory.prompted(Ok(true));
    assert!(result.is_ok());
    assert!(memory.validated);
    assert!(matches!(
        memory.acquire_sudo_for(false, false, false),
        Ok(SudoStep::Ready)
    ));
}

#[test]
fn test_acquire_sudo_for_prompt_failure() {
    let mut memory = SudoMemory::new();
    assert!(matches!(
        memory.acquire_sudo_for(false, false, true),
        Ok(SudoStep::Prompt)
    ));
    let result = memory.prompted(Ok(false));

    match result {
        Err(WaxError::InstallError(msg)) => {
            assert!(msg.contains("sudo authentication failed or was cancelled"));
        }
        _ => panic!("Expected InstallError for failed sudo prompt"),
    }

    assert!(!memory.validated);
    assert!(matches!(
        prompted(Err("gone".to_string())),
        Err(WaxError::InstallError(m)) if m == "failed to run sudo: gone"
    ));
}

#[test]
fn cached_credentials_are_remembered() {
    let mut memory = SudoMemory::new();
    assert!(memory.acquire_sudo_for(true, false, false).is_ok());
    assert!(!memory.validated);
    assert!(memory.acquire_sudo_for(false, false, false).is_err());
    assert!(memory.has_sudo_cached(true));
    assert!(memory.has_sudo_cached(false));
}

fn lines(run: &SudoRun) -> Vec<String> {
    run.commands.iter().map(|c| c.join(" ")).collect()
}

#[test]
fn runs_are_made_of_commands() {
    assert_eq!(lines(&sudo_remove("x", Some("/w"))), vec!["rm -rf -- /w/x"]);
    assert_eq!(lines(&sudo_remove("x", None)), vec!["rm -rf -- x"]);
    assert_eq!(lines(&sudo_copy("a", "/b", Some("/w"))), vec!["cp -Rf -- /w/a /b"]);
    assert_eq!(lines(&sudo_mkdir("/d", Some("/w"))), vec!["mkdir -p -- /d"]);
    assert_eq!(
        lines(&sudo_symlink("to", "at", Some("/w"))),
        vec!["rm -f -- /w/at", "ln -sf -- /w/to /w/at"]
    );
    let user = get_current_user(None, Some("me".to_string()));
    assert_eq!(
        lines(&sudo_chown_recursive("/d", &user, None)),
        vec!["chown -R me:admin -- /d"]
    );
    assert_eq!(get_current_user(Some("a".to_string()), Some("me".to_string())), "a");
    assert_eq!(get_current_user(None, None), "root");
}

#[test]
fn runs_end_with_their_last_command() {
    let says = |run: &SudoRun| match finished(run, Ok(false)) {
        Err(WaxError::InstallError(m)) => m,
        _ => panic!("unexpected"),
    };
    assert!(finished(&sudo_remove("/x", None), Ok(true)).is_ok());
    assert_eq!(says(&sudo_remove("/x", None)), "sudo rm -rf /x failed");
    assert_eq!(says(&sudo_copy("/x", "/y", None)), "sudo cp -Rf /x /y failed");
    assert_eq!(says(&sudo_mkdir("/x", None)), "sudo mkdir -p /x failed");
    assert_eq!(says(&sudo_symlink("/x", "/y", None)), "sudo ln -sf /x /y failed");
    assert!(finished(&sudo_chown_recursive("/x", "me", None), Ok(false)).is_ok());
    assert!(matches!(
        finished(
            &sudo_mkdir("/x", None),
            Err(IoError::new(ErrorKind::NotFound, "no sudo"))
        ),
        Err(WaxError::IoError(e)) if e.message == "no sudo"
    ));
}
