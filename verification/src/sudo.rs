//! Administrator's rights: when they are needed, and how they are had.
use crate::{outside, paths, text};
use crate::error::{ErrorKind, IoError, Result, WaxError};
use crate::outside::lowercased;
use crate::paths::{absolute, below};
use crate::text::{chars_of, has};
use vstd::prelude::*;

verus! {

/// A message in small letters tells that a permission was missing.
pub open spec fn tells_permission(lowered: Seq<char>) -> bool {
    text::contains(lowered, "permission denied"@) || text::contains(lowered, "os error 13"@)
}

/// A message in small letters tells that a file stood in the way.
pub open spec fn tells_exists(lowered: Seq<char>) -> bool {
    text::contains(lowered, "file exists"@) || text::contains(lowered, "os error 17"@)
}

pub open spec fn permission_error(err: WaxError) -> bool {
    match err {
        WaxError::IoError(e) => e.kind == ErrorKind::PermissionDenied,
        WaxError::InstallError(m) => tells_permission(outside::lowercase(m@)),
        _ => false,
    }
}

pub open spec fn exists_error(err: WaxError) -> bool {
    match err {
        WaxError::IoError(e) => e.kind == ErrorKind::AlreadyExists,
        WaxError::InstallError(m) => tells_exists(outside::lowercase(m@)),
        _ => false,
    }
}

/// Whether a message, put in small letters, tells that a permission was missing.
pub fn is_permission_message(lowered: &str) -> (r: bool)
    ensures
        r == tells_permission(lowered@),
{
    let c = chars_of(lowered);
    has(c.as_slice(), "permission denied") || has(c.as_slice(), "os error 13")
}

/// Whether a message, put in small letters, tells that a file stood in the way.
pub fn is_file_exists_message(lowered: &str) -> (r: bool)
    ensures
        r == tells_exists(lowered@),
{
    let c = chars_of(lowered);
    has(c.as_slice(), "file exists") || has(c.as_slice(), "os error 17")
}

/// Whether an operation failed for want of a permission.
pub fn is_permission_error(err: &WaxError) -> (r: bool)
    ensures
        r == permission_error(*err),
{
    match err {
        WaxError::IoError(e) => e.kind == ErrorKind::PermissionDenied,
        WaxError::InstallError(m) => is_permission_message(lowercased(m.as_str()).as_str()),
        _ => false,
    }
}

/// Whether an operation failed because a file stood in the way.
pub fn is_file_exists_error(err: &WaxError) -> (r: bool)
    ensures
        r == exists_error(*err),
{
    match err {
        WaxError::IoError(e) => e.kind == ErrorKind::AlreadyExists,
        WaxError::InstallError(m) => is_file_exists_message(lowercased(m.as_str()).as_str()),
        _ => false,
    }
}

pub fn sudo_password_prompt() -> (r: String)
    ensures
        r@ == "[wax] Password for %p: "@,
{
    String::from_str("[wax] Password for %p: ")
}

/// What has to be done to have administrator's rights.
#[derive(Debug, Clone, Copy, PartialEq, Eq, Structural)]
pub enum SudoStep {
    /// They are there.
    Ready,
    /// A password has to be asked for.
    Prompt,
}

/// What has to be done to have administrator's rights, for a process that runs
/// as root or not, with credentials at hand or not, at a terminal or not.
pub fn acquire_sudo(root: bool, cached: bool, terminal: bool) -> (r: Result<SudoStep>)
    ensures
        if root || cached {
            r == Ok::<SudoStep, WaxError>(SudoStep::Ready)
        } else if terminal {
            r == Ok::<SudoStep, WaxError>(SudoStep::Prompt)
        } else {
            r matches Err(WaxError::InstallError(m)) && m@
                == "Administrator privileges are required but no interactive terminal is available. Use `wax install --user` for a user-local install, or run from a terminal."@
        },
{
    if root || cached {
        Ok(SudoStep::Ready)
    } else if terminal {
        Ok(SudoStep::Prompt)
    } else {
        Err(
            WaxError::InstallError(
                String::from_str(
                    "Administrator privileges are required but no interactive terminal is available. Use `wax install --user` for a user-local install, or run from a terminal.",
                ),
            ),
        )
    }
}

/// What comes of asking for a password: whether `sudo` accepted it, or why it
/// could not be run.
pub fn prompted(answer: std::result::Result<bool, String>) -> (r: Result<()>)
    ensures
        match answer {
            Ok(true) => r is Ok,
            Ok(false) => r matches Err(WaxError::InstallError(m)) && m@
                == "sudo authentication failed or was cancelled"@,
            Err(e) => r matches Err(WaxError::InstallError(m)) && m@ == "failed to run sudo: "@
                + e@,
        },
{
    match answer {
        Ok(accepted) => if accepted {
            Ok(())
        } else {
            Err(
                WaxError::InstallError(
                    String::from_str("sudo authentication failed or was cancelled"),
                ),
            )
        },
        Err(e) => {
            let mut m = String::from_str("failed to run sudo: ");
            m.append(e.as_str());
            Err(WaxError::InstallError(m))
        },
    }
}

/// What is remembered of the administrator's rights: whether `sudo` let the process
/// have them before.
#[derive(Debug, Clone, Copy, PartialEq, Eq, Structural)]
pub struct SudoMemory {
    pub validated: bool,
}

impl SudoMemory {
    pub fn new() -> (r: Self)
        ensures
            !r.validated,
    {
        SudoMemory { validated: false }
    }

    /// Whether credentials are at hand, given whether `sudo` takes a command without
    /// asking. Once they are, that is remembered.
    pub fn has_sudo_cached(&mut self, taken: bool) -> (r: bool)
        ensures
            r == (old(self).validated || taken),
            final(self).validated == r,
    {
        if taken {
            self.validated = true;
        }
        self.validated
    }

    /// What has to be done to have administrator's rights. As root nothing has, and
    /// nothing is remembered of it.
    pub fn acquire_sudo_for(&mut self, root: bool, taken: bool, terminal: bool) -> (r: Result<
        SudoStep,
    >)
        ensures
            if root {
                r == Ok::<SudoStep, WaxError>(SudoStep::Ready) && *final(self) == *old(self)
            } else {
                &&& final(self).validated == (old(self).validated || taken)
                &&& if final(self).validated {
                    r == Ok::<SudoStep, WaxError>(SudoStep::Ready)
                } else if terminal {
                    r == Ok::<SudoStep, WaxError>(SudoStep::Prompt)
                } else {
                    r matches Err(WaxError::InstallError(m)) && m@
                        == "Administrator privileges are required but no interactive terminal is available. Use `wax install --user` for a user-local install, or run from a terminal."@
                }
            },
    {
        if root {
            return acquire_sudo(true, false, terminal);
        }
        let cached = self.has_sudo_cached(taken);
        acquire_sudo(false, cached, terminal)
    }

    /// Takes up what came of asking for a password: one that `sudo` accepted is
    /// remembered, one that it rejected is not.
    pub fn prompted(&mut self, answer: std::result::Result<bool, String>) -> (r: Result<()>)
        ensures
            final(self).validated == (old(self).validated || answer == Ok::<bool, String>(true)),
            match answer {
                Ok(true) => r is Ok,
                Ok(false) => r matches Err(WaxError::InstallError(m)) && m@
                    == "sudo authentication failed or was cancelled"@,
                Err(e) => r matches Err(WaxError::InstallError(m)) && m@ == "failed to run sudo: "@
                    + e@,
            },
    {
        match &answer {
            Ok(accepted) => if *accepted {
                self.validated = true;
            },
            Err(_) => {},
        }
        prompted(answer)
    }
}

/// A path as seen from the root; without a current directory it stays as it is.
pub open spec fn normalized(path: Seq<char>, cwd: Option<Seq<char>>) -> Seq<char> {
    if paths::is_absolute(path) {
        path
    } else {
        match cwd {
            Some(d) => paths::path_join(d, path),
            None => path,
        }
    }
}

/// A path as seen from the root. Links in it are not followed.
pub fn normalize_path(path: &str, cwd: Option<&str>) -> (r: String)
    ensures
        r@ == normalized(path@, crate::ui::dirs::str_view(cwd)),
{
    if absolute(chars_of(path).as_slice()) {
        String::from_str(path)
    } else {
        match cwd {
            Some(d) => below(d, path),
            None => String::from_str(path),
        }
    }
}

/// What is run with administrator's rights: one command after another, each
/// without the word `sudo`. Only the last one has to succeed.
#[derive(Debug)]
pub struct SudoRun {
    pub commands: Vec<Vec<String>>,
    /// What is said when the last command did not succeed; `None` where that does
    /// not matter.
    pub failure: Option<String>,
}

/// The mathematical content of a `SudoRun`.
pub struct SudoRunView {
    pub commands: Seq<Seq<Seq<char>>>,
    pub failure: Option<Seq<char>>,
}

pub open spec fn command_views(v: Seq<Vec<String>>) -> Seq<Seq<Seq<char>>> {
    Seq::new(v.len(), |i: int| text::views(v[i]@))
}

impl View for SudoRun {
    type V = SudoRunView;

    open spec fn view(&self) -> SudoRunView {
        SudoRunView {
            commands: command_views(self.commands@),
            failure: text::opt_view(self.failure),
        }
    }
}

/// A `SudoRun` is seen as what it holds.
pub proof fn sudo_run_is_seen_as_it_is(x: SudoRun)
    ensures
        x@.commands == command_views(x.commands@),
        x@.failure == text::opt_view(x.failure),
{
}

pub open spec fn word_views(v: Seq<&str>) -> Seq<Seq<char>> {
    Seq::new(v.len(), |i: int| v[i]@)
}

fn words(v: &Vec<&str>) -> (r: Vec<String>)
    ensures
        text::views(r@) == word_views(v@),
{
    let mut out: Vec<String> = Vec::new();
    for i in 0..v.len()
        invariant
            text::views(out@) == word_views(v@).take(i as int),
    {
        let ghost before = out@;
        out.push(String::from_str(v[i]));
        proof {
            assert(text::views(out@) =~= text::views(before).push(v@[i as int]@));
            assert(word_views(v@).take(i + 1) =~= word_views(v@).take(i as int).push(
                v@[i as int]@,
            ));
        }
    }
    proof {
        assert(word_views(v@).take(v@.len() as int) =~= word_views(v@));
    }
    out
}

fn saying(before: &str, path: &str) -> (r: String)
    ensures
        r@ == before@ + path@ + " failed"@,
{
    let mut m = String::from_str(before);
    m.append(path);
    m.append(" failed");
    m
}

/// Removing what stands at a path. Paths come after `--`, so that none is taken
/// for an option.
pub open spec fn removal(path: Seq<char>) -> SudoRunView {
    SudoRunView {
        commands: seq![seq!["rm"@, "-rf"@, "--"@, path]],
        failure: Some("sudo rm -rf "@ + path + " failed"@),
    }
}

/// Removes what stands at a path.
pub fn sudo_remove(path: &str, cwd: Option<&str>) -> (r: SudoRun)
    ensures
        r@ == removal(normalized(path@, crate::ui::dirs::str_view(cwd))),
{
    let p = normalize_path(path, cwd);
    let w = words(&vec!["rm", "-rf", "--", p.as_str()]);
    proof {
        assert(text::views(w@) =~= seq!["rm"@, "-rf"@, "--"@, p@]);
    }
    let commands = vec![w];
    proof {
        assert(command_views(commands@) =~= removal(p@).commands);
    }
    SudoRun { commands, failure: Some(saying("sudo rm -rf ", p.as_str())) }
}

/// Copying a file or a directory.
pub open spec fn copying(from: Seq<char>, to: Seq<char>) -> SudoRunView {
    SudoRunView {
        commands: seq![seq!["cp"@, "-Rf"@, "--"@, from, to]],
        failure: Some("sudo cp -Rf "@ + (from + " "@ + to) + " failed"@),
    }
}

/// Copies a file or a directory.
pub fn sudo_copy(from: &str, to: &str, cwd: Option<&str>) -> (r: SudoRun)
    ensures
        r@ == copying(
            normalized(from@, crate::ui::dirs::str_view(cwd)),
            normalized(to@, crate::ui::dirs::str_view(cwd)),
        ),
{
    let f = normalize_path(from, cwd);
    let t = normalize_path(to, cwd);
    let w = words(&vec!["cp", "-Rf", "--", f.as_str(), t.as_str()]);
    proof {
        assert(text::views(w@) =~= seq!["cp"@, "-Rf"@, "--"@, f@, t@]);
    }
    let commands = vec![w];
    proof {
        assert(command_views(commands@) =~= copying(f@, t@).commands);
    }
    let mut both = String::from_str(f.as_str());
    both.append(" ");
    both.append(t.as_str());
    SudoRun { commands, failure: Some(saying("sudo cp -Rf ", both.as_str())) }
}

/// Making a directory and those above it.
pub open spec fn making(path: Seq<char>) -> SudoRunView {
    SudoRunView {
        commands: seq![seq!["mkdir"@, "-p"@, "--"@, path]],
        failure: Some("sudo mkdir -p "@ + path + " failed"@),
    }
}

/// Makes a directory and those above it.
pub fn sudo_mkdir(path: &str, cwd: Option<&str>) -> (r: SudoRun)
    ensures
        r@ == making(normalized(path@, crate::ui::dirs::str_view(cwd))),
{
    let p = normalize_path(path, cwd);
    let w = words(&vec!["mkdir", "-p", "--", p.as_str()]);
    proof {
        assert(text::views(w@) =~= seq!["mkdir"@, "-p"@, "--"@, p@]);
    }
    let commands = vec![w];
    proof {
        assert(command_views(commands@) =~= making(p@).commands);
    }
    SudoRun { commands, failure: Some(saying("sudo mkdir -p ", p.as_str())) }
}

/// Linking `at` to `to`. What stands there is removed first: `ln` would put a link
/// into a directory that a link at `at` leads to.
pub open spec fn linking(to: Seq<char>, at: Seq<char>) -> SudoRunView {
    SudoRunView {
        commands: seq![seq!["rm"@, "-f"@, "--"@, at], seq!["ln"@, "-sf"@, "--"@, to, at]],
        failure: Some("sudo ln -sf "@ + (to + " "@ + at) + " failed"@),
    }
}

/// Links `at` to `to`.
pub fn sudo_symlink(to: &str, at: &str, cwd: Option<&str>) -> (r: SudoRun)
    ensures
        r@ == linking(
            normalized(to@, crate::ui::dirs::str_view(cwd)),
            normalized(at@, crate::ui::dirs::str_view(cwd)),
        ),
{
    let t = normalize_path(to, cwd);
    let a = normalize_path(at, cwd);
    let clear = words(&vec!["rm", "-f", "--", a.as_str()]);
    let link = words(&vec!["ln", "-sf", "--", t.as_str(), a.as_str()]);
    proof {
        assert(text::views(clear@) =~= seq!["rm"@, "-f"@, "--"@, a@]);
        assert(text::views(link@) =~= seq!["ln"@, "-sf"@, "--"@, t@, a@]);
    }
    let commands = vec![clear, link];
    proof {
        assert(command_views(commands@) =~= linking(t@, a@).commands);
    }
    let mut both = String::from_str(t.as_str());
    both.append(" ");
    both.append(a.as_str());
    SudoRun { commands, failure: Some(saying("sudo ln -sf ", both.as_str())) }
}

/// The user's name: that of the account, or else what the environment says, or
/// else `root`.
pub fn get_current_user(account: Option<String>, user_var: Option<String>) -> (r: String)
    ensures
        r@ == match text::opt_view(account) {
            Some(n) => n,
            None => match text::opt_view(user_var) {
                Some(n) => n,
                None => "root"@,
            },
        },
{
    match account {
        Some(n) => n,
        None => match user_var {
            Some(n) => n,
            None => String::from_str("root"),
        },
    }
}

/// Handing a directory to a user. That this fails does not matter.
pub open spec fn handing(path: Seq<char>, user: Seq<char>) -> SudoRunView {
    SudoRunView {
        commands: seq![seq!["chown"@, "-R"@, user + ":admin"@, "--"@, path]],
        failure: None,
    }
}

/// Hands a directory and what is below it to a user.
pub fn sudo_chown_recursive(path: &str, user: &str, cwd: Option<&str>) -> (r: SudoRun)
    ensures
        r@ == handing(normalized(path@, crate::ui::dirs::str_view(cwd)), user@),
{
    let p = normalize_path(path, cwd);
    let mut owner = String::from_str(user);
    owner.append(":admin");
    let w = words(&vec!["chown", "-R", owner.as_str(), "--", p.as_str()]);
    proof {
        assert(text::views(w@) =~= seq!["chown"@, "-R"@, user@ + ":admin"@, "--"@, p@]);
    }
    let commands = vec![w];
    proof {
        assert(command_views(commands@) =~= handing(p@, user@).commands);
    }
    SudoRun { commands, failure: None }
}

/// What comes of a run whose last command ended with success or not, or could not
/// be started.
pub fn finished(run: &SudoRun, ended: std::result::Result<bool, IoError>) -> (r: Result<()>)
    ensures
        match ended {
            Ok(true) => r is Ok,
            Ok(false) => match run@.failure {
                Some(m) => r matches Err(WaxError::InstallError(e)) && e@ == m,
                None => r is Ok,
            },
            Err(e) => r matches Err(WaxError::IoError(f)) && f == e,
        },
{
    match ended {
        Ok(success) => if success {
            Ok(())
        } else {
            match &run.failure {
                Some(m) => Err(WaxError::InstallError(String::from_str(m.as_str()))),
                None => Ok(()),
            }
        },
        Err(e) => Err(WaxError::IoError(e)),
    }
}

// ---------------------------------------------------------------------------
// Laws

/// An error tells of a permission or of a file that is there by its kind, or by what its
/// message says; other errors tell of neither.
pub proof fn errors_tell_their_kind(io: IoError, m: String, err: WaxError)
    ensures
        permission_error(WaxError::IoError(io)) <==> io.kind == ErrorKind::PermissionDenied,
        exists_error(WaxError::IoError(io)) <==> io.kind == ErrorKind::AlreadyExists,
        permission_error(WaxError::InstallError(m)) <==> text::contains(
            outside::lowercase(m@),
            "permission denied"@,
        ) || text::contains(outside::lowercase(m@), "os error 13"@),
        exists_error(WaxError::InstallError(m)) <==> text::contains(
            outside::lowercase(m@),
            "file exists"@,
        ) || text::contains(outside::lowercase(m@), "os error 17"@),
        !(err is IoError) && !(err is InstallError) ==> !permission_error(err) && !exists_error(
            err,
        ),
{
}

/// A path of one's own is taken below the folder that one is in; one from the root is left
/// as it is.
pub proof fn own_paths_are_below(path: Seq<char>, dir: Seq<char>)
    ensures
        path.len() > 0 && path[0] == '/' ==> normalized(path, Some(dir)) == path && normalized(
            path,
            None,
        ) == path,
        (path.len() == 0 || path[0] != '/') ==> normalized(path, Some(dir)) == paths::path_join(
            dir,
            path,
        ) && normalized(path, None) == path,
{
}

/// What is run on a path names the path last, behind the end of the options, so that no
/// path is read as an option.
pub proof fn paths_are_no_options(path: Seq<char>, to: Seq<char>, user: Seq<char>)
    ensures
        removal(path).commands == seq![seq!["rm"@, "-rf"@, "--"@, path]],
        copying(path, to).commands == seq![seq!["cp"@, "-Rf"@, "--"@, path, to]],
        making(path).commands == seq![seq!["mkdir"@, "-p"@, "--"@, path]],
        linking(to, path).commands == seq![
            seq!["rm"@, "-f"@, "--"@, path],
            seq!["ln"@, "-sf"@, "--"@, to, path],
        ],
        handing(path, user).commands == seq![
            seq!["chown"@, "-R"@, user + ":admin"@, "--"@, path],
        ],
        handing(path, user).failure is None,
        removal(path).failure == Some("sudo rm -rf "@ + path + " failed"@),
        making(path).failure == Some("sudo mkdir -p "@ + path + " failed"@),
        copying(path, to).failure == Some("sudo cp -Rf "@ + (path + " "@ + to) + " failed"@),
        linking(to, path).failure == Some("sudo ln -sf "@ + (to + " "@ + path) + " failed"@),
{
}

}
