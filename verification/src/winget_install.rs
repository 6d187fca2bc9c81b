//! Packages of winget-pkgs: where their manifests are, which installer fits this
//! machine, and how it is run and undone.
use crate::error::{ErrorView, Result, WaxError};
use crate::paths::{below, name_of};
use crate::scoop;
use crate::scoop::{may_lead_out, with_slashes};
use crate::text::{
    chars_of,
    ends,
    joined,
    lowered,
    lowered_char,
    pieces,
    replaced,
    same_str,
    string_of,
    trimmed,
    words_of,
};
use crate::{paths, text};
use vstd::prelude::*;

verus! {

pub const WINGET_PKGS_REPO_CONTENTS: &'static str =
    "https://api.github.com/repos/microsoft/winget-pkgs/contents";

pub const WINGET_PKGS_RAW: &'static str =
    "https://raw.githubusercontent.com/microsoft/winget-pkgs/master";

/// A file or directory of the repository.
#[derive(Debug)]
pub struct GhContentEntry {
    pub name: String,
    pub entry_type: String,
    pub path: String,
}

#[derive(Debug)]
pub struct WingetInstallerDoc {
    pub installer_type: Option<String>,
    pub nested_installer_type: Option<String>,
    pub nested_installer_files: Option<Vec<WingetNestedFile>>,
    pub installer_switches: Option<WingetInstallerSwitches>,
    pub apps_and_features_entries: Option<Vec<WingetAppsAndFeaturesEntry>>,
    pub installers: Vec<WingetInstallerEntry>,
}

#[derive(Debug)]
pub struct WingetNestedFile {
    pub relative_file_path: String,
    pub portable_command_alias: Option<String>,
}

#[derive(Debug)]
pub struct WingetInstallerEntry {
    pub architecture: String,
    pub installer_url: String,
    pub installer_sha256: String,
    pub installer_type: Option<String>,
    pub installer_switches: Option<WingetInstallerSwitches>,
    pub product_code: Option<String>,
}

#[derive(Debug)]
pub struct WingetInstallerSwitches {
    pub silent: Option<String>,
    pub silent_with_progress: Option<String>,
    pub custom: Option<String>,
    pub install_location: Option<String>,
}

#[derive(Debug)]
pub struct WingetAppsAndFeaturesEntry {
    pub product_code: Option<String>,
    pub package_family_name: Option<String>,
    pub silent_uninstall_string: Option<String>,
}

/// The command that undoes an installation.
#[derive(Debug)]
pub struct WindowsNativeUninstall {
    pub command: String,
    pub args: Vec<String>,
}

pub struct CommandView {
    pub command: Seq<char>,
    pub args: Seq<Seq<char>>,
}

impl View for WindowsNativeUninstall {
    type V = CommandView;

    open spec fn view(&self) -> CommandView {
        CommandView { command: self.command@, args: text::views(self.args@) }
    }
}

/// A `WindowsNativeUninstall` is seen as what it holds.
pub proof fn windows_native_uninstall_is_seen_as_it_is(x: WindowsNativeUninstall)
    ensures
        x@.command == x.command@,
        x@.args == text::views(x.args@),
{
}

// ---------------------------------------------------------------------------
// Finding the manifest

/// The directory of a package in the repository.
pub open spec fn content_path(id: Seq<char>) -> Option<Seq<char>> {
    let parts = text::nonempty(text::split(id, '.'));
    if parts.len() < 2 {
        None
    } else {
        Some(
            "manifests/"@ + seq![text::lower_char(parts[0][0])] + "/"@ + text::join(parts, "/"@),
        )
    }
}

/// The pieces of a package's id.
fn id_parts(id: &str) -> (r: Vec<String>)
    ensures
        text::views(r@) == text::nonempty(text::split(id@, '.')),
{
    let c = chars_of(id);
    let p = pieces(c.as_slice(), '.');
    let ghost s = text::slices(p@);
    let mut out: Vec<String> = Vec::new();
    proof {
        assert(text::views(out@) =~= text::nonempty(s.take(0)));
    }
    for i in 0..p.len()
        invariant
            s == text::slices(p@),
            text::views(out@) == text::nonempty(s.take(i as int)),
    {
        let ghost before = text::views(out@);
        proof {
            assert(s.take(i + 1).drop_last() =~= s.take(i as int));
            assert(s.take(i + 1).last() == p@[i as int]@);
        }
        if p[i].len() > 0 {
            out.push(string_of(p[i]));
            proof {
                assert(text::views(out@) =~= before.push(p@[i as int]@));
            }
        }
    }
    proof {
        assert(s.take(s.len() as int) =~= s);
    }
    out
}

proof fn nonempty_has_no_empty(p: Seq<Seq<char>>, i: int)
    requires
        0 <= i < text::nonempty(p).len(),
    ensures
        text::nonempty(p)[i].len() > 0,
    decreases p.len(),
{
    if i < text::nonempty(p.drop_last()).len() {
        nonempty_has_no_empty(p.drop_last(), i);
    }
}

pub fn package_id_to_content_path(id: &str) -> (r: Result<String>)
    ensures
        match r {
            Ok(p) => content_path(id@) == Some(p@),
            Err(e) => content_path(id@) is None && e@ == ErrorView::InvalidInput(
                "winget PackageIdentifier needs at least two dot-separated segments (e.g. JesseDuffield.lazygit)"@,
            ),
        },
{
    let parts = id_parts(id);
    let ghost s = text::views(parts@);
    proof {
        assert(s.len() == parts@.len());
    }
    if parts.len() < 2 {
        return Err(
            WaxError::InvalidInput(
                String::from_str(
                    "winget PackageIdentifier needs at least two dot-separated segments (e.g. JesseDuffield.lazygit)",
                ),
            ),
        );
    }
    proof {
        nonempty_has_no_empty(text::split(id@, '.'), 0);
        assert(s[0] == parts@[0]@);
    }
    let head = chars_of(parts[0].as_str());
    let mut first: Vec<char> = Vec::new();
    first.push(lowered_char(head[0]));
    proof {
        assert(first@ =~= seq![text::lower_char(s[0][0])]);
    }
    let mut r = String::from_str("manifests/");
    r.append(string_of(first.as_slice()).as_str());
    r.append("/");
    r.append(joined(&parts, "/").as_str());
    Ok(r)
}

/// The address that lists a directory of the repository.
pub fn list_url(path: &str) -> (r: String)
    ensures
        r@ == WINGET_PKGS_REPO_CONTENTS@ + "/"@ + path@ + "?ref=master"@,
{
    let mut r = String::from_str(WINGET_PKGS_REPO_CONTENTS);
    r.append("/");
    r.append(path);
    r.append("?ref=master");
    r
}

/// The address of a file of the repository.
pub fn raw_url(path: &str) -> (r: String)
    ensures
        r@ == WINGET_PKGS_RAW@ + "/"@ + path@,
{
    let mut r = String::from_str(WINGET_PKGS_RAW);
    r.append("/");
    r.append(path);
    r
}

/// The directories among the entries.
pub open spec fn folders(entries: Seq<GhContentEntry>) -> Seq<Seq<char>>
    decreases entries.len(),
{
    if entries.len() == 0 {
        Seq::empty()
    } else if entries.last().entry_type@ == "dir"@ {
        folders(entries.drop_last()).push(entries.last().name@)
    } else {
        folders(entries.drop_last())
    }
}

/// The versions of a package.
pub fn version_folders(rel: &str, entries: &Vec<GhContentEntry>) -> (r: Result<Vec<String>>)
    ensures
        match r {
            Ok(v) => text::views(v@) == folders(entries@) && v@.len() > 0,
            Err(e) => folders(entries@).len() == 0 && e@ == ErrorView::FormulaNotFound(
                "no version folders under winget-pkgs/"@ + rel@,
            ),
        },
{
    let ghost s = entries@;
    let mut out: Vec<String> = Vec::new();
    proof {
        assert(text::views(out@) =~= folders(s.take(0)));
    }
    for i in 0..entries.len()
        invariant
            s == entries@,
            text::views(out@) == folders(s.take(i as int)),
    {
        let ghost before = text::views(out@);
        proof {
            assert(s.take(i + 1).drop_last() =~= s.take(i as int));
            assert(s.take(i + 1).last() == s[i as int]);
        }
        if same_str(entries[i].entry_type.as_str(), "dir") {
            out.push(entries[i].name.clone());
            proof {
                assert(text::views(out@) =~= before.push(s[i as int].name@));
            }
        }
    }
    proof {
        assert(s.take(s.len() as int) =~= s);
        assert(text::views(out@).len() == out@.len());
    }
    if out.len() == 0 {
        let mut m = String::from_str("no version folders under winget-pkgs/");
        m.append(rel);
        Err(WaxError::FormulaNotFound(m))
    } else {
        Ok(out)
    }
}

/// A file that describes installers.
pub open spec fn is_installer_file(e: GhContentEntry) -> bool {
    text::ends_with(e.name@, ".installer.yaml"@) && e.entry_type@ == "file"@
}

/// The first file that describes installers.
pub open spec fn installer_file(files: Seq<GhContentEntry>) -> Option<Seq<char>>
    decreases files.len(),
{
    if files.len() == 0 {
        None
    } else if is_installer_file(files[0]) {
        Some(files[0].path@)
    } else {
        installer_file(files.skip(1))
    }
}

/// The path of the installer manifest among the files of a version.
pub fn installer_yaml_path(files: &Vec<GhContentEntry>) -> (r: Result<String>)
    ensures
        match r {
            Ok(p) => installer_file(files@) == Some(p@),
            Err(e) => installer_file(files@) is None && e@ == ErrorView::InstallError(
                "No .installer.yaml in latest winget version (wax only supports installer manifests)"@,
            ),
        },
{
    let ghost s = files@;
    proof {
        assert(s.skip(0) =~= s);
    }
    for i in 0..files.len()
        invariant
            s == files@,
            installer_file(s) == installer_file(s.skip(i as int)),
    {
        proof {
            assert(s.skip(i as int)[0] == s[i as int]);
            assert(s.skip(i as int).skip(1) =~= s.skip(i + 1));
        }
        let name = chars_of(files[i].name.as_str());
        if ends(name.as_slice(), ".installer.yaml") && same_str(files[i].entry_type.as_str(), "file") {
            return Ok(files[i].path.clone());
        }
    }
    Err(
        WaxError::InstallError(
            String::from_str(
                "No .installer.yaml in latest winget version (wax only supports installer manifests)",
            ),
        ),
    )
}

// ---------------------------------------------------------------------------
// Choosing the installer

/// What winget calls an architecture.
pub open spec fn arch_token(arch: Seq<char>) -> Seq<char> {
    if arch == "aarch64"@ {
        "arm64"@
    } else if arch == "x86"@ {
        "x86"@
    } else {
        "x64"@
    }
}

pub fn winget_arch_token(arch: &str) -> (r: &'static str)
    ensures
        r@ == arch_token(arch@),
{
    if same_str(arch, "aarch64") {
        "arm64"
    } else if same_str(arch, "x86") {
        "x86"
    } else {
        "x64"
    }
}

/// Two texts that differ in case at most.
pub open spec fn same_but_case(a: Seq<char>, b: Seq<char>) -> bool {
    text::ascii_lower(a) == text::ascii_lower(b)
}

pub fn equal_but_case(a: &str, b: &str) -> (r: bool)
    ensures
        r == same_but_case(a@, b@),
{
    let ca = chars_of(a);
    let cb = chars_of(b);
    let la = lowered(ca.as_slice());
    let lb = lowered(cb.as_slice());
    text::same(la.as_slice(), lb.as_slice())
}

/// The first installer for an architecture.
pub open spec fn fitting(installers: Seq<WingetInstallerEntry>, want: Seq<char>) -> Option<int>
    decreases installers.len(),
{
    if installers.len() == 0 {
        None
    } else if same_but_case(installers[0].architecture@, want) {
        Some(0)
    } else {
        match fitting(installers.skip(1), want) {
            Some(i) => Some(i + 1),
            None => None,
        }
    }
}

/// The installer that is taken: the first that fits, or else the first.
pub open spec fn picked(installers: Seq<WingetInstallerEntry>, want: Seq<char>) -> int {
    match fitting(installers, want) {
        Some(i) => i,
        None => 0,
    }
}

pub fn pick_installer<'a>(doc: &'a WingetInstallerDoc, arch: &str) -> (r: Result<
    &'a WingetInstallerEntry,
>)
    ensures
        match r {
            Ok(i) => doc.installers@.len() > 0 && *i == doc.installers@[picked(
                doc.installers@,
                arch_token(arch@),
            )],
            Err(e) => doc.installers@.len() == 0 && e@ == ErrorView::InstallError(
                "winget manifest has no installers"@,
            ),
        },
{
    let want = winget_arch_token(arch);
    let ghost s = doc.installers@;
    proof {
        assert(s.skip(0) =~= s);
    }
    for i in 0..doc.installers.len()
        invariant
            s == doc.installers@,
            fitting(s, want@) == (match fitting(s.skip(i as int), want@) {
                Some(k) => Some(k + i),
                None => None,
            }),
            want@ == arch_token(arch@),
    {
        proof {
            assert(s.skip(i as int)[0] == s[i as int]);
            assert(s.skip(i as int).skip(1) =~= s.skip(i + 1));
        }
        if equal_but_case(doc.installers[i].architecture.as_str(), want) {
            return Ok(&doc.installers[i]);
        }
    }
    if doc.installers.len() > 0 {
        Ok(&doc.installers[0])
    } else {
        Err(WaxError::InstallError(String::from_str("winget manifest has no installers")))
    }
}

/// The type of an installer: its own, or else that of the manifest.
pub open spec fn type_of(doc: WingetInstallerDoc, inst: WingetInstallerEntry) -> Seq<char> {
    match inst.installer_type {
        Some(t) => t@,
        None => match doc.installer_type {
            Some(t) => t@,
            None => ""@,
        },
    }
}

pub fn installer_type_for<'a>(doc: &'a WingetInstallerDoc, inst: &'a WingetInstallerEntry) -> (r: &'a str)
    ensures
        r@ == type_of(*doc, *inst),
{
    match &inst.installer_type {
        Some(t) => t.as_str(),
        None => match &doc.installer_type {
            Some(t) => t.as_str(),
            None => "",
        },
    }
}

/// The switches of an installer: its own, or else those of the manifest.
pub open spec fn switches_of(doc: WingetInstallerDoc, inst: WingetInstallerEntry) -> Option<
    WingetInstallerSwitches,
> {
    match inst.installer_switches {
        Some(s) => Some(s),
        None => doc.installer_switches,
    }
}

pub fn installer_switches_for<'a>(
    doc: &'a WingetInstallerDoc,
    inst: &'a WingetInstallerEntry,
) -> (r: Option<&'a WingetInstallerSwitches>)
    ensures
        match r {
            Some(s) => switches_of(*doc, *inst) == Some(*s),
            None => switches_of(*doc, *inst) is None,
        },
{
    match &inst.installer_switches {
        Some(s) => Some(s),
        None => match &doc.installer_switches {
            Some(s) => Some(s),
            None => None,
        },
    }
}

// ---------------------------------------------------------------------------
// Commands

pub fn split_switches(raw: &str) -> (r: Vec<String>)
    ensures
        text::views(r@) == text::words(raw@),
{
    let c = chars_of(raw);
    let w = words_of(c.as_slice());
    let mut out: Vec<String> = Vec::new();
    for i in 0..w.len()
        invariant
            text::views(out@) =~= text::slices(w@).take(i as int),
    {
        let ghost before = text::views(out@);
        out.push(string_of(w[i]));
        proof {
            assert(text::views(out@) =~= before.push(w@[i as int]@));
        }
    }
    proof {
        assert(text::slices(w@).take(w@.len() as int) =~= text::slices(w@));
    }
    out
}

pub open spec fn msi_install(path: Seq<char>) -> Seq<Seq<char>> {
    seq!["/i"@, path, "/qn"@, "/norestart"@]
}

pub fn msi_install_args(path: &str) -> (r: Vec<String>)
    ensures
        text::views(r@) == msi_install(path@),
{
    let r = vec![
        String::from_str("/i"),
        String::from_str(path),
        String::from_str("/qn"),
        String::from_str("/norestart"),
    ];
    proof {
        assert(text::views(r@) =~= msi_install(path@));
    }
    r
}

pub open spec fn msi_removal(product_code: Seq<char>) -> CommandView {
    CommandView {
        command: "msiexec.exe"@,
        args: seq!["/x"@, product_code, "/qn"@, "/norestart"@],
    }
}

pub fn msi_uninstall(product_code: &str) -> (r: WindowsNativeUninstall)
    ensures
        r@ == msi_removal(product_code@),
{
    let r = WindowsNativeUninstall {
        command: String::from_str("msiexec.exe"),
        args: vec![
            String::from_str("/x"),
            String::from_str(product_code),
            String::from_str("/qn"),
            String::from_str("/norestart"),
        ],
    };
    proof {
        assert(r@.args =~= msi_removal(product_code@).args);
    }
    r
}

/// A text in PowerShell's single quotes.
pub open spec fn quoted(s: Seq<char>) -> Seq<char> {
    "'"@ + text::replace(s, "'"@, "''"@) + "'"@
}

pub fn ps_quote(s: &str) -> (r: String)
    ensures
        r@ == quoted(s@),
{
    let c = chars_of(s);
    let one = chars_of("'");
    let two = chars_of("''");
    proof {
        reveal_strlit("'");
    }
    let mut r = String::from_str("'");
    r.append(string_of(replaced(c.as_slice(), one.as_slice(), two.as_slice()).as_slice()).as_str());
    r.append("'");
    r
}

/// How PowerShell reads what follows an opening single quote: two quotes stand for
/// one, and a quote that stands alone ends the text. The text, and what is left.
pub open spec fn read_quoted(t: Seq<char>) -> Option<(Seq<char>, Seq<char>)>
    decreases t.len(),
{
    if t.len() == 0 {
        None
    } else if t[0] != '\'' {
        match read_quoted(t.skip(1)) {
            Some((text, rest)) => Some((seq![t[0]] + text, rest)),
            None => None,
        }
    } else if t.len() > 1 && t[1] == '\'' {
        match read_quoted(t.skip(2)) {
            Some((text, rest)) => Some((seq!['\''] + text, rest)),
            None => None,
        }
    } else {
        Some((Seq::empty(), t.skip(1)))
    }
}

/// A quoted text is read back as it was, to its end and no further, whatever it
/// holds.
pub proof fn quoted_is_read_back(s: Seq<char>, rest: Seq<char>)
    requires
        rest.len() > 0 ==> rest[0] != '\'',
    ensures
        read_quoted((quoted(s) + rest).skip(1)) == Some((s, rest)),
{
    reveal_strlit("'");
    reveal_strlit("''");
    inner_is_read_back(s, rest);
    let one = "'"@;
    assert((quoted(s) + rest).skip(1) =~= text::replace(s, one, "''"@) + (one + rest));
}

proof fn inner_is_read_back(s: Seq<char>, rest: Seq<char>)
    requires
        rest.len() > 0 ==> rest[0] != '\'',
    ensures
        read_quoted(text::replace(s, "'"@, "''"@) + ("'"@ + rest)) == Some((s, rest)),
    decreases s.len(),
{
    reveal_strlit("'");
    reveal_strlit("''");
    let one = "'"@;
    let two = "''"@;
    let end = one + rest;
    let t = text::replace(s, one, two) + end;
    if s.len() == 0 {
        assert(t =~= end);
        assert(end.skip(1) =~= rest);
        assert(s =~= Seq::empty());
    } else {
        inner_is_read_back(s.skip(1), rest);
        let inner = text::replace(s.skip(1), one, two) + end;
        assert(one =~= seq!['\'']);
        assert(s.subrange(0, 1) =~= seq![s[0]]);
        if s[0] == '\'' {
            assert(text::starts_with(s, one));
            assert(t =~= two + inner);
            assert(t.skip(2) =~= inner);
            assert(seq!['\''] + s.skip(1) =~= s);
        } else {
            assert(!text::starts_with(s, one)) by {
                if text::starts_with(s, one) {
                    assert(s.subrange(0, 1)[0] == one[0]);
                }
            }
            assert(t =~= seq![s[0]] + inner);
            assert(t.skip(1) =~= inner);
            assert(seq![s[0]] + s.skip(1) =~= s);
        }
    }
}

/// How PowerShell is run on a command.
pub open spec fn powershell(command: Seq<char>) -> Seq<Seq<char>> {
    seq!["-NoProfile"@, "-ExecutionPolicy"@, "Bypass"@, "-Command"@, command]
}

fn powershell_args(command: String) -> (r: Vec<String>)
    ensures
        text::views(r@) == powershell(command@),
{
    let r = vec![
        String::from_str("-NoProfile"),
        String::from_str("-ExecutionPolicy"),
        String::from_str("Bypass"),
        String::from_str("-Command"),
        command,
    ];
    proof {
        assert(text::views(r@) =~= powershell(command@));
    }
    r
}

pub open spec fn msix_install(path: Seq<char>) -> Seq<Seq<char>> {
    powershell("Add-AppxPackage -Path "@ + quoted(path))
}

pub fn msix_install_args(path: &str) -> (r: Vec<String>)
    ensures
        text::views(r@) == msix_install(path@),
{
    let mut c = String::from_str("Add-AppxPackage -Path ");
    c.append(ps_quote(path).as_str());
    powershell_args(c)
}

pub open spec fn msix_removal(family: Seq<char>) -> CommandView {
    CommandView {
        command: "powershell.exe"@,
        args: powershell(
            "Get-AppxPackage -PackageFamilyName "@ + quoted(family) + " | Remove-AppxPackage"@,
        ),
    }
}

pub fn msix_uninstall(package_family_name: &str) -> (r: WindowsNativeUninstall)
    ensures
        r@ == msix_removal(package_family_name@),
{
    let mut c = String::from_str("Get-AppxPackage -PackageFamilyName ");
    c.append(ps_quote(package_family_name).as_str());
    c.append(" | Remove-AppxPackage");
    WindowsNativeUninstall { command: String::from_str("powershell.exe"), args: powershell_args(c) }
}

/// The switches that install without questions.
pub open spec fn silent_switches(s: WingetInstallerSwitches) -> Option<Seq<char>> {
    match s.silent {
        Some(x) => Some(x@),
        None => text::opt_view(s.silent_with_progress),
    }
}

/// The words of a text, where there is one.
pub open spec fn opt_words(s: Option<String>) -> Seq<Seq<char>> {
    match s {
        Some(x) => text::words(x@),
        None => Seq::empty(),
    }
}

/// The arguments of an installer that is a program.
pub open spec fn exe_args(s: WingetInstallerSwitches) -> Option<Seq<Seq<char>>> {
    match silent_switches(s) {
        Some(raw) => Some(text::words(raw) + opt_words(s.custom) + opt_words(s.install_location)),
        None => None,
    }
}

fn add_words(args: &mut Vec<String>, raw: &Option<String>)
    ensures
        text::views(final(args)@) == text::views(old(args)@) + opt_words(*raw),
{
    let ghost before = text::views(args@);
    match raw {
        Some(x) => {
            let mut w = split_switches(x.as_str());
            let ghost more = text::views(w@);
            args.append(&mut w);
            proof {
                assert(text::views(args@) =~= before + more);
            }
        },
        None => {
            proof {
                assert(before + Seq::<Seq<char>>::empty() =~= before);
            }
        },
    }
}

pub fn exe_install_args(switches: &WingetInstallerSwitches) -> (r: Result<Vec<String>>)
    ensures
        match r {
            Ok(v) => exe_args(*switches) == Some(text::views(v@)),
            Err(e) => exe_args(*switches) is None && e@ == ErrorView::InstallError(
                "winget exe installer is missing silent install switches"@,
            ),
        },
{
    let mut args = match &switches.silent {
        Some(x) => split_switches(x.as_str()),
        None => match &switches.silent_with_progress {
            Some(x) => split_switches(x.as_str()),
            None => {
                return Err(
                    WaxError::InstallError(
                        String::from_str("winget exe installer is missing silent install switches"),
                    ),
                );
            },
        },
    };
    add_words(&mut args, &switches.custom);
    add_words(&mut args, &switches.install_location);
    Ok(args)
}

pub open spec fn entries_of(doc: WingetInstallerDoc) -> Seq<WingetAppsAndFeaturesEntry> {
    match doc.apps_and_features_entries {
        Some(v) => v@,
        None => Seq::empty(),
    }
}

/// The first command that uninstalls without questions.
pub open spec fn first_uninstall(v: Seq<WingetAppsAndFeaturesEntry>) -> Option<Seq<char>>
    decreases v.len(),
{
    if v.len() == 0 {
        None
    } else if v[0].silent_uninstall_string is Some {
        text::opt_view(v[0].silent_uninstall_string)
    } else {
        first_uninstall(v.skip(1))
    }
}

/// The first product code.
pub open spec fn first_product(v: Seq<WingetAppsAndFeaturesEntry>) -> Option<Seq<char>>
    decreases v.len(),
{
    if v.len() == 0 {
        None
    } else if v[0].product_code is Some {
        text::opt_view(v[0].product_code)
    } else {
        first_product(v.skip(1))
    }
}

/// The first package family.
pub open spec fn first_family(v: Seq<WingetAppsAndFeaturesEntry>) -> Option<Seq<char>>
    decreases v.len(),
{
    if v.len() == 0 {
        None
    } else if v[0].package_family_name is Some {
        text::opt_view(v[0].package_family_name)
    } else {
        first_family(v.skip(1))
    }
}

fn uninstall_string(doc: &WingetInstallerDoc) -> (r: Option<String>)
    ensures
        text::opt_view(r) == first_uninstall(entries_of(*doc)),
{
    match &doc.apps_and_features_entries {
        Some(v) => {
            let ghost s = v@;
            proof {
                assert(s.skip(0) =~= s);
            }
            for i in 0..v.len()
                invariant
                    s == v@,
                    s == entries_of(*doc),
                    first_uninstall(s) == first_uninstall(s.skip(i as int)),
            {
                proof {
                    assert(s.skip(i as int)[0] == s[i as int]);
                    assert(s.skip(i as int).skip(1) =~= s.skip(i + 1));
                }
                match &v[i].silent_uninstall_string {
                    Some(x) => {
                        return Some(x.clone());
                    },
                    None => {},
                }
            }
            None
        },
        None => None,
    }
}

/// The product code that an installer is removed by.
pub open spec fn product_of(doc: WingetInstallerDoc, inst: WingetInstallerEntry) -> Option<Seq<char>> {
    match inst.product_code {
        Some(c) => Some(c@),
        None => first_product(entries_of(doc)),
    }
}

pub fn product_code_for(doc: &WingetInstallerDoc, inst: &WingetInstallerEntry) -> (r: Option<String>)
    ensures
        text::opt_view(r) == product_of(*doc, *inst),
{
    match &inst.product_code {
        Some(c) => {
            return Some(c.clone());
        },
        None => {},
    }
    match &doc.apps_and_features_entries {
        Some(v) => {
            let ghost s = v@;
            proof {
                assert(s.skip(0) =~= s);
            }
            for i in 0..v.len()
                invariant
                    s == v@,
                    s == entries_of(*doc),
                    inst.product_code is None,
                    first_product(s) == first_product(s.skip(i as int)),
            {
                proof {
                    assert(s.skip(i as int)[0] == s[i as int]);
                    assert(s.skip(i as int).skip(1) =~= s.skip(i + 1));
                }
                match &v[i].product_code {
                    Some(x) => {
                        return Some(x.clone());
                    },
                    None => {},
                }
            }
            None
        },
        None => None,
    }
}

pub fn package_family_name_for(doc: &WingetInstallerDoc) -> (r: Option<String>)
    ensures
        text::opt_view(r) == first_family(entries_of(*doc)),
{
    match &doc.apps_and_features_entries {
        Some(v) => {
            let ghost s = v@;
            proof {
                assert(s.skip(0) =~= s);
            }
            for i in 0..v.len()
                invariant
                    s == v@,
                    s == entries_of(*doc),
                    first_family(s) == first_family(s.skip(i as int)),
            {
                proof {
                    assert(s.skip(i as int)[0] == s[i as int]);
                    assert(s.skip(i as int).skip(1) =~= s.skip(i + 1));
                }
                match &v[i].package_family_name {
                    Some(x) => {
                        return Some(x.clone());
                    },
                    None => {},
                }
            }
            None
        },
        None => None,
    }
}

/// The command that removes what an installer that is a program installed: the
/// manifest has to name one, and it may not be blank.
pub open spec fn exe_removal(doc: WingetInstallerDoc) -> std::result::Result<CommandView, ErrorView> {
    match first_uninstall(entries_of(doc)) {
        Some(raw) => if text::words(raw).len() == 0 {
            Err(ErrorView::InstallError("empty silent uninstall metadata"@))
        } else {
            Ok(CommandView { command: text::words(raw)[0], args: text::words(raw).skip(1) })
        },
        None => Err(
            ErrorView::InstallError("winget exe installer is missing silent uninstall metadata"@),
        ),
    }
}

pub fn exe_uninstall(doc: &WingetInstallerDoc) -> (r: Result<WindowsNativeUninstall>)
    ensures
        match r {
            Ok(u) => exe_removal(*doc) == Ok::<CommandView, ErrorView>(u@),
            Err(e) => exe_removal(*doc) == Err::<CommandView, ErrorView>(e@),
        },
{
    match uninstall_string(doc) {
        Some(raw) => {
            let mut parts = split_switches(raw.as_str());
            let ghost w = text::views(parts@);
            proof {
                assert(w.len() == parts@.len());
            }
            if parts.len() == 0 {
                return Err(
                    WaxError::InstallError(String::from_str("empty silent uninstall metadata")),
                );
            }
            proof {
                assert(w[0] == parts@[0]@);
            }
            let command = parts.remove(0);
            proof {
                assert(text::views(parts@) =~= w.skip(1));
            }
            Ok(WindowsNativeUninstall { command, args: parts })
        },
        None => Err(
            WaxError::InstallError(
                String::from_str("winget exe installer is missing silent uninstall metadata"),
            ),
        ),
    }
}

// ---------------------------------------------------------------------------
// Native installers

/// How an installer is run, and how it is undone.
pub struct PlanView {
    pub install: CommandView,
    pub uninstall: CommandView,
}

pub open spec fn is_msi(t: Seq<char>) -> bool {
    t == "msi"@ || t == "wix"@
}

pub open spec fn is_msix(t: Seq<char>) -> bool {
    t == "msix"@ || t == "appx"@
}

pub open spec fn is_exe(t: Seq<char>) -> bool {
    t == "exe"@ || t == "inno"@ || t == "nullsoft"@ || t == "burn"@
}

pub open spec fn failed(message: Seq<char>) -> std::result::Result<PlanView, ErrorView> {
    Err(ErrorView::InstallError(message))
}

/// The plan for an installer that is not a portable archive.
pub open spec fn native(
    doc: WingetInstallerDoc,
    inst: WingetInstallerEntry,
    path: Seq<char>,
) -> std::result::Result<PlanView, ErrorView> {
    let t = text::ascii_lower(type_of(doc, inst));
    if is_msi(t) {
        match product_of(doc, inst) {
            Some(code) => Ok(
                PlanView {
                    install: CommandView { command: "msiexec.exe"@, args: msi_install(path) },
                    uninstall: msi_removal(code),
                },
            ),
            None => failed("winget msi installer is missing ProductCode for managed uninstall"@),
        }
    } else if is_msix(t) {
        match first_family(entries_of(doc)) {
            Some(family) => Ok(
                PlanView {
                    install: CommandView { command: "powershell.exe"@, args: msix_install(path) },
                    uninstall: msix_removal(family),
                },
            ),
            None => failed(
                "winget msix installer is missing PackageFamilyName for managed uninstall"@,
            ),
        }
    } else if is_exe(t) {
        match switches_of(doc, inst) {
            None => failed("winget exe installer is missing InstallerSwitches"@),
            Some(s) => match exe_args(s) {
                None => failed("winget exe installer is missing silent install switches"@),
                Some(args) => match exe_removal(doc) {
                    Err(e) => Err(e),
                    Ok(uninstall) => Ok(
                        PlanView { install: CommandView { command: path, args }, uninstall },
                    ),
                },
            },
        }
    } else {
        failed("wax does not support native winget InstallerType="@ + t)
    }
}

pub fn native_plan(doc: &WingetInstallerDoc, inst: &WingetInstallerEntry, installer_path: &str) -> (r:
    Result<(String, Vec<String>, WindowsNativeUninstall)>)
    ensures
        match r {
            Ok(p) => native(*doc, *inst, installer_path@) == Ok::<PlanView, ErrorView>(
                (PlanView {
                    install: CommandView { command: p.0@, args: text::views(p.1@) },
                    uninstall: p.2@,
                }),
            ),
            Err(e) => native(*doc, *inst, installer_path@) == Err::<PlanView, ErrorView>(e@),
        },
{
    let c = chars_of(installer_type_for(doc, inst));
    let inst_type = string_of(lowered(c.as_slice()).as_slice());
    let t = inst_type.as_str();
    if same_str(t, "msi") || same_str(t, "wix") {
        match product_code_for(doc, inst) {
            Some(code) => Ok(
                (
                    String::from_str("msiexec.exe"),
                    msi_install_args(installer_path),
                    msi_uninstall(code.as_str()),
                ),
            ),
            None => Err(
                WaxError::InstallError(
                    String::from_str(
                        "winget msi installer is missing ProductCode for managed uninstall",
                    ),
                ),
            ),
        }
    } else if same_str(t, "msix") || same_str(t, "appx") {
        match package_family_name_for(doc) {
            Some(family) => Ok(
                (
                    String::from_str("powershell.exe"),
                    msix_install_args(installer_path),
                    msix_uninstall(family.as_str()),
                ),
            ),
            None => Err(
                WaxError::InstallError(
                    String::from_str(
                        "winget msix installer is missing PackageFamilyName for managed uninstall",
                    ),
                ),
            ),
        }
    } else if same_str(t, "exe") || same_str(t, "inno") || same_str(t, "nullsoft") || same_str(
        t,
        "burn",
    ) {
        match installer_switches_for(doc, inst) {
            None => Err(
                WaxError::InstallError(
                    String::from_str("winget exe installer is missing InstallerSwitches"),
                ),
            ),
            Some(s) => match exe_install_args(s) {
                Err(e) => Err(e),
                Ok(args) => match exe_uninstall(doc) {
                    Err(e) => Err(e),
                    Ok(uninstall) => Ok((String::from_str(installer_path), args, uninstall)),
                },
            },
        }
    } else {
        let mut m = String::from_str("wax does not support native winget InstallerType=");
        m.append(t);
        Err(WaxError::InstallError(m))
    }
}

/// Nothing is installed natively without a command that removes it again: the
/// command has a name, and it removes what the manifest calls the package.
pub proof fn planned_can_be_removed(
    doc: WingetInstallerDoc,
    inst: WingetInstallerEntry,
    path: Seq<char>,
)
    requires
        native(doc, inst, path) is Ok,
    ensures
        native(doc, inst, path)->Ok_0.uninstall.command.len() > 0,
        ({
            let t = text::ascii_lower(type_of(doc, inst));
            let u = native(doc, inst, path)->Ok_0.uninstall;
            ||| is_msi(t) && product_of(doc, inst) is Some && u == msi_removal(
                product_of(doc, inst)->0,
            )
            ||| is_msix(t) && first_family(entries_of(doc)) is Some && u == msix_removal(
                first_family(entries_of(doc))->0,
            )
            ||| is_exe(t) && exe_removal(doc) == Ok::<CommandView, ErrorView>(u)
        }),
{
    reveal_strlit("msiexec.exe");
    reveal_strlit("powershell.exe");
    if exe_removal(doc) is Ok {
        text::words_are_nonempty(first_uninstall(entries_of(doc))->0, 0);
    }
}

/// How a native installation ends.
#[derive(Debug, Clone, Copy, PartialEq, Eq, Structural)]
pub enum NativeEnd {
    /// It is installed and recorded.
    Done,
    /// The staged installer is removed again.
    Clear,
    /// What was installed is uninstalled, and the staged installer is removed again.
    Undo,
}

/// How a native installation ends: where the installer failed there is nothing to
/// uninstall, and nothing stays installed that could not be recorded.
pub fn native_end(ran: bool, recorded: bool) -> (r: NativeEnd)
    ensures
        r == if !ran {
            NativeEnd::Clear
        } else if !recorded {
            NativeEnd::Undo
        } else {
            NativeEnd::Done
        },
{
    if !ran {
        NativeEnd::Clear
    } else if !recorded {
        NativeEnd::Undo
    } else {
        NativeEnd::Done
    }
}

/// What comes of running an installer's command.
pub fn native_outcome(windows: bool, success: bool, status: &str, command: &str) -> (r: Result<()>)
    ensures
        if !windows {
            r matches Err(e) && e@ == ErrorView::PlatformNotSupported(
                "native Windows installer execution is only supported on Windows"@,
            )
        } else if success {
            r is Ok
        } else {
            r matches Err(e) && e@ == ErrorView::InstallError(
                "native installer command failed with "@ + status@ + ": "@ + command@,
            )
        },
{
    if !windows {
        return Err(
            WaxError::PlatformNotSupported(
                String::from_str("native Windows installer execution is only supported on Windows"),
            ),
        );
    }
    if success {
        return Ok(());
    }
    let mut m = String::from_str("native installer command failed with ");
    m.append(status);
    m.append(": ");
    m.append(command);
    Err(WaxError::InstallError(m))
}

// ---------------------------------------------------------------------------
// Installing

pub fn check_platform(windows: bool) -> (r: Result<()>)
    ensures
        if windows {
            r is Ok
        } else {
            r matches Err(e) && e@ == ErrorView::PlatformNotSupported(
                "winget install is only supported on Windows"@,
            )
        },
{
    if windows {
        Ok(())
    } else {
        Err(
            WaxError::PlatformNotSupported(
                String::from_str("winget install is only supported on Windows"),
            ),
        )
    }
}

/// The checksum that a download has to have.
pub fn expected_sha256(inst: &WingetInstallerEntry) -> (r: String)
    ensures
        r@ == text::ascii_lower(text::trim(inst.installer_sha256@)),
{
    let c = chars_of(inst.installer_sha256.as_str());
    string_of(lowered(trimmed(c.as_slice())).as_slice())
}

/// The file that an installer is downloaded to.
pub fn archive_name(url: &str) -> (r: String)
    ensures
        r@ == (match paths::file_name(url@) {
            Some(n) => n,
            None => "winget-installer.bin"@,
        }),
{
    match name_of(url) {
        Some(n) => n,
        None => String::from_str("winget-installer.bin"),
    }
}

/// The installer is an archive of portable programs.
pub open spec fn portable(doc: WingetInstallerDoc, inst: WingetInstallerEntry) -> bool {
    same_but_case(type_of(doc, inst), "zip"@) && same_but_case(
        match doc.nested_installer_type {
            Some(t) => t@,
            None => ""@,
        },
        "portable"@,
    )
}

pub fn is_portable_archive(doc: &WingetInstallerDoc, inst: &WingetInstallerEntry) -> (r: bool)
    ensures
        r == portable(*doc, *inst),
{
    let nested = match &doc.nested_installer_type {
        Some(t) => t.as_str(),
        None => "",
    };
    equal_but_case(installer_type_for(doc, inst), "zip") && equal_but_case(nested, "portable")
}

/// The files of a portable archive that are installed.
pub fn nested_files(doc: &WingetInstallerDoc) -> (r: Result<&Vec<WingetNestedFile>>)
    ensures
        match r {
            Ok(v) => doc.nested_installer_files == Some(*v),
            Err(e) => doc.nested_installer_files is None && e@ == ErrorView::InstallError(
                "winget manifest missing NestedInstallerFiles"@,
            ),
        },
{
    match &doc.nested_installer_files {
        Some(v) => Ok(v),
        None => Err(
            WaxError::InstallError(String::from_str("winget manifest missing NestedInstallerFiles")),
        ),
    }
}

/// Puts a path of a manifest below a directory; refuses one that may lead out.
pub fn join_under_root(root: &str, rel: &str, windows: bool) -> (r: Result<String>)
    ensures
        match r {
            Ok(p) => !scoop::is_unsafe(rel@, windows) && p@ == paths::path_join(root@, rel@),
            Err(e) => scoop::is_unsafe(rel@, windows) && e@ == ErrorView::InstallError(
                "Unsafe path in winget manifest: "@ + rel@,
            ),
        },
{
    if may_lead_out(rel, windows) {
        let mut s = String::from_str("Unsafe path in winget manifest: ");
        s.append(rel);
        Err(WaxError::InstallError(s))
    } else {
        Ok(below(root, rel))
    }
}

/// Where a file of a portable archive lies once it is extracted.
pub fn nested_source(extract_root: &str, file: &WingetNestedFile, windows: bool) -> (r: Result<String>)
    ensures
        ({
            let rel = scoop::slashed(file.relative_file_path@);
            match r {
                Ok(p) => !scoop::is_unsafe(rel, windows) && p@ == paths::path_join(
                    extract_root@,
                    rel,
                ),
                Err(e) => scoop::is_unsafe(rel, windows) && e@ == ErrorView::InstallError(
                    "Unsafe path in winget manifest: "@ + rel,
                ),
            }
        }),
{
    join_under_root(extract_root, with_slashes(file.relative_file_path.as_str()).as_str(), windows)
}

/// The name that a program of a portable archive gets.
pub open spec fn command_name(file: WingetNestedFile, source: Seq<char>) -> Seq<char> {
    match file.portable_command_alias {
        Some(a) => a@ + ".exe"@,
        None => match paths::file_name(source) {
            Some(n) => n,
            None => "app.exe"@,
        },
    }
}

/// Where a file of a portable archive is copied to, if it is there.
pub fn nested_copy(file: &WingetNestedFile, source: &str, present: bool, bin_dir: &str) -> (r: Result<
    String,
>)
    ensures
        match r {
            Ok(dest) => present && dest@ == paths::path_join(bin_dir@, command_name(*file, source@)),
            Err(e) => !present && e@ == ErrorView::InstallError(
                "nested portable file missing: "@ + source@,
            ),
        },
{
    if !present {
        let mut s = String::from_str("nested portable file missing: ");
        s.append(source);
        return Err(WaxError::InstallError(s));
    }
    let name = match &file.portable_command_alias {
        Some(a) => {
            let mut n = a.clone();
            n.append(".exe");
            n
        },
        None => match name_of(source) {
            Some(n) => n,
            None => String::from_str("app.exe"),
        },
    };
    Ok(below(bin_dir, name.as_str()))
}

/// A package's id with underscores in the place of dots.
pub open spec fn flat_id(id: Seq<char>) -> Seq<char> {
    text::replace(id, seq!['.'], seq!['_'])
}

/// Where a version of a package is kept: below `winget-apps` where it is portable,
/// below `winget-installers` where it is not.
pub open spec fn staging_path(
    root: Seq<char>,
    portable: bool,
    id: Seq<char>,
    version: Seq<char>,
) -> Seq<char> {
    paths::path_join(
        paths::path_join(
            paths::path_join(
                root,
                if portable {
                    "winget-apps"@
                } else {
                    "winget-installers"@
                },
            ),
            flat_id(id),
        ),
        version,
    )
}

pub fn staging_dir(root: &str, portable: bool, package_id: &str, version: &str) -> (r: String)
    ensures
        r@ == staging_path(root@, portable, package_id@, version@),
{
    let c = chars_of(package_id);
    let mut dot: Vec<char> = Vec::new();
    dot.push('.');
    let mut line: Vec<char> = Vec::new();
    line.push('_');
    proof {
        assert(dot@ =~= seq!['.']);
        assert(line@ =~= seq!['_']);
    }
    let flat = string_of(replaced(c.as_slice(), dot.as_slice(), line.as_slice()).as_slice());
    let kind = if portable {
        "winget-apps"
    } else {
        "winget-installers"
    };
    below(below(below(root, kind).as_str(), flat.as_str()).as_str(), version)
}

/// Where an installer is kept, so that it is there when it is undone.
pub fn staged_installer(staging: &str, installer_path: &str) -> (r: String)
    ensures
        r@ == paths::path_join(
            staging@,
            match paths::file_name(installer_path@) {
                Some(n) => n,
                None => "installer.bin"@,
            },
        ),
{
    match name_of(installer_path) {
        Some(n) => below(staging, n.as_str()),
        None => below(staging, "installer.bin"),
    }
}

/// What is said when a package is installed.
pub open spec fn installed_message(
    id: Seq<char>,
    version: Seq<char>,
    bin_dir: Option<Seq<char>>,
) -> Seq<char> {
    "Installed "@ + id + " "@ + version + match bin_dir {
        Some(d) => " (winget portable zip) — binaries under:\n  "@ + d,
        None => " (winget native installer)"@,
    }
}

pub fn installed_text(package_id: &str, version: &str, bin_dir: Option<&str>) -> (r: String)
    ensures
        r@ == installed_message(package_id@, version@, crate::ui::dirs::str_view(bin_dir)),
{
    let mut r = String::from_str("Installed ");
    r.append(package_id);
    r.append(" ");
    r.append(version);
    match bin_dir {
        Some(d) => {
            let mut m = String::from_str(" (winget portable zip) — binaries under:\n  ");
            m.append(d);
            r.append(m.as_str());
        },
        None => {
            r.append(" (winget native installer)");
        },
    }
    r
}

// ---------------------------------------------------------------------------
// Laws of manifests and their installers

/// The manifests of a package lie under the first letter of its publisher, in small, and
/// under the parts of its name; a name of one part has no manifests.
pub proof fn manifests_lie_under_their_letter(parts: Seq<Seq<char>>, id: Seq<char>)
    requires
        parts.len() >= 2,
        forall|i: int| 0 <= i < parts.len() ==> (#[trigger] parts[i]).len() > 0,
        text::split(id, '.') == parts,
    ensures
        content_path(id) == Some(
            "manifests/"@ + seq![text::lower_char(parts[0][0])] + "/"@ + text::join(parts, "/"@),
        ),
{
    full_are_kept(parts);
}

proof fn full_are_kept(parts: Seq<Seq<char>>)
    requires
        forall|i: int| 0 <= i < parts.len() ==> (#[trigger] parts[i]).len() > 0,
    ensures
        text::nonempty(parts) == parts,
    decreases parts.len(),
{
    if parts.len() > 0 {
        let b = parts.drop_last();
        assert forall|i: int| 0 <= i < b.len() implies (#[trigger] b[i]).len() > 0 by {
            assert(b[i] == parts[i]);
        }
        full_are_kept(b);
        assert(parts.last().len() > 0);
        assert(b.push(parts.last()) =~= parts);
    }
}

/// A name without a dot is no name of a package.
pub proof fn names_need_two_parts(id: Seq<char>)
    requires
        !id.contains('.'),
    ensures
        content_path(id) is None,
{
    text::plain_is_one_piece(id, '.');
    assert(seq![id].drop_last() =~= Seq::<Seq<char>>::empty());
    assert(text::nonempty(Seq::<Seq<char>>::empty()).len() == 0);
    assert(text::nonempty(seq![id]).len() <= 1);
}

/// The folders of a listing are the versions, in its order.
pub proof fn folders_are_versions(entries: Seq<GhContentEntry>, e: GhContentEntry)
    ensures
        e.entry_type@ == "dir"@ ==> folders(entries.push(e)) == folders(entries).push(e.name@),
        e.entry_type@ != "dir"@ ==> folders(entries.push(e)) == folders(entries),
        folders(Seq::empty()).len() == 0,
{
    assert(entries.push(e).drop_last() =~= entries);
}

/// The first file with the ending of an installer is the manifest.
pub proof fn first_installer_file_counts(
    before: Seq<GhContentEntry>,
    f: GhContentEntry,
    after: Seq<GhContentEntry>,
)
    requires
        text::ends_with(f.name@, ".installer.yaml"@),
        f.entry_type@ == "file"@,
        forall|i: int|
            0 <= i < before.len() ==> !text::ends_with(
                (#[trigger] before[i]).name@,
                ".installer.yaml"@,
            ) || before[i].entry_type@ != "file"@,
    ensures
        installer_file(before + seq![f] + after) == Some(f.path@),
        installer_file(before) is None,
    decreases before.len(),
{
    let all = before + seq![f] + after;
    if before.len() == 0 {
        assert(all[0] == f);
    } else {
        let t = before.skip(1);
        assert forall|i: int| 0 <= i < t.len() implies !text::ends_with(
            (#[trigger] t[i]).name@,
            ".installer.yaml"@,
        ) || t[i].entry_type@ != "file"@ by {
            assert(t[i] == before[i + 1]);
        }
        first_installer_file_counts(t, f, after);
        assert(all[0] == before[0]);
        assert(all.skip(1) =~= t + seq![f] + after);
    }
}

/// Each machine has its word in a manifest.
pub proof fn machines_have_their_word(arch: Seq<char>)
    ensures
        arch_token("aarch64"@) == "arm64"@,
        arch_token("x86"@) == "x86"@,
        arch != "aarch64"@ && arch != "x86"@ ==> arch_token(arch) == "x64"@,
{
    reveal_strlit("aarch64");
    reveal_strlit("x86");
    assert("aarch64"@[0] == 'a' && "x86"@[0] == 'x');
}

/// The first installer for this machine is picked, and the first of all where none is.
pub proof fn first_fitting_is_picked(
    before: Seq<WingetInstallerEntry>,
    x: WingetInstallerEntry,
    after: Seq<WingetInstallerEntry>,
    want: Seq<char>,
)
    requires
        text::ascii_lower(x.architecture@) == text::ascii_lower(want),
        forall|i: int|
            0 <= i < before.len() ==> text::ascii_lower((#[trigger] before[i]).architecture@)
                != text::ascii_lower(want),
    ensures
        picked(before + seq![x] + after, want) == before.len(),
        picked(before, want) == 0,
{
    fitting_is_first(before, x, after, want);
}

proof fn fitting_is_first(
    before: Seq<WingetInstallerEntry>,
    x: WingetInstallerEntry,
    after: Seq<WingetInstallerEntry>,
    want: Seq<char>,
)
    requires
        same_but_case(x.architecture@, want),
        forall|i: int|
            0 <= i < before.len() ==> !same_but_case((#[trigger] before[i]).architecture@, want),
    ensures
        fitting(before + seq![x] + after, want) == Some(before.len() as int),
        fitting(before, want) is None,
    decreases before.len(),
{
    let all = before + seq![x] + after;
    if before.len() == 0 {
        assert(all[0] == x);
    } else {
        let t = before.skip(1);
        assert forall|i: int| 0 <= i < t.len() implies !same_but_case(
            (#[trigger] t[i]).architecture@,
            want,
        ) by {
            assert(t[i] == before[i + 1]);
        }
        fitting_is_first(t, x, after, want);
        assert(all[0] == before[0]);
        assert(all.skip(1) =~= t + seq![x] + after);
    }
}

/// What an installer says of itself counts before what its manifest says of all.
pub proof fn own_words_count_first(doc: WingetInstallerDoc, inst: WingetInstallerEntry)
    ensures
        inst.installer_type matches Some(t) ==> type_of(doc, inst) == t@,
        inst.installer_type is None ==> (doc.installer_type matches Some(t) ==> type_of(doc, inst)
            == t@),
        inst.installer_type is None && doc.installer_type is None ==> type_of(doc, inst) == ""@,
        inst.installer_switches is Some ==> switches_of(doc, inst) == inst.installer_switches,
        inst.installer_switches is None ==> switches_of(doc, inst) == doc.installer_switches,
        inst.product_code matches Some(c) ==> product_of(doc, inst) == Some(c@),
        inst.product_code is None ==> product_of(doc, inst) == first_product(entries_of(doc)),
        doc.apps_and_features_entries matches Some(v) ==> entries_of(doc) == v@,
        doc.apps_and_features_entries is None ==> entries_of(doc).len() == 0,
{
}

/// The first entry that has a code, a family or a command for removal gives it.
pub proof fn first_entries_count(v: Seq<WingetAppsAndFeaturesEntry>, x: WingetAppsAndFeaturesEntry)
    ensures
        x.product_code is Some ==> first_product(seq![x] + v) == text::opt_view(x.product_code),
        x.product_code is None ==> first_product(seq![x] + v) == first_product(v),
        x.package_family_name is Some ==> first_family(seq![x] + v) == text::opt_view(
            x.package_family_name,
        ),
        x.package_family_name is None ==> first_family(seq![x] + v) == first_family(v),
        x.silent_uninstall_string is Some ==> first_uninstall(seq![x] + v) == text::opt_view(
            x.silent_uninstall_string,
        ),
        x.silent_uninstall_string is None ==> first_uninstall(seq![x] + v) == first_uninstall(v),
        first_product(Seq::empty()) is None,
        first_family(Seq::empty()) is None,
        first_uninstall(Seq::empty()) is None,
{
    assert((seq![x] + v).skip(1) =~= v);
}

/// The commands of the installer of Windows name what they install or remove, and ask
/// nothing.
pub proof fn installer_commands_are_silent(path: Seq<char>, code: Seq<char>)
    ensures
        msi_install(path) == seq!["/i"@, path, "/qn"@, "/norestart"@],
        msi_removal(code).command == "msiexec.exe"@,
        msi_removal(code).args == seq!["/x"@, code, "/qn"@, "/norestart"@],
        msix_removal(code).command == "powershell.exe"@,
        msix_install(path).last() == "Add-AppxPackage -Path "@ + quoted(path),
        msix_removal(code).args.last() == "Get-AppxPackage -PackageFamilyName "@ + quoted(code)
            + " | Remove-AppxPackage"@,
        msix_install(path).drop_last() == seq![
            "-NoProfile"@,
            "-ExecutionPolicy"@,
            "Bypass"@,
            "-Command"@,
        ],
        msix_removal(code).args.drop_last() == msix_install(path).drop_last(),
{
    assert(msix_install(path).drop_last() =~= seq![
        "-NoProfile"@,
        "-ExecutionPolicy"@,
        "Bypass"@,
        "-Command"@,
    ]);
}

/// A silent installation takes the silent switches, or those that show progress, then those
/// of the package and of its place.
pub proof fn silent_switches_come_first(s: WingetInstallerSwitches)
    ensures
        s.silent is None && s.silent_with_progress is None ==> exe_args(s) is None,
        s.silent is Some || s.silent_with_progress is Some ==> exe_args(s) is Some,
        s.silent matches Some(x) ==> (exe_args(s) matches Some(a) && text::words(x@).is_prefix_of(
            a,
        )),
        s.silent is None ==> (s.silent_with_progress matches Some(x) ==> (exe_args(
            s,
        ) matches Some(a) && text::words(x@).is_prefix_of(a))),
        s.custom is None && s.install_location is None ==> (s.silent matches Some(x) ==> exe_args(s)
            == Some(text::words(x@))),
        s.install_location is None ==> (s.silent matches Some(x) ==> (s.custom matches Some(c)
            ==> exe_args(s) == Some(text::words(x@) + text::words(c@)))),
        s.custom is None ==> (s.silent matches Some(x) ==> (s.install_location matches Some(c)
            ==> exe_args(s) == Some(text::words(x@) + text::words(c@)))),
{
    let e = Seq::<Seq<char>>::empty();
    if s.silent is Some {
        let w = text::words(s.silent->0@);
        assert(w + e + e =~= w);
        assert(w + opt_words(s.custom) + e =~= w + opt_words(s.custom));
        assert(w + e + opt_words(s.install_location) =~= w + opt_words(s.install_location));
    }
}

/// The command that removes is the first word of what the manifest says, and its arguments
/// are the others; without words there is none.
pub proof fn removal_is_read(doc: WingetInstallerDoc, raw: Seq<char>)
    ensures
        first_uninstall(entries_of(doc)) is None ==> exe_removal(doc) is Err,
        first_uninstall(entries_of(doc)) == Some(raw) && text::words(raw).len() == 0 ==> exe_removal(
            doc,
        ) is Err,
        first_uninstall(entries_of(doc)) == Some(raw) && text::words(raw).len() > 0 ==> (
        exe_removal(doc) matches Ok(c) && seq![c.command] + c.args == text::words(raw)),
{
    if first_uninstall(entries_of(doc)) == Some(raw) && text::words(raw).len() > 0 {
        let w = text::words(raw);
        assert(seq![w[0]] + w.skip(1) =~= w);
    }
}

/// Each kind of installer is run by its own command, and one of another kind by none.
pub proof fn installers_are_run_by_their_kind(
    doc: WingetInstallerDoc,
    inst: WingetInstallerEntry,
    path: Seq<char>,
)
    ensures
        ({
            let t = text::ascii_lower(type_of(doc, inst));
            let n = native(doc, inst, path);
            &&& t == "msi"@ || t == "wix"@ ==> (n is Ok <==> product_of(doc, inst) is Some)
            &&& t == "msi"@ || t == "wix"@ ==> (n matches Ok(p) ==> p.install.command
                == "msiexec.exe"@ && p.install.args == msi_install(path) && p.uninstall
                == msi_removal(product_of(doc, inst)->0))
            &&& (t == "msix"@ || t == "appx"@) && !is_msi(t) ==> (n is Ok <==> first_family(
                entries_of(doc),
            ) is Some)
            &&& (t == "msix"@ || t == "appx"@) && !is_msi(t) ==> (n matches Ok(p)
                ==> p.install.command == "powershell.exe"@ && p.install.args == msix_install(path)
                && p.uninstall == msix_removal(first_family(entries_of(doc))->0))
            &&& (t == "exe"@ || t == "inno"@ || t == "nullsoft"@ || t == "burn"@) && !is_msi(t)
                && !is_msix(t) ==> (n is Ok <==> (switches_of(doc, inst) matches Some(s)
                && exe_args(s) is Some) && exe_removal(doc) is Ok)
            &&& (t == "exe"@ || t == "inno"@ || t == "nullsoft"@ || t == "burn"@) && !is_msi(t)
                && !is_msix(t) ==> (n matches Ok(p) ==> p.install.command == path
                && Some(p.install.args) == exe_args(switches_of(doc, inst)->0) && Ok::<
                CommandView,
                ErrorView,
            >(p.uninstall) == exe_removal(doc))
            &&& t != "msi"@ && t != "wix"@ && t != "msix"@ && t != "appx"@ && t != "exe"@ && t
                != "inno"@ && t != "nullsoft"@ && t != "burn"@ ==> n is Err
        }),
{
}

/// The kinds of installers do not overlap.
pub proof fn kinds_are_told_apart()
    ensures
        !is_msi("msix"@) && !is_msi("appx"@) && !is_msi("exe"@) && !is_msi("inno"@) && !is_msi(
            "nullsoft"@,
        ) && !is_msi("burn"@),
        !is_msix("exe"@) && !is_msix("inno"@) && !is_msix("nullsoft"@) && !is_msix("burn"@),
{
    reveal_strlit("msi");
    reveal_strlit("wix");
    reveal_strlit("msix");
    reveal_strlit("appx");
    reveal_strlit("exe");
    reveal_strlit("inno");
    reveal_strlit("nullsoft");
    reveal_strlit("burn");
    assert("msi"@.len() == 3 && "wix"@.len() == 3 && "msix"@.len() == 4 && "appx"@.len() == 4);
    assert("exe"@.len() == 3 && "inno"@.len() == 4 && "nullsoft"@.len() == 8 && "burn"@.len() == 4);
    assert("msi"@[0] == 'm' && "wix"@[0] == 'w' && "exe"@[0] == 'e' && "msix"@[0] == 'm');
    assert("appx"@[0] == 'a' && "inno"@[0] == 'i' && "burn"@[0] == 'b');
}

/// Only a zip archive of portable files is portable, in capitals or not.
pub proof fn portable_is_zip_of_portable(doc: WingetInstallerDoc, inst: WingetInstallerEntry)
    ensures
        portable(doc, inst) ==> text::ascii_lower(type_of(doc, inst)) == text::ascii_lower("zip"@),
        portable(doc, inst) ==> (doc.nested_installer_type matches Some(t) && text::ascii_lower(t@)
            == text::ascii_lower("portable"@)),
        text::ascii_lower(type_of(doc, inst)) == text::ascii_lower("zip"@) && (
        doc.nested_installer_type matches Some(t) && text::ascii_lower(t@) == text::ascii_lower(
            "portable"@,
        )) ==> portable(doc, inst),
{
    reveal_strlit("");
    reveal_strlit("portable");
    assert(text::ascii_lower(""@).len() == 0);
    assert(text::ascii_lower("portable"@).len() == 8);
}

/// A command is named by its alias, or else by the file itself.
pub proof fn commands_are_named_by_alias(file: WingetNestedFile, source: Seq<char>)
    ensures
        file.portable_command_alias matches Some(a) ==> command_name(file, source) == a@ + ".exe"@,
        file.portable_command_alias is None ==> (paths::file_name(source) matches Some(n)
            ==> command_name(file, source) == n),
        file.portable_command_alias is None && paths::file_name(source) is None ==> command_name(
            file,
            source,
        ) == "app.exe"@,
{
}

/// A package is staged below the folder of its kind, under its name without dots and under
/// its version.
pub proof fn packages_are_staged_apart(
    root: Seq<char>,
    a: Seq<char>,
    b: Seq<char>,
    version: Seq<char>,
)
    requires
        !a.contains('.'),
    ensures
        flat_id(a) == a,
        flat_id(a + seq!['.'] + b) == a + seq!['_'] + flat_id(b),
        staging_path(root, true, a, version) == paths::path_join(
            paths::path_join(paths::path_join(root, "winget-apps"@), a),
            version,
        ),
        staging_path(root, false, a, version) == paths::path_join(
            paths::path_join(paths::path_join(root, "winget-installers"@), a),
            version,
        ),
{
    let f = seq!['.'];
    assert(!text::contains(a, f)) by {
        if text::contains(a, f) {
            let i = choose|i: int| text::occurs_at(a, f, i);
            assert(a.subrange(i, i + 1)[0] == f[0]);
            assert(a[i] == '.');
        }
    }
    text::replacing_nothing(a, f, seq!['_']);
    let s = a + f + b;
    assert(s.subrange(a.len() as int, a.len() as int + 1) =~= f);
    assert forall|j: int| 0 <= j < a.len() implies !text::occurs_at(s, f, j) by {
        if text::occurs_at(s, f, j) {
            assert(s.subrange(j, j + 1)[0] == f[0]);
            assert(s[j] == a[j]);
        }
    }
    text::replacing_the_first(a, f, b, seq!['_']);
}

/// What was installed is told with its version, and where its commands are.
pub proof fn installed_is_told(id: Seq<char>, version: Seq<char>, dir: Seq<char>)
    ensures
        installed_message(id, version, None) == "Installed "@ + id + " "@ + version
            + " (winget native installer)"@,
        installed_message(id, version, Some(dir)) == "Installed "@ + id + " "@ + version + (
        " (winget portable zip) — binaries under:\n  "@ + dir),
{
}

/// What cannot be run is told why.
pub proof fn refusals_are_told(doc: WingetInstallerDoc, inst: WingetInstallerEntry, path: Seq<char>)
    ensures
        ({
            let t = text::ascii_lower(type_of(doc, inst));
            let n = native(doc, inst, path);
            &&& is_msi(t) && product_of(doc, inst) is None ==> n == Err::<PlanView, ErrorView>(
                ErrorView::InstallError(
                    "winget msi installer is missing ProductCode for managed uninstall"@,
                ),
            )
            &&& !is_msi(t) && is_msix(t) && first_family(entries_of(doc)) is None ==> n == Err::<
                PlanView,
                ErrorView,
            >(
                ErrorView::InstallError(
                    "winget msix installer is missing PackageFamilyName for managed uninstall"@,
                ),
            )
            &&& !is_msi(t) && !is_msix(t) && is_exe(t) && switches_of(doc, inst) is None ==> n
                == Err::<PlanView, ErrorView>(
                ErrorView::InstallError("winget exe installer is missing InstallerSwitches"@),
            )
            &&& !is_msi(t) && !is_msix(t) && !is_exe(t) ==> n == Err::<PlanView, ErrorView>(
                ErrorView::InstallError("wax does not support native winget InstallerType="@ + t),
            )
        }),
        first_uninstall(entries_of(doc)) is None ==> exe_removal(doc) == Err::<
            CommandView,
            ErrorView,
        >(
            ErrorView::InstallError(
                "winget exe installer is missing silent uninstall metadata"@,
            ),
        ),
{
}

}
