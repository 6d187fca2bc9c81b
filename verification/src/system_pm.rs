//! The package managers of the operating system: which one is there, how it is
//! called, and what its listings say.
use crate::error::{ErrorView, Result, WaxError};
use crate::order;
use crate::order::{dedup_by_key, sort_by_key, HasKey, Keyed, Listed, ListedView};
use crate::outside::{lossy_text, lowercased, sha256_hex};
use crate::system::query;
use crate::system::query::split_line;
use crate::text::{
    after_prefix,
    chars_of,
    has_char,
    last_place,
    lines_of,
    part,
    pieces,
    same_str,
    signed_number,
    string_of,
    trimmed,
    words_of,
};
use crate::{outside, text};
use vstd::prelude::*;

verus! {

/// A detected system package manager.
#[derive(Debug, Clone, Copy, PartialEq, Eq, Structural)]
pub enum SystemPm {
    Brew,
    Apt,
    Dnf,
    Pacman,
    Apk,
    Zypper,
    Emerge,
    Yum,
    Xbps,
    Nix,
}

/// A program and its arguments.
#[derive(Debug)]
pub struct Invocation {
    pub program: String,
    pub args: Vec<String>,
}

pub struct InvocationView {
    pub program: Seq<char>,
    pub args: Seq<Seq<char>>,
}

impl View for Invocation {
    type V = InvocationView;

    open spec fn view(&self) -> InvocationView {
        InvocationView { program: self.program@, args: text::views(self.args@) }
    }
}

/// An `Invocation` is seen as what it holds.
pub proof fn invocation_is_seen_as_it_is(x: Invocation)
    ensures
        x@.program == x.program@,
        x@.args == text::views(x.args@),
{
}

pub open spec fn invocation_views(v: Seq<Invocation>) -> Seq<InvocationView> {
    v.map_values(|i: Invocation| i@)
}

pub open spec fn call(program: Seq<char>, args: Seq<Seq<char>>) -> InvocationView {
    InvocationView { program, args }
}

pub open spec fn str_views(v: Seq<&str>) -> Seq<Seq<char>> {
    v.map_values(|s: &str| s@)
}

/// A call with fixed arguments and then those of `rest`.
fn invocation(program: &str, args: &[&str], rest: &Vec<String>) -> (r: Invocation)
    ensures
        r@ == call(program@, str_views(args@) + text::views(rest@)),
{
    let mut out: Vec<String> = Vec::new();
    for i in 0..args.len()
        invariant
            text::views(out@) =~= str_views(args@).take(i as int),
    {
        let ghost before = text::views(out@);
        out.push(String::from_str(args[i]));
        proof {
            assert(text::views(out@) =~= before.push(args@[i as int]@));
        }
    }
    for i in 0..rest.len()
        invariant
            text::views(out@) =~= str_views(args@) + text::views(rest@).take(i as int),
    {
        let ghost before = text::views(out@);
        out.push(rest[i].clone());
        proof {
            assert(text::views(out@) =~= before.push(rest@[i as int]@));
        }
    }
    proof {
        assert(text::views(out@) =~= str_views(args@) + text::views(rest@));
    }
    Invocation { program: String::from_str(program), args: out }
}

fn fixed(program: &str, args: &[&str]) -> (r: Invocation)
    ensures
        r@ == call(program@, str_views(args@)),
{
    let none: Vec<String> = Vec::new();
    let r = invocation(program, args, &none);
    proof {
        assert(text::views(none@) =~= Seq::empty());
        assert(str_views(args@) + text::views(none@) =~= str_views(args@));
    }
    r
}

// ---------------------------------------------------------------------------
// What is called

impl SystemPm {
    pub open spec fn label(self) -> Seq<char> {
        match self {
            SystemPm::Brew => "brew"@,
            SystemPm::Apt => "apt"@,
            SystemPm::Dnf => "dnf"@,
            SystemPm::Pacman => "pacman"@,
            SystemPm::Apk => "apk"@,
            SystemPm::Zypper => "zypper"@,
            SystemPm::Emerge => "emerge"@,
            SystemPm::Yum => "yum"@,
            SystemPm::Xbps => "xbps-install"@,
            SystemPm::Nix => "nix-env"@,
        }
    }

    /// Human-readable name.
    pub fn name(&self) -> (r: &'static str)
        ensures
            r@ == self.label(),
    {
        match self {
            SystemPm::Brew => "brew",
            SystemPm::Apt => "apt",
            SystemPm::Dnf => "dnf",
            SystemPm::Pacman => "pacman",
            SystemPm::Apk => "apk",
            SystemPm::Zypper => "zypper",
            SystemPm::Emerge => "emerge",
            SystemPm::Yum => "yum",
            SystemPm::Xbps => "xbps-install",
            SystemPm::Nix => "nix-env",
        }
    }

    /// The program that installs, and its arguments before the packages.
    pub open spec fn installer(self) -> (Seq<char>, Seq<Seq<char>>) {
        match self {
            SystemPm::Brew => ("brew"@, seq!["install"@]),
            SystemPm::Apt => ("sudo"@, seq!["apt-get"@, "install"@, "-y"@]),
            SystemPm::Dnf => ("sudo"@, seq!["dnf"@, "install"@, "-y"@]),
            SystemPm::Pacman => ("sudo"@, seq!["pacman"@, "-S"@, "--noconfirm"@]),
            SystemPm::Apk => ("sudo"@, seq!["apk"@, "add"@]),
            SystemPm::Zypper => ("sudo"@, seq!["zypper"@, "install"@, "-y"@]),
            SystemPm::Emerge => ("sudo"@, seq!["emerge"@]),
            SystemPm::Yum => ("sudo"@, seq!["yum"@, "install"@, "-y"@]),
            SystemPm::Xbps => ("sudo"@, seq!["xbps-install"@, "-S"@]),
            SystemPm::Nix => ("nix-env"@, seq!["-i"@]),
        }
    }

    /// The program that removes, and its arguments before the packages.
    pub open spec fn remover(self) -> (Seq<char>, Seq<Seq<char>>) {
        match self {
            SystemPm::Brew => ("brew"@, seq!["uninstall"@]),
            SystemPm::Apt => ("sudo"@, seq!["apt-get"@, "remove"@, "-y"@]),
            SystemPm::Dnf => ("sudo"@, seq!["dnf"@, "remove"@, "-y"@]),
            SystemPm::Pacman => ("sudo"@, seq!["pacman"@, "-R"@, "--noconfirm"@]),
            SystemPm::Apk => ("sudo"@, seq!["apk"@, "del"@]),
            SystemPm::Zypper => ("sudo"@, seq!["zypper"@, "remove"@, "-y"@]),
            SystemPm::Emerge => ("sudo"@, seq!["emerge"@, "--unmerge"@]),
            SystemPm::Yum => ("sudo"@, seq!["yum"@, "remove"@, "-y"@]),
            SystemPm::Xbps => ("sudo"@, seq!["xbps-remove"@, "-R"@]),
            SystemPm::Nix => ("nix-env"@, seq!["-e"@]),
        }
    }

    /// The program that lists what is installed, and its arguments.
    pub open spec fn lister(self) -> (Seq<char>, Seq<Seq<char>>) {
        match self {
            SystemPm::Brew => ("brew"@, seq!["list"@, "--versions"@]),
            SystemPm::Apt => ("dpkg-query"@, seq!["-W"@, "-f=${Package}\\t${Version}\\n"@]),
            SystemPm::Dnf => ("rpm"@, seq!["-qa"@, "--queryformat"@, "%{NAME}\t%{VERSION}-%{RELEASE}\n"@]),
            SystemPm::Pacman => ("pacman"@, seq!["-Q"@]),
            SystemPm::Apk => ("apk"@, seq!["info"@, "-v"@]),
            SystemPm::Zypper => ("rpm"@, seq!["-qa"@, "--queryformat"@, "%{NAME}\t%{VERSION}-%{RELEASE}\n"@]),
            SystemPm::Emerge => ("qlist"@, seq!["-ICv"@]),
            SystemPm::Yum => ("rpm"@, seq!["-qa"@, "--queryformat"@, "%{NAME}\t%{VERSION}-%{RELEASE}\n"@]),
            SystemPm::Xbps => ("xbps-query"@, seq!["-l"@]),
            SystemPm::Nix => ("nix-env"@, seq!["-q"@]),
        }
    }

    /// The calls that upgrade everything, in order.
    pub open spec fn upgrades(self) -> Seq<InvocationView> {
        match self {
            SystemPm::Brew => seq![call("brew"@, seq!["update"@]), call("brew"@, seq!["upgrade"@])],
            SystemPm::Apt => seq![call("sudo"@, seq!["apt-get"@, "update"@, "-q"@]), call("sudo"@, seq!["apt-get"@, "upgrade"@, "-y"@])],
            SystemPm::Dnf => seq![call("sudo"@, seq!["dnf"@, "upgrade"@, "--refresh"@, "-y"@])],
            SystemPm::Pacman => seq![call("sudo"@, seq!["pacman"@, "-Syu"@, "--noconfirm"@])],
            SystemPm::Apk => seq![call("sudo"@, seq!["apk"@, "upgrade"@])],
            SystemPm::Zypper => seq![call("sudo"@, seq!["zypper"@, "refresh"@]), call("sudo"@, seq!["zypper"@, "update"@, "-y"@])],
            SystemPm::Emerge => seq![call("sudo"@, seq!["emerge"@, "--sync"@]), call("sudo"@, seq!["emerge"@, "--update"@, "--deep"@, "--newuse"@, "@world"@])],
            SystemPm::Yum => seq![call("sudo"@, seq!["yum"@, "update"@, "-y"@])],
            SystemPm::Xbps => seq![call("sudo"@, seq!["xbps-install"@, "-Su"@])],
            SystemPm::Nix => seq![call("nix-channel"@, seq!["--update"@]), call("nix-env"@, seq!["-u"@, "*"@])],
        }
    }

    /// The calls that upgrade all packages of this manager.
    pub fn upgrade_all(&self) -> (r: Vec<Invocation>)
        ensures
            invocation_views(r@) == self.upgrades(),
    {
        let mut out: Vec<Invocation> = Vec::new();
        match self {
            SystemPm::Brew => {
                out.push(fixed("brew", &["update"]));
                out.push(fixed("brew", &["upgrade"]));
                proof {
                    assert(out@[0]@.args =~= self.upgrades()[0].args);
                    assert(out@[1]@.args =~= self.upgrades()[1].args);
                }
            },
            SystemPm::Apt => {
                out.push(fixed("sudo", &["apt-get", "update", "-q"]));
                out.push(fixed("sudo", &["apt-get", "upgrade", "-y"]));
                proof {
                    assert(out@[0]@.args =~= self.upgrades()[0].args);
                    assert(out@[1]@.args =~= self.upgrades()[1].args);
                }
            },
            SystemPm::Dnf => {
                out.push(fixed("sudo", &["dnf", "upgrade", "--refresh", "-y"]));
                proof {
                    assert(out@[0]@.args =~= self.upgrades()[0].args);
                }
            },
            SystemPm::Pacman => {
                out.push(fixed("sudo", &["pacman", "-Syu", "--noconfirm"]));
                proof {
                    assert(out@[0]@.args =~= self.upgrades()[0].args);
                }
            },
            SystemPm::Apk => {
                out.push(fixed("sudo", &["apk", "upgrade"]));
                proof {
                    assert(out@[0]@.args =~= self.upgrades()[0].args);
                }
            },
            SystemPm::Zypper => {
                out.push(fixed("sudo", &["zypper", "refresh"]));
                out.push(fixed("sudo", &["zypper", "update", "-y"]));
                proof {
                    assert(out@[0]@.args =~= self.upgrades()[0].args);
                    assert(out@[1]@.args =~= self.upgrades()[1].args);
                }
            },
            SystemPm::Emerge => {
                out.push(fixed("sudo", &["emerge", "--sync"]));
                out.push(fixed("sudo", &["emerge", "--update", "--deep", "--newuse", "@world"]));
                proof {
                    assert(out@[0]@.args =~= self.upgrades()[0].args);
                    assert(out@[1]@.args =~= self.upgrades()[1].args);
                }
            },
            SystemPm::Yum => {
                out.push(fixed("sudo", &["yum", "update", "-y"]));
                proof {
                    assert(out@[0]@.args =~= self.upgrades()[0].args);
                }
            },
            SystemPm::Xbps => {
                out.push(fixed("sudo", &["xbps-install", "-Su"]));
                proof {
                    assert(out@[0]@.args =~= self.upgrades()[0].args);
                }
            },
            SystemPm::Nix => {
                out.push(fixed("nix-channel", &["--update"]));
                out.push(fixed("nix-env", &["-u", "*"]));
                proof {
                    assert(out@[0]@.args =~= self.upgrades()[0].args);
                    assert(out@[1]@.args =~= self.upgrades()[1].args);
                }
            },
        }
        proof {
            assert(invocation_views(out@) =~= self.upgrades());
        }
        out
    }

    /// The call that installs packages; none where there is nothing to install.
    pub fn install(&self, packages: &Vec<String>) -> (r: Option<Invocation>)
        ensures
            match r {
                Some(i) => packages@.len() > 0 && i@ == call(
                    self.installer().0,
                    self.installer().1 + text::views(packages@),
                ),
                None => packages@.len() == 0,
            },
    {
        if packages.len() == 0 {
            return None;
        }
        let i = match self {
            SystemPm::Brew => invocation("brew", &["install"], packages),
            SystemPm::Apt => invocation("sudo", &["apt-get", "install", "-y"], packages),
            SystemPm::Dnf => invocation("sudo", &["dnf", "install", "-y"], packages),
            SystemPm::Pacman => invocation("sudo", &["pacman", "-S", "--noconfirm"], packages),
            SystemPm::Apk => invocation("sudo", &["apk", "add"], packages),
            SystemPm::Zypper => invocation("sudo", &["zypper", "install", "-y"], packages),
            SystemPm::Emerge => invocation("sudo", &["emerge"], packages),
            SystemPm::Yum => invocation("sudo", &["yum", "install", "-y"], packages),
            SystemPm::Xbps => invocation("sudo", &["xbps-install", "-S"], packages),
            SystemPm::Nix => invocation("nix-env", &["-i"], packages),
        };
        proof {
            assert(i@.args =~= self.installer().1 + text::views(packages@));
        }
        Some(i)
    }

    /// The call that removes packages; none where there is nothing to remove.
    pub fn remove(&self, packages: &Vec<String>) -> (r: Option<Invocation>)
        ensures
            match r {
                Some(i) => packages@.len() > 0 && i@ == call(
                    self.remover().0,
                    self.remover().1 + text::views(packages@),
                ),
                None => packages@.len() == 0,
            },
    {
        if packages.len() == 0 {
            return None;
        }
        let i = match self {
            SystemPm::Brew => invocation("brew", &["uninstall"], packages),
            SystemPm::Apt => invocation("sudo", &["apt-get", "remove", "-y"], packages),
            SystemPm::Dnf => invocation("sudo", &["dnf", "remove", "-y"], packages),
            SystemPm::Pacman => invocation("sudo", &["pacman", "-R", "--noconfirm"], packages),
            SystemPm::Apk => invocation("sudo", &["apk", "del"], packages),
            SystemPm::Zypper => invocation("sudo", &["zypper", "remove", "-y"], packages),
            SystemPm::Emerge => invocation("sudo", &["emerge", "--unmerge"], packages),
            SystemPm::Yum => invocation("sudo", &["yum", "remove", "-y"], packages),
            SystemPm::Xbps => invocation("sudo", &["xbps-remove", "-R"], packages),
            SystemPm::Nix => invocation("nix-env", &["-e"], packages),
        };
        proof {
            assert(i@.args =~= self.remover().1 + text::views(packages@));
        }
        Some(i)
    }

    /// The call that lists what is installed.
    pub fn list_command(&self) -> (r: Invocation)
        ensures
            r@ == call(self.lister().0, self.lister().1),
    {
        let i = match self {
            SystemPm::Brew => fixed("brew", &["list", "--versions"]),
            SystemPm::Apt => fixed("dpkg-query", &["-W", "-f=${Package}\\t${Version}\\n"]),
            SystemPm::Dnf => fixed("rpm", &["-qa", "--queryformat", "%{NAME}\t%{VERSION}-%{RELEASE}\n"]),
            SystemPm::Pacman => fixed("pacman", &["-Q"]),
            SystemPm::Apk => fixed("apk", &["info", "-v"]),
            SystemPm::Zypper => fixed("rpm", &["-qa", "--queryformat", "%{NAME}\t%{VERSION}-%{RELEASE}\n"]),
            SystemPm::Emerge => fixed("qlist", &["-ICv"]),
            SystemPm::Yum => fixed("rpm", &["-qa", "--queryformat", "%{NAME}\t%{VERSION}-%{RELEASE}\n"]),
            SystemPm::Xbps => fixed("xbps-query", &["-l"]),
            SystemPm::Nix => fixed("nix-env", &["-q"]),
        };
        proof {
            assert(i@.args =~= self.lister().1);
        }
        i
    }

    /// The packages that the listing reports; none where the listing failed.
    pub fn list_installed(&self, stdout: Option<&[u8]>) -> (r: Vec<Listed>)
        ensures
            match stdout {
                Some(b) => order::shown_all(r@) == listing(self.lister().0, outside::lossy(b@)),
                None => r@.len() == 0,
            },
    {
        match stdout {
            Some(b) => list_installed_with(self.list_command().program.as_str(), lossy_text(b).as_str()),
            None => Vec::new(),
        }
    }

    /// The manager that is used: the first whose program is there.
    pub fn detect(macos: bool, present: &Vec<bool>) -> (r: Option<SystemPm>)
        requires
            present@.len() == candidates(macos).len(),
        ensures
            match r {
                Some(pm) => exists|i: int|
                    0 <= i < present@.len() && #[trigger] present@[i] && pm == candidates(macos)[i].1
                        && forall|j: int| 0 <= j < i ==> !#[trigger] present@[j],
                None => forall|j: int| 0 <= j < present@.len() ==> !#[trigger] present@[j],
            },
    {
        let all = candidate_list(macos);
        for i in 0..present.len()
            invariant
                present@.len() == candidates(macos).len(),
                candidate_views(all@) == candidates(macos),
                forall|j: int| 0 <= j < i ==> !#[trigger] present@[j],
        {
            if present[i] {
                proof {
                    assert(candidate_views(all@).len() == all@.len());
                    assert(candidate_views(all@)[i as int].1 == all@[i as int].1);
                }
                return Some(all[i].1);
            }
        }
        None
    }
}

/// The programs that are looked for, in order, and the managers they stand for.
pub open spec fn candidates(macos: bool) -> Seq<(Seq<char>, SystemPm)> {
    if macos {
        seq![("brew"@, SystemPm::Brew)]
    } else {
        seq![
            ("apt-get"@, SystemPm::Apt),
            ("dnf"@, SystemPm::Dnf),
            ("pacman"@, SystemPm::Pacman),
            ("apk"@, SystemPm::Apk),
            ("zypper"@, SystemPm::Zypper),
            ("emerge"@, SystemPm::Emerge),
            ("yum"@, SystemPm::Yum),
            ("xbps-install"@, SystemPm::Xbps),
            ("nix-env"@, SystemPm::Nix),
            ("brew"@, SystemPm::Brew),
        ]
    }
}

pub open spec fn candidate_views(v: Seq<(&'static str, SystemPm)>) -> Seq<(Seq<char>, SystemPm)> {
    v.map_values(|c: (&'static str, SystemPm)| (c.0@, c.1))
}

pub fn candidate_list(macos: bool) -> (r: Vec<(&'static str, SystemPm)>)
    ensures
        candidate_views(r@) == candidates(macos),
{
    let r = if macos {
        vec![("brew", SystemPm::Brew)]
    } else {
        vec![
            ("apt-get", SystemPm::Apt),
            ("dnf", SystemPm::Dnf),
            ("pacman", SystemPm::Pacman),
            ("apk", SystemPm::Apk),
            ("zypper", SystemPm::Zypper),
            ("emerge", SystemPm::Emerge),
            ("yum", SystemPm::Yum),
            ("xbps-install", SystemPm::Xbps),
            ("nix-env", SystemPm::Nix),
            ("brew", SystemPm::Brew),
        ]
    };
    proof {
        assert(candidate_views(r@) =~= candidates(macos));
    }
    r
}

/// What comes of a call.
pub fn run_outcome(program: &str, success: bool, code: Option<i32>) -> (r: Result<()>)
    ensures
        if success {
            r is Ok
        } else {
            r matches Err(e) && e@ == ErrorView::InstallError(
                program@ + " exited with status "@ + text::signed_decimal(
                    match code {
                        Some(c) => c as int,
                        None => -1,
                    },
                ),
            )
        },
{
    if success {
        return Ok(());
    }
    let n: i32 = match code {
        Some(c) => c,
        None => -1,
    };
    let mut m = String::from_str(program);
    m.append(" exited with status ");
    m.append(signed_number(n).as_str());
    Err(WaxError::InstallError(m))
}

/// What is said when a program cannot be run.
pub fn not_run(program: &str, reason: &str) -> (r: WaxError)
    ensures
        r@ == ErrorView::InstallError("Failed to run "@ + program@ + ": "@ + reason@),
{
    let mut m = String::from_str("Failed to run ");
    m.append(program);
    m.append(": ");
    m.append(reason);
    WaxError::InstallError(m)
}

// ---------------------------------------------------------------------------
// Listings

/// A name and a version with a dash between them, the last one.
pub open spec fn at_last_dash(s: Seq<char>) -> ListedView {
    match text::last_index(s, '-') {
        Some(i) => (s.take(i), Some(s.skip(i + 1))),
        None => (s, None),
    }
}

/// A name and a version with a dash between them, the last one, where the version
/// begins with a digit.
pub open spec fn at_last_digit_dash(s: Seq<char>) -> ListedView {
    match text::last_index(s, '-') {
        Some(i) => if i + 1 < s.len() && '0' <= s[i + 1] <= '9' {
            (s.take(i), Some(s.skip(i + 1)))
        } else {
            (s, None)
        },
        None => (s, None),
    }
}

/// What a line of a listing says, by the program that printed it.
pub open spec fn listed_line(program: Seq<char>, raw: Seq<char>) -> Option<ListedView> {
    let line = text::trim(raw);
    let said = if line.len() == 0 {
        None
    } else if program == "apk"@ {
        Some(at_last_digit_dash(line))
    } else if program == "xbps-query"@ {
        Some(
            at_last_dash(
                match text::strip_prefix(line, "ii "@) {
                    Some(rest) => rest,
                    None => line,
                },
            ),
        )
    } else if program == "nix-env"@ {
        Some(at_last_dash(line))
    } else if line.contains('\t') {
        let (name, version) = query::split_once(line, '\t');
        Some((text::trim(name), Some(text::trim(version->0))))
    } else {
        let w = text::words(line);
        if w.len() == 0 {
            None
        } else {
            Some(
                (
                    w[0],
                    if w.len() > 1 {
                        Some(w[1])
                    } else {
                        None
                    },
                ),
            )
        }
    };
    match said {
        Some(p) => if p.0.len() == 0 {
            None
        } else {
            Some(p)
        },
        None => None,
    }
}

pub open spec fn listed_lines(program: Seq<char>, l: Seq<Seq<char>>) -> Seq<ListedView>
    decreases l.len(),
{
    if l.len() == 0 {
        Seq::empty()
    } else {
        match listed_line(program, l.last()) {
            Some(p) => listed_lines(program, l.drop_last()).push(p),
            None => listed_lines(program, l.drop_last()),
        }
    }
}

/// The packages of a listing, sorted by name, the first of each name.
pub open spec fn listing(program: Seq<char>, text: Seq<char>) -> Seq<ListedView> {
    order::dedup(order::sort(listed_lines(program, text::lines(text))))
}

fn split_at_last_dash(s: &[char]) -> (r: Listed)
    ensures
        r.shown() == at_last_dash(s@),
{
    let n: usize = s.len();
    match last_place(s, '-') {
        Some(i) => {
            let head = part(s, 0, i);
            let tail = part(s, i + 1, n);
            proof {
                assert(head@ =~= s@.take(i as int));
                assert(tail@ =~= s@.skip(i + 1));
            }
            (string_of(head), Some(string_of(tail)))
        },
        None => (string_of(s), None),
    }
}

fn split_at_last_digit_dash(s: &[char]) -> (r: Listed)
    ensures
        r.shown() == at_last_digit_dash(s@),
{
    let n: usize = s.len();
    match last_place(s, '-') {
        Some(i) => if i + 1 < n && '0' <= s[i + 1] && s[i + 1] <= '9' {
            split_at_last_dash(s)
        } else {
            (string_of(s), None)
        },
        None => (string_of(s), None),
    }
}

proof fn one_char_occurs(s: Seq<char>, c: char)
    ensures
        s.contains(c) == text::contains(s, seq![c]),
{
    if s.contains(c) {
        let i = choose|i: int| 0 <= i < s.len() && s[i] == c;
        assert(s.subrange(i, i + 1) =~= seq![c]);
        assert(text::occurs_at(s, seq![c], i));
    }
    if text::contains(s, seq![c]) {
        let i = choose|i: int| text::occurs_at(s, seq![c], i);
        assert(s.subrange(i, i + 1)[0] == c);
        assert(s[i] == c);
    }
}

/// Reads a line of a listing.
fn read_line(program: &str, raw: &[char]) -> (r: Option<Listed>)
    ensures
        match listed_line(program@, raw@) {
            Some(p) => r matches Some(q) && q.shown() == p,
            None => r is None,
        },
{
    let line = trimmed(raw);
    if line.len() == 0 {
        return None;
    }
    let said: Option<Listed> = if same_str(program, "apk") {
        Some(split_at_last_digit_dash(line))
    } else if same_str(program, "xbps-query") {
        match after_prefix(line, "ii ") {
            Some(rest) => Some(split_at_last_dash(rest)),
            None => Some(split_at_last_dash(line)),
        }
    } else if same_str(program, "nix-env") {
        Some(split_at_last_dash(line))
    } else if has_char(line, '\t') {
        proof {
            one_char_occurs(line@, '\t');
        }
        let (name, version) = split_line(line, '\t');
        match version {
            Some(v) => Some((string_of(trimmed(name)), Some(string_of(trimmed(v))))),
            None => None,
        }
    } else {
        let w = words_of(line);
        let ghost s = text::slices(w@);
        proof {
            assert(s.len() == w@.len());
        }
        if w.len() == 0 {
            None
        } else {
            proof {
                assert(s[0] == w@[0]@);
            }
            let version = if w.len() > 1 {
                proof {
                    assert(s[1] == w@[1]@);
                }
                Some(string_of(w[1]))
            } else {
                None
            };
            Some((string_of(w[0]), version))
        }
    };
    match said {
        Some(p) => if p.0.as_str().is_empty() {
            None
        } else {
            Some(p)
        },
        None => None,
    }
}

/// The packages that a listing reports.
pub fn list_installed_with(program: &str, output: &str) -> (r: Vec<Listed>)
    ensures
        order::shown_all(r@) == listing(program@, output@),
{
    let c = chars_of(output);
    let l = lines_of(c.as_slice());
    let ghost s = text::slices(l@);
    let mut out: Vec<Listed> = Vec::new();
    proof {
        assert(order::shown_all(out@) =~= listed_lines(program@, s.take(0)));
    }
    for i in 0..l.len()
        invariant
            s == text::slices(l@),
            order::shown_all(out@) == listed_lines(program@, s.take(i as int)),
    {
        let ghost before = order::shown_all(out@);
        proof {
            assert(s.take(i + 1).drop_last() =~= s.take(i as int));
            assert(s.take(i + 1).last() == l@[i as int]@);
        }
        match read_line(program, l[i]) {
            Some(p) => {
                let ghost x = p.shown();
                out.push(p);
                proof {
                    assert(order::shown_all(out@) =~= before.push(x));
                }
            },
            None => {},
        }
    }
    proof {
        assert(s.take(s.len() as int) =~= s);
    }
    sort_by_key(&mut out);
    dedup_by_key(&mut out);
    out
}

/// A listing names no package twice, and its names are in order.
pub proof fn listing_is_strict(program: Seq<char>, output: Seq<char>)
    ensures
        forall|i: int, j: int|
            0 <= i < j < listing(program, output).len() ==> order::less(
                (#[trigger] listing(program, output)[i]).0,
                (#[trigger] listing(program, output)[j]).0,
            ),
{
    let s = order::sort(listed_lines(program, text::lines(output)));
    order::sort_orders(listed_lines(program, text::lines(output)));
    order::dedup_of_ordered_is_strict(s);
    let l = listing(program, output);
    assert forall|i: int, j: int| 0 <= i < j < l.len() implies order::less(
        (#[trigger] l[i]).0,
        (#[trigger] l[j]).0,
    ) by {
        assert(order::less(l[i].key(), l[j].key()));
    }
}

// ---------------------------------------------------------------------------
// Casks on Linux

/// A way to install a cask on Linux.
#[derive(Debug, Clone, Copy, PartialEq, Eq, Structural)]
pub enum CaskAttempt {
    /// The artifact that Homebrew's cask names for Linux.
    Artifact,
    Snap,
    /// Some snaps need classic confinement.
    SnapClassic,
    Flatpak,
    Native,
}

/// The ways to install a cask, in the order in which they are tried.
pub open spec fn attempts(artifact: bool, snap: bool, flatpak: bool) -> Seq<CaskAttempt> {
    (if artifact {
        seq![CaskAttempt::Artifact]
    } else {
        seq![]
    }) + (if snap {
        seq![CaskAttempt::Snap, CaskAttempt::SnapClassic]
    } else {
        seq![]
    }) + (if flatpak {
        seq![CaskAttempt::Flatpak]
    } else {
        seq![]
    }) + seq![CaskAttempt::Native]
}

pub fn cask_attempts(artifact: bool, snap: bool, flatpak: bool) -> (r: Vec<CaskAttempt>)
    ensures
        r@ == attempts(artifact, snap, flatpak),
{
    let mut out: Vec<CaskAttempt> = Vec::new();
    if artifact {
        out.push(CaskAttempt::Artifact);
    }
    if snap {
        out.push(CaskAttempt::Snap);
        out.push(CaskAttempt::SnapClassic);
    }
    if flatpak {
        out.push(CaskAttempt::Flatpak);
    }
    out.push(CaskAttempt::Native);
    proof {
        assert(out@ =~= attempts(artifact, snap, flatpak));
    }
    out
}

/// The manager's own packages are always tried, and only when all else failed.
pub proof fn native_comes_last(artifact: bool, snap: bool, flatpak: bool)
    ensures
        attempts(artifact, snap, flatpak).last() == CaskAttempt::Native,
        forall|i: int|
            0 <= i < attempts(artifact, snap, flatpak).len() - 1 ==> attempts(
                artifact,
                snap,
                flatpak,
            )[i] != CaskAttempt::Native,
{
}

/// The call of an attempt; the artifact is downloaded first and has none here.
pub open spec fn attempt_call(pm: SystemPm, a: CaskAttempt, cask: Seq<char>) -> Option<InvocationView> {
    match a {
        CaskAttempt::Artifact => None,
        CaskAttempt::Snap => Some(call("snap"@, seq!["install"@, cask])),
        CaskAttempt::SnapClassic => Some(call("snap"@, seq!["install"@, "--classic"@, cask])),
        CaskAttempt::Flatpak => Some(
            call("flatpak"@, seq!["install"@, "-y"@, "flathub"@, cask]),
        ),
        CaskAttempt::Native => Some(call(pm.installer().0, pm.installer().1 + seq![cask])),
    }
}

pub fn attempt_command(pm: SystemPm, a: CaskAttempt, cask: &str) -> (r: Option<Invocation>)
    ensures
        match r {
            Some(i) => attempt_call(pm, a, cask@) == Some(i@),
            None => attempt_call(pm, a, cask@) is None,
        },
{
    let mut names: Vec<String> = Vec::new();
    names.push(String::from_str(cask));
    proof {
        assert(text::views(names@) =~= seq![cask@]);
    }
    match a {
        CaskAttempt::Artifact => None,
        CaskAttempt::Snap => {
            let i = invocation("snap", &["install"], &names);
            proof {
                assert(i@.args =~= seq!["install"@, cask@]);
            }
            Some(i)
        },
        CaskAttempt::SnapClassic => {
            let i = invocation("snap", &["install", "--classic"], &names);
            proof {
                assert(i@.args =~= seq!["install"@, "--classic"@, cask@]);
            }
            Some(i)
        },
        CaskAttempt::Flatpak => {
            let i = invocation("flatpak", &["install", "-y", "flathub"], &names);
            proof {
                assert(i@.args =~= seq!["install"@, "-y"@, "flathub"@, cask@]);
            }
            Some(i)
        },
        CaskAttempt::Native => pm.install(&names),
    }
}

/// The call that makes Flathub known.
pub open spec fn flathub_call() -> InvocationView {
    call(
        "flatpak"@,
        seq![
            "remote-add"@,
            "--if-not-exists"@,
            "flathub"@,
            "https://dl.flathub.org/repo/flathub.flatpakrepo"@,
        ],
    )
}

/// The call that makes Flathub known.
pub fn flathub_command() -> (r: Invocation)
    ensures
        r@ == flathub_call(),
{
    let i = fixed(
        "flatpak",
        &[
            "remote-add",
            "--if-not-exists",
            "flathub",
            "https://dl.flathub.org/repo/flathub.flatpakrepo",
        ],
    );
    proof {
        assert(i@.args =~= seq![
            "remote-add"@,
            "--if-not-exists"@,
            "flathub"@,
            "https://dl.flathub.org/repo/flathub.flatpakrepo"@,
        ]);
    }
    i
}

/// The calls of an attempt, in their order. The last one decides whether it
/// succeeded. Before Flatpak is asked, Flathub is made known to it.
pub open spec fn attempt_calls(pm: SystemPm, a: CaskAttempt, cask: Seq<char>) -> Seq<InvocationView> {
    match attempt_call(pm, a, cask) {
        Some(last) => if a == CaskAttempt::Flatpak {
            seq![flathub_call(), last]
        } else {
            seq![last]
        },
        None => Seq::empty(),
    }
}

pub fn attempt_commands(pm: SystemPm, a: CaskAttempt, cask: &str) -> (r: Vec<Invocation>)
    ensures
        invocation_views(r@) == attempt_calls(pm, a, cask@),
{
    let mut out: Vec<Invocation> = Vec::new();
    match attempt_command(pm, a, cask) {
        Some(last) => {
            match a {
                CaskAttempt::Flatpak => out.push(flathub_command()),
                _ => {},
            }
            out.push(last);
        },
        None => {},
    }
    proof {
        assert(invocation_views(out@) =~= attempt_calls(pm, a, cask@));
    }
    out
}

/// The extension of an address, without its query, before its case is folded.
pub open spec fn url_extension(url: Seq<char>) -> Seq<char> {
    text::split(text::split(url, '?')[0], '.').last()
}

/// The type of an artifact, by the extension of its address.
pub fn artifact_extension(url: &str) -> (r: String)
    ensures
        r@ == outside::lowercase(url_extension(url@)),
{
    let c = chars_of(url);
    let p = pieces(c.as_slice(), '?');
    let d = pieces(p[0], '.');
    proof {
        assert(text::slices(p@)[0] == p@[0]@);
        assert(text::slices(d@).last() == d@[d@.len() - 1]@);
    }
    let ext = string_of(d[d.len() - 1]);
    lowercased(ext.as_str())
}

/// An artifact has to have the checksum that the cask states, if it states one.
pub open spec fn artifact_fault(
    name: Seq<char>,
    computed: Seq<char>,
    sha256: Option<Seq<char>>,
) -> Option<ErrorView> {
    match sha256 {
        Some(expected) => if computed == expected {
            None
        } else {
            Some(
                ErrorView::InstallError(
                    name + " checksum mismatch: expected "@ + expected + ", got "@ + computed,
                ),
            )
        },
        None => None,
    }
}

pub fn check_artifact_hash(name: &str, computed: &str, sha256: Option<&str>) -> (r: Result<()>)
    ensures
        match r {
            Ok(_) => artifact_fault(name@, computed@, crate::ui::dirs::str_view(sha256)) is None,
            Err(e) => artifact_fault(name@, computed@, crate::ui::dirs::str_view(sha256)) == Some(e@),
        },
{
    match sha256 {
        Some(expected) => if same_str(computed, expected) {
            Ok(())
        } else {
            let mut m = String::from_str(name);
            m.append(" checksum mismatch: expected ");
            m.append(expected);
            m.append(", got ");
            m.append(computed);
            Err(WaxError::InstallError(m))
        },
        None => Ok(()),
    }
}

pub fn check_artifact(name: &str, bytes: &[u8], sha256: Option<&str>) -> (r: Result<()>)
    ensures
        match r {
            Ok(_) => artifact_fault(
                name@,
                outside::sha256_of(bytes@),
                crate::ui::dirs::str_view(sha256),
            ) is None,
            Err(e) => artifact_fault(
                name@,
                outside::sha256_of(bytes@),
                crate::ui::dirs::str_view(sha256),
            ) == Some(e@),
        },
{
    check_artifact_hash(name, sha256_hex(bytes).as_str(), sha256)
}

/// What is done with an artifact that was downloaded.
#[derive(Debug)]
pub enum ArtifactStep {
    Run(Invocation),
    /// It is copied to `dest`, in the directory `dir`, and then the call is made.
    Copy { dir: String, dest: String, mark: Invocation },
}

pub enum StepView {
    Run(InvocationView),
    Copy { dir: Seq<char>, dest: Seq<char>, mark: InvocationView },
}

impl View for ArtifactStep {
    type V = StepView;

    open spec fn view(&self) -> StepView {
        match self {
            ArtifactStep::Run(i) => StepView::Run(i@),
            ArtifactStep::Copy { dir, dest, mark } => StepView::Copy {
                dir: dir@,
                dest: dest@,
                mark: mark@,
            },
        }
    }
}

/// An `ArtifactStep` is seen as what it holds.
pub proof fn artifact_step_is_seen_as_it_is(x: ArtifactStep)
    ensures
        x matches ArtifactStep::Run(i) ==> x@ == (StepView::Run(i@)),
        x matches ArtifactStep::Copy { dir, dest, mark } ==> x@ == (StepView::Copy {
            dir: dir@,
            dest: dest@,
            mark: mark@,
        }),
{
}

/// Debian and Red Hat packages are handed to their managers, an AppImage becomes a
/// program of the user.
pub open spec fn artifact_step(
    ext: Seq<char>,
    file: Seq<char>,
    name: Seq<char>,
    home: Option<Seq<char>>,
) -> Option<StepView> {
    let dir = (match home {
        Some(h) => h,
        None => "/tmp"@,
    }) + "/.local/bin"@;
    let dest = dir + "/"@ + name + ".AppImage"@;
    if ext == "deb"@ {
        Some(StepView::Run(call("sudo"@, seq!["dpkg"@, "-i"@, file])))
    } else if ext == "rpm"@ {
        Some(StepView::Run(call("sudo"@, seq!["rpm"@, "-i"@, "--force"@, file])))
    } else if ext == "appimage"@ {
        Some(StepView::Copy { dir, dest, mark: call("chmod"@, seq!["+x"@, dest]) })
    } else {
        None
    }
}

pub fn install_linux_artifact(ext: &str, file: &str, name: &str, home: Option<&str>) -> (r: Result<
    ArtifactStep,
>)
    ensures
        match r {
            Ok(s) => artifact_step(ext@, file@, name@, crate::ui::dirs::str_view(home)) == Some(s@),
            Err(e) => artifact_step(ext@, file@, name@, crate::ui::dirs::str_view(home)) is None && e@
                == ErrorView::InstallError(
                "Unsupported artifact extension '."@ + ext@ + "' from Homebrew cask .rb"@,
            ),
        },
{
    let mut files: Vec<String> = Vec::new();
    files.push(String::from_str(file));
    proof {
        assert(text::views(files@) =~= seq![file@]);
    }
    if same_str(ext, "deb") {
        let i = invocation("sudo", &["dpkg", "-i"], &files);
        proof {
            assert(i@.args =~= seq!["dpkg"@, "-i"@, file@]);
        }
        return Ok(ArtifactStep::Run(i));
    }
    if same_str(ext, "rpm") {
        let i = invocation("sudo", &["rpm", "-i", "--force"], &files);
        proof {
            assert(i@.args =~= seq!["rpm"@, "-i"@, "--force"@, file@]);
        }
        return Ok(ArtifactStep::Run(i));
    }
    if same_str(ext, "appimage") {
        let mut dir = match home {
            Some(h) => String::from_str(h),
            None => String::from_str("/tmp"),
        };
        dir.append("/.local/bin");
        let mut dest = dir.clone();
        dest.append("/");
        dest.append(name);
        dest.append(".AppImage");
        let mut dests: Vec<String> = Vec::new();
        dests.push(dest.clone());
        proof {
            assert(text::views(dests@) =~= seq![dest@]);
        }
        let mark = invocation("chmod", &["+x"], &dests);
        proof {
            assert(mark@.args =~= seq!["+x"@, dest@]);
        }
        return Ok(ArtifactStep::Copy { dir, dest, mark });
    }
    let mut m = String::from_str("Unsupported artifact extension '.");
    m.append(ext);
    m.append("' from Homebrew cask .rb");
    Err(WaxError::InstallError(m))
}

// ---------------------------------------------------------------------------
// Laws

/// The program that does a manager's work: the one behind `sudo`, or the one that is
/// called.
pub open spec fn front(i: (Seq<char>, Seq<Seq<char>>)) -> Seq<char> {
    if i.0 == "sudo"@ {
        i.1[0]
    } else {
        i.0
    }
}

/// Removing goes the way that installing goes: with the rights of the administrator
/// exactly where installing needs them, and through the same program, but for the one
/// manager that has a program of its own for it.
pub proof fn removing_goes_as_installing(pm: SystemPm)
    ensures
        pm.installer().0 == pm.remover().0,
        pm.installer().0 == "sudo"@ <==> pm != SystemPm::Brew && pm != SystemPm::Nix,
        pm != SystemPm::Xbps ==> front(pm.installer()) == front(pm.remover()),
        pm.installer().1 != pm.remover().1,
{
    reveal_strlit("sudo");
    reveal_strlit("brew");
    reveal_strlit("nix-env");
    reveal_strlit("install");
    reveal_strlit("uninstall");
    reveal_strlit("remove");
    reveal_strlit("-S");
    reveal_strlit("-R");
    reveal_strlit("add");
    reveal_strlit("del");
    reveal_strlit("xbps-install");
    reveal_strlit("xbps-remove");
    reveal_strlit("-i");
    reveal_strlit("-e");
    assert("sudo"@[0] == 's' && "brew"@[0] == 'b' && "nix-env"@[0] == 'n');
    assert("install"@.len() == 7 && "uninstall"@.len() == 9 && "remove"@.len() == 6);
    assert("-S"@[1] == 'S' && "-R"@[1] == 'R' && "-i"@[1] == 'i' && "-e"@[1] == 'e');
    assert("add"@[0] == 'a' && "del"@[0] == 'd');
    assert("xbps-install"@.len() == 12 && "xbps-remove"@.len() == 11);
    match pm {
        SystemPm::Brew => {
            assert(pm.installer().1[0] != pm.remover().1[0]);
        },
        SystemPm::Emerge => {
            assert(pm.installer().1.len() != pm.remover().1.len());
        },
        SystemPm::Xbps => {
            assert(pm.installer().1[0] != pm.remover().1[0]);
        },
        SystemPm::Nix => {
            assert(pm.installer().1[0] != pm.remover().1[0]);
        },
        _ => {
            assert(pm.installer().1[1] != pm.remover().1[1]);
        },
    }
}

/// A manager that asks before it goes on is told not to, both when it installs and when
/// it removes.
pub proof fn managers_do_not_ask(pm: SystemPm)
    ensures
        pm == SystemPm::Apt || pm == SystemPm::Dnf || pm == SystemPm::Zypper || pm == SystemPm::Yum
            ==> pm.installer().1.last() == "-y"@ && pm.remover().1.last() == "-y"@
            && pm.upgrades().last().args.last() == "-y"@,
        pm == SystemPm::Pacman ==> pm.installer().1.last() == "--noconfirm"@
            && pm.remover().1.last() == "--noconfirm"@ && pm.upgrades().last().args.last()
            == "--noconfirm"@,
{
}

/// A manager is looked for by the program that it works through; each is looked for,
/// and on macOS only the one.
pub proof fn managers_are_looked_for(i: int, pm: SystemPm)
    requires
        0 <= i < 10,
    ensures
        candidates(false).len() == 10,
        candidates(false)[i].0 == front(candidates(false)[i].1.installer()),
        exists|j: int| 0 <= j < 10 && (#[trigger] candidates(false)[j]).1 == pm,
        candidates(true) == seq![("brew"@, SystemPm::Brew)],
        candidates(false).last().1 == SystemPm::Brew,
{
    reveal_strlit("sudo");
    reveal_strlit("brew");
    reveal_strlit("nix-env");
    assert("sudo"@[0] == 's' && "brew"@[0] == 'b' && "nix-env"@[0] == 'n');
    let c = candidates(false);
    assert(c[0].1 == SystemPm::Apt && c[1].1 == SystemPm::Dnf && c[2].1 == SystemPm::Pacman);
    assert(c[3].1 == SystemPm::Apk && c[4].1 == SystemPm::Zypper && c[5].1 == SystemPm::Emerge);
    assert(c[6].1 == SystemPm::Yum && c[7].1 == SystemPm::Xbps && c[8].1 == SystemPm::Nix);
    assert(c[9].1 == SystemPm::Brew);
}

/// The order in which managers are looked for: what replaced another comes before it,
/// and what may stand beside a system's own comes last.
pub proof fn own_managers_come_first(i: int, j: int)
    requires
        0 <= i < j < 10,
    ensures
        candidates(false)[j].1 != SystemPm::Apt,
        candidates(false)[i].1 != SystemPm::Brew,
        candidates(false)[i].1 == SystemPm::Yum ==> candidates(false)[j].1 != SystemPm::Dnf,
        candidates(false)[i].1 == SystemPm::Nix ==> candidates(false)[j].1 == SystemPm::Brew,
{
}

/// An upgrade goes through the manager's own program, with the rights that installing
/// needs; the index is refreshed before anything is upgraded.
pub proof fn upgrades_go_through_the_manager(pm: SystemPm, i: int)
    requires
        0 <= i < pm.upgrades().len(),
    ensures
        pm.installer().0 == "sudo"@ ==> pm.upgrades()[i].program == "sudo"@ && pm.upgrades()[i].args[0]
            == front(pm.installer()),
        pm == SystemPm::Brew ==> pm.upgrades()[i].program == "brew"@,
        pm.upgrades().len() == if pm == SystemPm::Brew || pm == SystemPm::Apt || pm
            == SystemPm::Zypper || pm == SystemPm::Emerge || pm == SystemPm::Nix {
            2nat
        } else {
            1nat
        },
        pm == SystemPm::Pacman ==> pm.upgrades()[i].args[1] == "-Syu"@,
        pm == SystemPm::Xbps ==> pm.upgrades()[i].args[1] == "-Su"@,
        pm == SystemPm::Apk ==> pm.upgrades()[i].args[1] == "upgrade"@,
        pm == SystemPm::Yum ==> pm.upgrades()[i].args[1] == "update"@,
        pm == SystemPm::Zypper ==> pm.upgrades()[0].args[1] == "refresh"@
            && pm.upgrades()[1].args[1] == "update"@,
{
    reveal_strlit("sudo");
    reveal_strlit("brew");
    reveal_strlit("nix-env");
    assert("sudo"@[0] == 's' && "brew"@[0] == 'b' && "nix-env"@[0] == 'n');
}

/// The managers of rpm list packages in one way, and each other asks the program that
/// knows what its own database holds.
pub proof fn listings_are_asked_for(pm: SystemPm)
    ensures
        pm == SystemPm::Zypper || pm == SystemPm::Yum ==> pm.lister() == SystemPm::Dnf.lister(),
        pm == SystemPm::Dnf ==> pm.lister().0 == "rpm"@,
        pm == SystemPm::Apt ==> pm.lister().0 == "dpkg-query"@,
        pm == SystemPm::Pacman ==> pm.lister() == ("pacman"@, seq!["-Q"@]),
        pm == SystemPm::Apk ==> pm.lister() == ("apk"@, seq!["info"@, "-v"@]),
        pm == SystemPm::Xbps ==> pm.lister() == ("xbps-query"@, seq!["-l"@]),
        pm == SystemPm::Nix ==> pm.lister() == ("nix-env"@, seq!["-q"@]),
        pm == SystemPm::Emerge ==> pm.lister() == ("qlist"@, seq!["-ICv"@]),
        pm == SystemPm::Brew ==> pm.lister() == ("brew"@, seq!["list"@, "--versions"@]),
{
}

proof fn programs_differ()
    ensures
        "apk"@ != "xbps-query"@ && "apk"@ != "nix-env"@ && "xbps-query"@ != "nix-env"@,
{
    reveal_strlit("apk");
    reveal_strlit("xbps-query");
    reveal_strlit("nix-env");
    assert("apk"@.len() == 3 && "xbps-query"@.len() == 10 && "nix-env"@.len() == 7);
}

proof fn dashed_line(name: Seq<char>, version: Seq<char>)
    requires
        name.len() > 0,
        !text::is_space(name[0]),
        version.len() > 0,
        !text::is_space(version.last()),
        !version.contains('-'),
    ensures
        ({
            let line = name.push('-') + version;
            &&& text::trim(line) == line
            &&& at_last_dash(line) == (name, Some(version))
            &&& at_last_digit_dash(line) == if '0' <= version[0] <= '9' {
                (name, Some(version))
            } else {
                (line, None)
            }
        }),
{
    let line = name.push('-') + version;
    let none = Seq::<char>::empty();
    assert(line[0] == name[0] && line.last() == version.last());
    text::trimming_keeps_the_middle(none, line, none);
    text::last_index_is_last(name, '-', version);
    let at = name.len() as int;
    assert(line.take(at) =~= name);
    assert(line.skip(at + 1) =~= version);
    assert(line[at + 1] == version[0]);
}

/// A package of Nix is listed with the name before the last dash of its line and the
/// version behind it; Alpine's only where a digit follows the dash.
pub proof fn dashed_lines_are_read(name: Seq<char>, version: Seq<char>)
    requires
        name.len() > 0,
        !text::is_space(name[0]),
        version.len() > 0,
        !text::is_space(version.last()),
        !version.contains('-'),
    ensures
        listed_line("nix-env"@, name.push('-') + version) == Some((name, Some(version))),
        '0' <= version[0] <= '9' ==> listed_line("apk"@, name.push('-') + version) == Some(
            (name, Some(version)),
        ),
        !('0' <= version[0] <= '9') ==> listed_line("apk"@, name.push('-') + version) == Some(
            (name.push('-') + version, None::<Seq<char>>),
        ),
{
    programs_differ();
    dashed_line(name, version);
}

/// A package of Void is listed in the same way as Nix's, with or without a mark before
/// it.
pub proof fn marked_lines_are_read(name: Seq<char>, version: Seq<char>)
    requires
        name.len() > 0,
        !text::is_space(name[0]),
        version.len() > 0,
        !text::is_space(version.last()),
        !version.contains('-'),
    ensures
        !text::starts_with(name.push('-') + version, "ii "@) ==> listed_line(
            "xbps-query"@,
            name.push('-') + version,
        ) == Some((name, Some(version))),
        listed_line("xbps-query"@, "ii "@ + (name.push('-') + version)) == Some(
            (name, Some(version)),
        ),
{
    programs_differ();
    dashed_line(name, version);
    let line = name.push('-') + version;
    let none = Seq::<char>::empty();
    reveal_strlit("ii ");
    let marked = "ii "@ + line;
    assert(line.last() == version.last());
    assert(marked[0] == 'i' && marked.last() == line.last());
    text::seen_characters_are_no_space('i');
    text::trimming_keeps_the_middle(none, marked, none);
    text::stripping_undoes_prefixing("ii "@, line);
}

/// Any other program lists the name before a tab and the version behind it.
pub proof fn tabbed_lines_are_read(program: Seq<char>, name: Seq<char>, version: Seq<char>)
    requires
        program != "apk"@,
        program != "xbps-query"@,
        program != "nix-env"@,
        name.len() > 0,
        !name.contains('\t'),
        !text::is_space(name[0]),
        !text::is_space(name.last()),
        version.len() > 0,
        !text::is_space(version[0]),
        !text::is_space(version.last()),
    ensures
        listed_line(program, name.push('\t') + version) == Some((name, Some(version))),
{
    let none = Seq::<char>::empty();
    text::trimming_keeps_the_middle(none, name, none);
    text::trimming_keeps_the_middle(none, version, none);
    let a = name.push('\t') + version;
    assert(a[0] == name[0] && a.last() == version.last());
    text::trimming_keeps_the_middle(none, a, none);
    assert(a[name.len() as int] == '\t');
    assert(a =~= name + seq!['\t'] + version);
    assert forall|j: int| 0 <= j < name.len() implies !text::occurs_at(
        name + seq!['\t'] + version,
        seq!['\t'],
        j,
    ) by {
        if text::occurs_at(name + seq!['\t'] + version, seq!['\t'], j) {
            assert(a.subrange(j, j + 1)[0] == name[j]);
            assert(name.contains(name[j]));
        }
    }
    text::position_of_first(name, seq!['\t'], version);
}

/// In a line without a tab, the first word is the name and the second, if there is one,
/// the version.
pub proof fn words_of_lines_are_read(program: Seq<char>, line: Seq<char>)
    requires
        program != "apk"@,
        program != "xbps-query"@,
        program != "nix-env"@,
        text::trim(line).len() > 0,
        !text::trim(line).contains('\t'),
        text::words(text::trim(line)).len() > 0,
    ensures
        listed_line(program, line) matches Some(p) && p.0 == text::words(text::trim(line))[0] && p.1
            == if text::words(text::trim(line)).len() > 1 {
            Some(text::words(text::trim(line))[1])
        } else {
            None
        },
{
    text::words_are_nonempty(text::trim(line), 0);
}

/// An empty line lists nothing; each other is listed.
pub proof fn lines_are_listed(program: Seq<char>, l: Seq<Seq<char>>, line: Seq<char>, p: ListedView)
    ensures
        text::trim(line).len() == 0 ==> listed_line(program, line) is None,
        listed_line(program, line) == Some(p) ==> listed_lines(program, l.push(line))
            == listed_lines(program, l).push(p),
        listed_line(program, line) is None ==> listed_lines(program, l.push(line)) == listed_lines(
            program,
            l,
        ),
        listed_lines(program, Seq::empty()).len() == 0,
{
    assert(l.push(line).drop_last() =~= l);
}

/// A cask is tried as what is there allows: what is not there is not tried, and each
/// thing that is tried comes before the next.
pub proof fn attempts_are_what_is_there(artifact: bool, snap: bool, flatpak: bool)
    ensures
        ({
            let a = attempts(artifact, snap, flatpak);
            &&& a.contains(CaskAttempt::Artifact) <==> artifact
            &&& a.contains(CaskAttempt::Snap) <==> snap
            &&& a.contains(CaskAttempt::SnapClassic) <==> snap
            &&& a.contains(CaskAttempt::Flatpak) <==> flatpak
            &&& artifact ==> a[0] == CaskAttempt::Artifact
            &&& flatpak ==> a[a.len() - 2] == CaskAttempt::Flatpak
            &&& snap ==> a[if artifact {
                1int
            } else {
                0int
            }] == CaskAttempt::Snap && a[if artifact {
                2int
            } else {
                1int
            }] == CaskAttempt::SnapClassic
        }),
{
    let a = attempts(artifact, snap, flatpak);
    let s = if artifact {
        1int
    } else {
        0int
    };
    let f = s + if snap {
        2int
    } else {
        0int
    };
    if artifact {
        assert(a[0] == CaskAttempt::Artifact);
    }
    if snap {
        assert(a[s] == CaskAttempt::Snap);
        assert(a[s + 1] == CaskAttempt::SnapClassic);
    }
    if flatpak {
        assert(a[f] == CaskAttempt::Flatpak);
    }
}

/// Every attempt names the cask last; the one that is native installs it as any
/// package, and Flathub is made known before it is asked.
pub proof fn attempts_name_the_cask(pm: SystemPm, a: CaskAttempt, cask: Seq<char>)
    ensures
        a == CaskAttempt::Artifact <==> attempt_call(pm, a, cask) is None,
        attempt_call(pm, a, cask) matches Some(c) ==> c.args.len() > 0 && c.args.last() == cask,
        a == CaskAttempt::Snap ==> attempt_call(pm, a, cask)->0.program == "snap"@ && attempt_call(
            pm,
            a,
            cask,
        )->0.args.len() == 2,
        a == CaskAttempt::SnapClassic ==> attempt_call(pm, a, cask)->0.program == "snap"@
            && attempt_call(pm, a, cask)->0.args[1] == "--classic"@,
        a == CaskAttempt::Flatpak ==> attempt_call(pm, a, cask)->0.program == "flatpak"@
            && attempt_calls(pm, a, cask).len() == 2 && attempt_calls(pm, a, cask)[0].args.contains(
            "flathub"@,
        ),
        a != CaskAttempt::Flatpak && a != CaskAttempt::Artifact ==> attempt_calls(pm, a, cask)
            == seq![attempt_call(pm, a, cask)->0],
        attempt_calls(pm, CaskAttempt::Artifact, cask).len() == 0,
        a == CaskAttempt::Native ==> attempt_call(pm, a, cask)->0.program == pm.installer().0
            && attempt_call(pm, a, cask)->0.args == pm.installer().1.push(cask),
        attempt_call(pm, a, cask) is Some ==> attempt_calls(pm, a, cask).last() == attempt_call(
            pm,
            a,
            cask,
        )->0,
{
    if a == CaskAttempt::Native {
        assert(pm.installer().1 + seq![cask] =~= pm.installer().1.push(cask));
    }
    assert(flathub_call().args[2] == "flathub"@);
}

/// The ending of an address stands behind its last dot, without what is asked of it.
pub proof fn endings_stand_behind_the_last_dot(base: Seq<char>, ext: Seq<char>, asked: Seq<char>)
    requires
        !base.contains('?'),
        !ext.contains('?'),
        !ext.contains('.'),
    ensures
        url_extension(base.push('.') + ext) == ext,
        url_extension((base.push('.') + ext).push('?') + asked) == ext,
{
    let url = base.push('.') + ext;
    assert(!url.contains('?')) by {
        if url.contains('?') {
            let i = choose|i: int| 0 <= i < url.len() && url[i] == '?';
            if i < base.len() {
                assert(base.contains(base[i]));
            } else if i > base.len() {
                assert(ext.contains(ext[i - base.len() - 1]));
            }
        }
    }
    text::plain_is_one_piece(url, '?');
    text::split_of_both(url, asked, '?');
    text::split_of_both(base, ext, '.');
    text::plain_is_one_piece(ext, '.');
}

/// An artifact is refused exactly where a checksum is given and its own is another.
pub proof fn artifacts_are_checked(name: Seq<char>, computed: Seq<char>, expected: Seq<char>)
    ensures
        artifact_fault(name, computed, None) is None,
        artifact_fault(name, computed, Some(expected)) is None <==> computed == expected,
{
}

/// An artifact is installed by the tool of its kind; an image is copied below the home
/// directory of the user, under its name, and made executable there.
pub proof fn artifacts_are_installed_by_kind(
    ext: Seq<char>,
    file: Seq<char>,
    name: Seq<char>,
    home: Seq<char>,
    any: Option<Seq<char>>,
)
    ensures
        artifact_step("deb"@, file, name, any) matches Some(StepView::Run(c)) && c.program
            == "sudo"@ && c.args[0] == "dpkg"@ && c.args.last() == file,
        artifact_step("rpm"@, file, name, any) matches Some(StepView::Run(c)) && c.program
            == "sudo"@ && c.args[0] == "rpm"@ && c.args.last() == file,
        artifact_step("appimage"@, file, name, Some(home)) matches Some(
            StepView::Copy { dir, dest, mark },
        ) && dir == home + "/.local/bin"@ && dest == dir + "/"@ + name + ".AppImage"@ && mark.program
            == "chmod"@ && mark.args.last() == dest,
        artifact_step("appimage"@, file, name, None) matches Some(
            StepView::Copy { dir, dest, mark },
        ) && dir == "/tmp"@ + "/.local/bin"@,
        ext != "deb"@ && ext != "rpm"@ && ext != "appimage"@ ==> artifact_step(ext, file, name, any)
            is None,
{
    reveal_strlit("deb");
    reveal_strlit("rpm");
    reveal_strlit("appimage");
    assert("deb"@[0] == 'd' && "rpm"@[0] == 'r' && "appimage"@[0] == 'a');
}

/// Flathub is made known where it is not yet, by its own address.
pub proof fn flathub_is_made_known()
    ensures
        flathub_call().program == "flatpak"@,
        flathub_call().args == seq![
            "remote-add"@,
            "--if-not-exists"@,
            "flathub"@,
            "https://dl.flathub.org/repo/flathub.flatpakrepo"@,
        ],
{
}

}
