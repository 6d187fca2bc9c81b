//! Diagnosing an installation: what is found, and what is said of it.
use crate::install::{InstallState, InstalledPackage, InstalledView};
use crate::paths::{below, components_of, path_in};
use crate::table::Table;
use crate::text::{
    chars_of, has, joined, lines_of, number, parsed_u64, pieces, same_str, string_of, trimmed,
    words_of,
};
use crate::ui::dirs;
use crate::{paths, table, text};
use vstd::prelude::*;

verus! {

// ---------------------------------------------------------------------------
// Findings

/// How a finding counts.
#[derive(Debug, Clone, Copy, PartialEq, Eq, Structural)]
pub enum Mark {
    Pass,
    Warn,
    Fail,
    Fixed,
}

/// Something that was found.
#[derive(Debug)]
pub struct Finding {
    pub mark: Mark,
    pub message: String,
}

/// The mathematical content of a `Finding`.
pub struct FindingView {
    pub mark: Mark,
    pub message: Seq<char>,
}

impl View for Finding {
    type V = FindingView;

    open spec fn view(&self) -> FindingView {
        FindingView { mark: self.mark, message: self.message@ }
    }
}

/// A `Finding` is seen as what it holds.
pub proof fn finding_is_seen_as_it_is(x: Finding)
    ensures
        x@.mark == x.mark,
        x@.message == x.message@,
{
}

pub open spec fn finding(mark: Mark, message: Seq<char>) -> FindingView {
    FindingView { mark, message }
}

/// How many findings count in a way.
pub open spec fn count(s: Seq<FindingView>, mark: Mark) -> nat
    decreases s.len(),
{
    if s.len() == 0 {
        0
    } else {
        count(s.drop_last(), mark) + if s.last().mark == mark {
            1nat
        } else {
            0nat
        }
    }
}

proof fn count_is_bounded(s: Seq<FindingView>, mark: Mark)
    ensures
        count(s, mark) <= s.len(),
    decreases s.len(),
{
    if s.len() > 0 {
        count_is_bounded(s.drop_last(), mark);
    }
}

/// What was found so far, and whether what can be mended is mended.
pub struct DiagResult {
    pub passed: usize,
    pub warned: usize,
    pub failed: usize,
    pub fixed: usize,
    pub fix: bool,
    pub findings: Vec<Finding>,
}

impl View for DiagResult {
    type V = Seq<FindingView>;

    open spec fn view(&self) -> Seq<FindingView> {
        Seq::new(self.findings@.len(), |i: int| self.findings@[i]@)
    }
}

/// One more thing was found than before.
pub open spec fn adds(after: DiagResult, before: DiagResult, more: Seq<FindingView>) -> bool {
    after.wf() && after.fix == before.fix && after@ == before@ + more
}

impl DiagResult {
    /// The counts are those of the findings.
    pub open spec fn wf(&self) -> bool {
        self.passed == count(self@, Mark::Pass) && self.warned == count(self@, Mark::Warn)
            && self.failed == count(self@, Mark::Fail) && self.fixed == count(self@, Mark::Fixed)
    }

    pub fn new(fix: bool) -> (r: Self)
        ensures
            r.wf(),
            r.fix == fix,
            r@ == Seq::<FindingView>::empty(),
    {
        let r = DiagResult {
            passed: 0,
            warned: 0,
            failed: 0,
            fixed: 0,
            fix,
            findings: Vec::new(),
        };
        proof {
            assert(r@ =~= Seq::<FindingView>::empty());
        }
        r
    }

    fn note(&mut self, mark: Mark, message: String)
        requires
            old(self).wf(),
        ensures
            adds(*final(self), *old(self), seq![finding(mark, message@)]),
    {
        let ghost before = *self;
        let ghost more = finding(mark, message@);
        proof {
            count_is_bounded(self@, mark);
        }
        self.findings.push(Finding { mark, message });
        let n: usize = self.findings.len();
        match mark {
            Mark::Pass => {
                self.passed = self.passed + 1;
            },
            Mark::Warn => {
                self.warned = self.warned + 1;
            },
            Mark::Fail => {
                self.failed = self.failed + 1;
            },
            Mark::Fixed => {
                self.fixed = self.fixed + 1;
            },
        }
        proof {
            assert(n == before.findings@.len() + 1);
            assert(self@ =~= before@ + seq![more]);
            assert(self@.drop_last() =~= before@);
            assert(self@.last() == more);
        }
    }

    pub fn pass(&mut self, message: String)
        requires
            old(self).wf(),
        ensures
            adds(*final(self), *old(self), seq![finding(Mark::Pass, message@)]),
    {
        self.note(Mark::Pass, message)
    }

    pub fn warn(&mut self, message: String)
        requires
            old(self).wf(),
        ensures
            adds(*final(self), *old(self), seq![finding(Mark::Warn, message@)]),
    {
        self.note(Mark::Warn, message)
    }

    pub fn fail(&mut self, message: String)
        requires
            old(self).wf(),
        ensures
            adds(*final(self), *old(self), seq![finding(Mark::Fail, message@)]),
    {
        self.note(Mark::Fail, message)
    }

    pub fn fixed(&mut self, message: String)
        requires
            old(self).wf(),
        ensures
            adds(*final(self), *old(self), seq![finding(Mark::Fixed, message@)]),
    {
        self.note(Mark::Fixed, message)
    }

    /// The counts in words: what passed, and of the rest what there is.
    pub open spec fn parts(self) -> Seq<Seq<char>> {
        seq![text::decimal(self.passed as nat) + " passed"@] + (if self.warned > 0 {
            seq![text::decimal(self.warned as nat) + " warnings"@]
        } else {
            Seq::<Seq<char>>::empty()
        }) + (if self.failed > 0 {
            seq![text::decimal(self.failed as nat) + " errors"@]
        } else {
            Seq::<Seq<char>>::empty()
        }) + (if self.fixed > 0 {
            seq![text::decimal(self.fixed as nat) + " fixed"@]
        } else {
            Seq::<Seq<char>>::empty()
        })
    }

    /// The result in one line, and whether a hint at mending follows.
    pub fn doctor(&self) -> (r: (String, bool))
        ensures
            r.0@ == "result: "@ + text::join(self.parts(), ", "@),
            r.1 == (!self.fix && (self.warned > 0 || self.failed > 0)),
    {
        let mut parts: Vec<String> = Vec::new();
        parts.push(counted(self.passed, " passed"));
        if self.warned > 0 {
            parts.push(counted(self.warned, " warnings"));
        }
        if self.failed > 0 {
            parts.push(counted(self.failed, " errors"));
        }
        if self.fixed > 0 {
            parts.push(counted(self.fixed, " fixed"));
        }
        proof {
            assert(text::views(parts@) =~= self.parts());
        }
        let mut m = String::from_str("result: ");
        m.append(joined(&parts, ", ").as_str());
        (m, !self.fix && (self.warned > 0 || self.failed > 0))
    }
}

fn counted(n: usize, what: &str) -> (r: String)
    ensures
        r@ == text::decimal(n as nat) + what@,
{
    let mut m = number(n as u128);
    m.append(what);
    m
}

fn two(a: &str, b: &str) -> (r: String)
    ensures
        r@ == a@ + b@,
{
    let mut m = String::from_str(a);
    m.append(b);
    m
}

fn three(a: &str, b: &str, c: &str) -> (r: String)
    ensures
        r@ == a@ + b@ + c@,
{
    let mut m = String::from_str(a);
    m.append(b);
    m.append(c);
    m
}

fn four(a: &str, b: &str, c: &str, d: &str) -> (r: String)
    ensures
        r@ == a@ + b@ + c@ + d@,
{
    let mut m = String::from_str(a);
    m.append(b);
    m.append(c);
    m.append(d);
    m
}

/// What became of an attempt to mend something.
pub type Attempt = std::result::Result<(), String>;

pub open spec fn attempt_view(a: Option<Attempt>) -> Option<std::result::Result<(), Seq<char>>> {
    match a {
        Some(Ok(_)) => Some(Ok(())),
        Some(Err(e)) => Some(Err(e@)),
        None => None,
    }
}

// ---------------------------------------------------------------------------
// The platform and the prefix

pub fn check_platform(d: &mut DiagResult, platform: &str, os: &str, arch: &str)
    requires
        old(d).wf(),
    ensures
        adds(
            *final(d),
            *old(d),
            seq![
                if platform@ == "unknown"@ {
                    finding(Mark::Fail, "unsupported platform: "@ + os@ + "-"@ + arch@)
                } else {
                    finding(
                        Mark::Pass,
                        "platform: "@ + platform@ + " ("@ + os@ + "-"@ + arch@ + ")"@,
                    )
                },
            ],
        ),
{
    if same_str(platform, "unknown") {
        d.fail(four("unsupported platform: ", os, "-", arch));
    } else {
        let mut m = four("platform: ", platform, " (", os);
        m.append("-");
        m.append(arch);
        m.append(")");
        d.pass(m);
    }
}

/// What is said of the prefix. One that is missing is made where things are
/// mended; otherwise nothing more is said.
pub open spec fn prefix_findings(
    prefix: Seq<char>,
    exists_: bool,
    fix: bool,
    made: Option<std::result::Result<(), Seq<char>>>,
    writable: bool,
) -> Seq<FindingView> {
    let write = if writable {
        finding(Mark::Pass, "prefix writable: "@ + prefix)
    } else {
        finding(Mark::Warn, "prefix not writable: "@ + prefix + " (use --user or sudo)"@)
    };
    if exists_ {
        seq![finding(Mark::Pass, "prefix exists: "@ + prefix), write]
    } else if fix {
        match made {
            Some(Ok(_)) => seq![finding(Mark::Fixed, "created prefix: "@ + prefix), write],
            Some(Err(e)) => seq![
                finding(
                    Mark::Fail,
                    "cannot create prefix "@ + prefix + ": "@ + e + " (try with sudo)"@,
                ),
                write,
            ],
            None => seq![write],
        }
    } else {
        seq![finding(Mark::Fail, "prefix missing: "@ + prefix)]
    }
}

/// What is said of the prefix, given whether it was there, what became of making
/// it, and whether it can be written to.
pub fn check_prefix(
    d: &mut DiagResult,
    prefix: &str,
    was_there: bool,
    made: Option<Attempt>,
    writable: bool,
)
    requires
        old(d).wf(),
    ensures
        adds(
            *final(d),
            *old(d),
            prefix_findings(prefix@, was_there, old(d).fix, attempt_view(made), writable),
        ),
{
    let ghost start = *d;
    let ghost m = attempt_view(made);
    if was_there {
        d.pass(two("prefix exists: ", prefix));
    } else if d.fix {
        match made {
            Some(Ok(_)) => d.fixed(two("created prefix: ", prefix)),
            Some(Err(e)) => {
                let mut t = four("cannot create prefix ", prefix, ": ", e.as_str());
                t.append(" (try with sudo)");
                d.fail(t);
            },
            None => {},
        }
    } else {
        d.fail(two("prefix missing: ", prefix));
        proof {
            assert(d@ =~= start@ + prefix_findings(prefix@, was_there, start.fix, m, writable));
        }
        return;
    }
    if writable {
        d.pass(two("prefix writable: ", prefix));
    } else {
        d.warn(three("prefix not writable: ", prefix, " (use --user or sudo)"));
    }
    proof {
        assert(d@ =~= start@ + prefix_findings(prefix@, was_there, start.fix, m, writable));
    }
}

/// What is said of where packages lie, for all users: where it is missing, it is
/// made where things are mended.
pub open spec fn cellar_findings(
    cellar: Seq<char>,
    packages: Option<nat>,
    fix: bool,
    made: Option<std::result::Result<(), Seq<char>>>,
) -> Seq<FindingView> {
    match packages {
        Some(n) => seq![
            finding(Mark::Pass, "cellar: "@ + cellar + " ("@ + text::decimal(n) + " packages)"@),
        ],
        None => if fix {
            match made {
                Some(Ok(_)) => seq![finding(Mark::Fixed, "created cellar: "@ + cellar)],
                Some(Err(e)) => seq![finding(Mark::Warn, "cannot create cellar: "@ + e)],
                None => Seq::empty(),
            }
        } else {
            seq![finding(Mark::Warn, "cellar missing: "@ + cellar)]
        },
    }
}

pub open spec fn opt_nat(v: Option<usize>) -> Option<nat> {
    match v {
        Some(n) => Some(n as nat),
        None => None,
    }
}

/// What is said of where packages lie, given how many there are where it is
/// there.
pub fn check_cellar(
    d: &mut DiagResult,
    cellar: &str,
    packages: Option<usize>,
    made: Option<Attempt>,
)
    requires
        old(d).wf(),
    ensures
        adds(
            *final(d),
            *old(d),
            cellar_findings(cellar@, opt_nat(packages), old(d).fix, attempt_view(made)),
        ),
{
    let ghost start = *d;
    match packages {
        Some(n) => {
            let mut m = four("cellar: ", cellar, " (", number(n as u128).as_str());
            m.append(" packages)");
            d.pass(m);
        },
        None => {
            if d.fix {
                match made {
                    Some(Ok(_)) => d.fixed(two("created cellar: ", cellar)),
                    Some(Err(e)) => d.warn(two("cannot create cellar: ", e.as_str())),
                    None => {
                        proof {
                            assert(d@ =~= start@ + Seq::<FindingView>::empty());
                        }
                    },
                }
            } else {
                d.warn(two("cellar missing: ", cellar));
            }
        },
    }
}

/// What is said of where the user's own packages lie: nothing where it is
/// missing.
pub fn check_user_cellar(d: &mut DiagResult, cellar: &str, packages: Option<usize>)
    requires
        old(d).wf(),
    ensures
        adds(
            *final(d),
            *old(d),
            match packages {
                Some(n) => seq![
                    finding(
                        Mark::Pass,
                        "user cellar: "@ + cellar@ + " ("@ + text::decimal(n as nat)
                            + " packages)"@,
                    ),
                ],
                None => Seq::empty(),
            },
        ),
{
    let ghost start = *d;
    match packages {
        Some(n) => {
            let mut m = four("user cellar: ", cellar, " (", number(n as u128).as_str());
            m.append(" packages)");
            d.pass(m);
        },
        None => {
            proof {
                assert(d@ =~= start@ + Seq::<FindingView>::empty());
            }
        },
    }
}

// ---------------------------------------------------------------------------
// Directories

/// The directories of the prefix that have to be there.
pub open spec fn needed_dirs() -> Seq<Seq<char>> {
    seq!["bin"@, "lib"@, "include"@, "share"@, "opt"@]
}

pub fn symlink_dirs() -> (r: Vec<String>)
    ensures
        text::views(r@) == needed_dirs(),
{
    let mut v: Vec<String> = Vec::new();
    v.push(String::from_str("bin"));
    v.push(String::from_str("lib"));
    v.push(String::from_str("include"));
    v.push(String::from_str("share"));
    v.push(String::from_str("opt"));
    proof {
        assert(text::views(v@) =~= needed_dirs());
    }
    v
}

/// What is said of a directory of the prefix: nothing where it is there.
pub open spec fn dir_findings(
    dir: Seq<char>,
    path: Seq<char>,
    there: bool,
    fix: bool,
    made: Option<std::result::Result<(), Seq<char>>>,
) -> Seq<FindingView> {
    if there {
        Seq::empty()
    } else if fix {
        match made {
            Some(Ok(_)) => seq![finding(Mark::Fixed, "created "@ + path)],
            Some(Err(e)) => seq![finding(Mark::Warn, "cannot create "@ + path + ": "@ + e)],
            None => Seq::empty(),
        }
    } else {
        seq![finding(Mark::Warn, dir + " directory missing: "@ + path)]
    }
}

/// What is said of a directory of the prefix.
pub fn check_symlink_dir(
    d: &mut DiagResult,
    prefix: &str,
    dir: &str,
    there: bool,
    made: Option<Attempt>,
)
    requires
        old(d).wf(),
    ensures
        adds(
            *final(d),
            *old(d),
            dir_findings(
                dir@,
                paths::path_join(prefix@, dir@),
                there,
                old(d).fix,
                attempt_view(made),
            ),
        ),
{
    let ghost start = *d;
    let path = below(prefix, dir);
    if there {
        proof {
            assert(d@ =~= start@ + Seq::<FindingView>::empty());
        }
    } else if d.fix {
        match made {
            Some(Ok(_)) => d.fixed(two("created ", path.as_str())),
            Some(Err(e)) => d.warn(four("cannot create ", path.as_str(), ": ", e.as_str())),
            None => {
                proof {
                    assert(d@ =~= start@ + Seq::<FindingView>::empty());
                }
            },
        }
    } else {
        d.warn(three(dir, " directory missing: ", path.as_str()));
    }
}

/// What is said of whether binaries are found: nothing where there is no
/// directory for them, or no search path.
pub open spec fn path_findings(bin: Seq<char>, there: bool, search: Option<Seq<char>>) -> Seq<
    FindingView,
> {
    match search {
        Some(p) => if !there {
            Seq::empty()
        } else if text::split(p, ':').contains(bin) {
            seq![finding(Mark::Pass, bin + " is in PATH"@)]
        } else {
            seq![finding(Mark::Warn, bin + " is not in PATH — add it to your shell profile"@)]
        },
        None => Seq::empty(),
    }
}

/// Whether a directory is one of those of a search path.
fn in_path(search: &str, dir: &str) -> (r: bool)
    ensures
        r == text::split(search@, ':').contains(dir@),
{
    let c = chars_of(search);
    let p = pieces(c.as_slice(), ':');
    let ghost s = text::slices(p@);
    for i in 0..p.len()
        invariant
            s == text::slices(p@),
            s == text::split(search@, ':'),
            forall|j: int| 0 <= j < i ==> s[j] != dir@,
    {
        proof {
            assert(s[i as int] == p@[i as int]@);
        }
        if text::is(p[i], dir) {
            return true;
        }
    }
    false
}

/// What is said of whether binaries are found.
pub fn check_path(d: &mut DiagResult, bin: &str, there: bool, search: Option<&str>)
    requires
        old(d).wf(),
    ensures
        adds(*final(d), *old(d), path_findings(bin@, there, dirs::str_view(search))),
{
    let ghost start = *d;
    match search {
        Some(p) => {
            if !there {
                proof {
                    assert(d@ =~= start@ + Seq::<FindingView>::empty());
                }
            } else if in_path(p, bin) {
                d.pass(two(bin, " is in PATH"));
            } else {
                d.warn(two(bin, " is not in PATH — add it to your shell profile"));
            }
        },
        None => {
            proof {
                assert(d@ =~= start@ + Seq::<FindingView>::empty());
            }
        },
    }
}

// ---------------------------------------------------------------------------
// The index and the records

/// What reading the index gave.
#[derive(Debug)]
pub enum IndexState {
    /// How many formulae and casks it holds, and when it was last updated.
    Read { formulae: usize, casks: usize, last_updated: i64 },
    /// There is none.
    Missing,
    /// It could not be read.
    Unreadable(String),
}

/// How many hours old the index is; none where its date lies ahead.
pub open spec fn age_hours(now: int, last_updated: int) -> int {
    if now < last_updated {
        0
    } else {
        (now - last_updated) / 3600
    }
}

/// An index is stale after a week.
pub open spec fn stale(index: IndexState, now: int) -> bool {
    match index {
        IndexState::Read { last_updated, .. } => age_hours(now, last_updated as int) > 168,
        IndexState::Missing => true,
        IndexState::Unreadable(_) => false,
    }
}

fn hours_of(now: i64, last_updated: i64) -> (r: u128)
    ensures
        r == age_hours(now as int, last_updated as int),
{
    if now < last_updated {
        0
    } else {
        ((now as i128 - last_updated as i128) / 3600) as u128
    }
}

/// Whether the index is fetched again: one that is missing or stale is, where
/// things are mended.
pub fn needs_refresh(index: &IndexState, now: i64, fix: bool) -> (r: bool)
    ensures
        r == (fix && stale(*index, now as int)),
{
    fix && match index {
        IndexState::Read { last_updated, .. } => hours_of(now, *last_updated) > 168,
        IndexState::Missing => true,
        IndexState::Unreadable(_) => false,
    }
}

/// What is said of an attempt to mend something, if there was one.
pub open spec fn attempted(
    attempt: Option<std::result::Result<(), Seq<char>>>,
    fixed: Seq<char>,
    failed: Seq<char>,
) -> Seq<FindingView> {
    match attempt {
        Some(Ok(_)) => seq![finding(Mark::Fixed, fixed)],
        Some(Err(e)) => seq![finding(Mark::Fail, failed + e)],
        None => Seq::empty(),
    }
}

fn note_attempt(d: &mut DiagResult, attempt: Option<Attempt>, fixed: &str, failed: &str)
    requires
        old(d).wf(),
    ensures
        adds(*final(d), *old(d), attempted(attempt_view(attempt), fixed@, failed@)),
{
    let ghost start = *d;
    match attempt {
        Some(Ok(_)) => d.fixed(String::from_str(fixed)),
        Some(Err(e)) => d.fail(two(failed, e.as_str())),
        None => {
            proof {
                assert(d@ =~= start@ + Seq::<FindingView>::empty());
            }
        },
    }
}

/// What is said of the index, given what became of fetching it again.
pub open spec fn cache_findings(
    index: IndexState,
    now: int,
    fix: bool,
    refreshed: Option<std::result::Result<(), Seq<char>>>,
) -> Seq<FindingView> {
    match index {
        IndexState::Read { formulae, casks, last_updated } => {
            let hours = age_hours(now, last_updated as int);
            seq![
                finding(
                    Mark::Pass,
                    "cache: "@ + text::decimal(formulae as nat) + " formulae, "@ + text::decimal(
                        casks as nat,
                    ) + " casks"@,
                ),
            ] + if !stale(index, now) {
                seq![
                    finding(
                        Mark::Pass,
                        "cache age: "@ + text::decimal(hours as nat) + "h (updated recently)"@,
                    ),
                ]
            } else if fix {
                seq![
                    finding(
                        Mark::Warn,
                        "cache is "@ + text::decimal((hours / 24) as nat)
                            + " days old — refreshing..."@,
                    ),
                ] + attempted(refreshed, "cache refreshed"@, "cache refresh failed: "@)
            } else {
                seq![
                    finding(
                        Mark::Warn,
                        "cache is "@ + text::decimal((hours / 24) as nat)
                            + " days old — run `wax update`"@,
                    ),
                ]
            }
        },
        IndexState::Missing => if fix {
            seq![finding(Mark::Warn, "cache not initialized — refreshing..."@)] + attempted(
                refreshed,
                "cache initialized"@,
                "cache init failed: "@,
            )
        } else {
            seq![finding(Mark::Fail, "cache not initialized — run `wax update`"@)]
        },
        IndexState::Unreadable(e) => seq![finding(Mark::Fail, "cache error: "@ + e@)],
    }
}

/// What is said of the index, given what became of fetching it again where that
/// was needed.
pub fn check_cache(d: &mut DiagResult, index: &IndexState, now: i64, refreshed: Option<Attempt>)
    requires
        old(d).wf(),
    ensures
        adds(
            *final(d),
            *old(d),
            cache_findings(*index, now as int, old(d).fix, attempt_view(refreshed)),
        ),
{
    let ghost start = *d;
    let ghost a = attempt_view(refreshed);
    match index {
        IndexState::Read { formulae, casks, last_updated } => {
            let mut m = four(
                "cache: ",
                number(*formulae as u128).as_str(),
                " formulae, ",
                number(*casks as u128).as_str(),
            );
            m.append(" casks");
            d.pass(m);
            let hours: u128 = hours_of(now, *last_updated);
            if hours <= 168 {
                d.pass(three("cache age: ", number(hours).as_str(), "h (updated recently)"));
            } else {
                let days = number(hours / 24);
                if d.fix {
                    d.warn(three("cache is ", days.as_str(), " days old — refreshing..."));
                    note_attempt(d, refreshed, "cache refreshed", "cache refresh failed: ");
                } else {
                    d.warn(three("cache is ", days.as_str(), " days old — run `wax update`"));
                }
            }
        },
        IndexState::Missing => {
            if d.fix {
                d.warn(String::from_str("cache not initialized — refreshing..."));
                note_attempt(d, refreshed, "cache initialized", "cache init failed: ");
            } else {
                d.fail(String::from_str("cache not initialized — run `wax update`"));
            }
        },
        IndexState::Unreadable(e) => d.fail(two("cache error: ", e.as_str())),
    }
    proof {
        assert(d@ =~= start@ + cache_findings(*index, now as int, start.fix, a));
    }
}

/// What reading a record gave.
#[derive(Debug)]
pub enum RecordState {
    /// How many things it holds.
    Holding(usize),
    /// It could not be read.
    Corrupt(String),
    /// There is no place for it.
    Unavailable(String),
}

/// Whether a record is made anew: one that cannot be read is, where things are
/// mended.
pub fn needs_reset(record: &RecordState, fix: bool) -> (r: bool)
    ensures
        r == (fix && record is Corrupt),
{
    fix && match record {
        RecordState::Corrupt(_) => true,
        _ => false,
    }
}

/// What is said of the record of packages. One that cannot be read is emptied
/// where things are mended, and then rebuilt from the Cellar; that the rebuilding
/// fails leaves it empty.
pub open spec fn install_state_findings(
    record: RecordState,
    fix: bool,
    saved: Option<std::result::Result<(), Seq<char>>>,
    rebuilt: Option<std::result::Result<(), Seq<char>>>,
) -> Seq<FindingView> {
    match record {
        RecordState::Holding(n) => seq![
            finding(
                Mark::Pass,
                "install state: "@ + text::decimal(n as nat) + " packages tracked"@,
            ),
        ],
        RecordState::Corrupt(e) => if fix {
            seq![finding(Mark::Warn, "install state corrupt: "@ + e@)] + attempted(
                saved,
                if rebuilt == Some(Ok::<(), Seq<char>>(())) {
                    "install state rebuilt from cellar"@
                } else {
                    "install state reset to empty"@
                },
                "cannot reset install state: "@,
            )
        } else {
            seq![finding(Mark::Fail, "install state corrupt: "@ + e@)]
        },
        RecordState::Unavailable(e) => seq![
            finding(Mark::Fail, "install state unavailable: "@ + e@),
        ],
    }
}

/// What is said of the record of packages, given what became of emptying it and of
/// rebuilding it.
pub fn check_install_state(
    d: &mut DiagResult,
    record: &RecordState,
    saved: Option<Attempt>,
    rebuilt: Option<Attempt>,
)
    requires
        old(d).wf(),
    ensures
        adds(
            *final(d),
            *old(d),
            install_state_findings(
                *record,
                old(d).fix,
                attempt_view(saved),
                attempt_view(rebuilt),
            ),
        ),
{
    let ghost start = *d;
    let ghost s = attempt_view(saved);
    let ghost b = attempt_view(rebuilt);
    match record {
        RecordState::Holding(n) => d.pass(
            three("install state: ", number(*n as u128).as_str(), " packages tracked"),
        ),
        RecordState::Corrupt(e) => {
            if d.fix {
                d.warn(two("install state corrupt: ", e.as_str()));
                let done = match rebuilt {
                    Some(Ok(_)) => "install state rebuilt from cellar",
                    _ => "install state reset to empty",
                };
                note_attempt(d, saved, done, "cannot reset install state: ");
            } else {
                d.fail(two("install state corrupt: ", e.as_str()));
            }
        },
        RecordState::Unavailable(e) => d.fail(two("install state unavailable: ", e.as_str())),
    }
    proof {
        assert(d@ =~= start@ + install_state_findings(*record, start.fix, s, b));
    }
}

/// What is said of the record of casks: nothing where it is empty. One that cannot
/// be read is emptied where things are mended.
pub open spec fn cask_state_findings(
    record: RecordState,
    fix: bool,
    saved: Option<std::result::Result<(), Seq<char>>>,
) -> Seq<FindingView> {
    match record {
        RecordState::Holding(n) => if n == 0 {
            Seq::empty()
        } else {
            seq![
                finding(
                    Mark::Pass,
                    "cask state: "@ + text::decimal(n as nat) + " casks tracked"@,
                ),
            ]
        },
        RecordState::Corrupt(e) => if fix {
            seq![finding(Mark::Warn, "cask state corrupt: "@ + e@)] + attempted(
                saved,
                "cask state reset"@,
                "cannot reset cask state: "@,
            )
        } else {
            seq![finding(Mark::Fail, "cask state corrupt: "@ + e@)]
        },
        RecordState::Unavailable(e) => seq![
            finding(Mark::Fail, "cask state unavailable: "@ + e@),
        ],
    }
}

/// What is said of the record of casks, given what became of emptying it.
pub fn check_cask_state(d: &mut DiagResult, record: &RecordState, saved: Option<Attempt>)
    requires
        old(d).wf(),
    ensures
        adds(
            *final(d),
            *old(d),
            cask_state_findings(*record, old(d).fix, attempt_view(saved)),
        ),
{
    let ghost start = *d;
    let ghost s = attempt_view(saved);
    match record {
        RecordState::Holding(n) => {
            if *n > 0 {
                d.pass(three("cask state: ", number(*n as u128).as_str(), " casks tracked"));
            }
        },
        RecordState::Corrupt(e) => {
            if d.fix {
                d.warn(two("cask state corrupt: ", e.as_str()));
                note_attempt(d, saved, "cask state reset", "cannot reset cask state: ");
            } else {
                d.fail(two("cask state corrupt: ", e.as_str()));
            }
        },
        RecordState::Unavailable(e) => d.fail(two("cask state unavailable: ", e.as_str())),
    }
    proof {
        assert(d@ =~= start@ + cask_state_findings(*record, start.fix, s));
    }
}

// ---------------------------------------------------------------------------
// Lists of findings

/// The first names of a list, each with what is said of it, and how many more
/// there are.
pub open spec fn capped(
    mark: Mark,
    names: Seq<Seq<char>>,
    most: nat,
    what: Seq<char>,
    rest: Seq<char>,
) -> Seq<FindingView> {
    let shown = if names.len() <= most {
        names
    } else {
        names.take(most as int)
    };
    Seq::new(shown.len(), |i: int| finding(mark, what + shown[i])) + if names.len() > most {
        seq![
            finding(
                mark,
                "... and "@ + text::decimal((names.len() - most) as nat) + rest,
            ),
        ]
    } else {
        Seq::<FindingView>::empty()
    }
}

/// Notes the first names of a list, and how many more there are.
fn note_capped(
    d: &mut DiagResult,
    mark: Mark,
    names: &Vec<String>,
    most: usize,
    what: &str,
    rest: &str,
)
    requires
        old(d).wf(),
    ensures
        adds(
            *final(d),
            *old(d),
            capped(mark, text::views(names@), most as nat, what@, rest@),
        ),
{
    let ghost start = *d;
    let ghost n = text::views(names@);
    let total: usize = names.len();
    let shown: usize = if total <= most {
        total
    } else {
        most
    };
    proof {
        assert(d@ =~= start@ + Seq::new(0, |i: int| finding(mark, what@ + n[i])));
    }
    for i in 0..shown
        invariant
            d.wf(),
            d.fix == start.fix,
            shown <= names@.len(),
            n == text::views(names@),
            d@ == start@ + Seq::new(i as nat, |i: int| finding(mark, what@ + n[i])),
    {
        d.note(mark, two(what, names[i].as_str()));
        proof {
            assert(d@ =~= start@ + Seq::new((i + 1) as nat, |i: int| finding(mark, what@ + n[i])));
        }
    }
    if total > most {
        d.note(mark, three("... and ", number((total - most) as u128).as_str(), rest));
    }
    proof {
        assert(d@ =~= start@ + capped(mark, n, most as nat, what@, rest@));
    }
}

/// What is said of attempts to mend the things in a list, which go by a label
/// where that succeeded and by a name where it failed: the first ten that
/// succeeded, every one that failed, and how many more succeeded.
pub open spec fn mended(
    labels: Seq<Seq<char>>,
    names: Seq<Seq<char>>,
    attempts: Seq<std::result::Result<(), Seq<char>>>,
    fixed: Seq<char>,
    failed: Seq<char>,
) -> (Seq<FindingView>, nat)
    decreases names.len(),
{
    if names.len() == 0 {
        (Seq::empty(), 0)
    } else {
        let (before, n) = mended(
            labels.drop_last(),
            names.drop_last(),
            attempts.drop_last(),
            fixed,
            failed,
        );
        match attempts.last() {
            Ok(_) => (
                if n < 10 {
                    before.push(finding(Mark::Fixed, fixed + labels.last()))
                } else {
                    before
                },
                n + 1,
            ),
            Err(e) => (
                before.push(finding(Mark::Fail, failed + names.last() + ": "@ + e)),
                n,
            ),
        }
    }
}

pub open spec fn attempt_views(v: Seq<Attempt>) -> Seq<std::result::Result<(), Seq<char>>> {
    Seq::new(
        v.len(),
        |i: int|
            match v[i] {
                Ok(_) => Ok(()),
                Err(e) => Err(e@),
            },
    )
}

pub open spec fn mended_findings(
    labels: Seq<Seq<char>>,
    names: Seq<Seq<char>>,
    attempts: Seq<std::result::Result<(), Seq<char>>>,
    fixed: Seq<char>,
    failed: Seq<char>,
    rest: Seq<char>,
) -> Seq<FindingView> {
    let (list, n) = mended(labels, names, attempts, fixed, failed);
    list + if n > 10 {
        seq![finding(Mark::Fixed, "... and "@ + text::decimal((n - 10) as nat) + rest)]
    } else {
        Seq::<FindingView>::empty()
    }
}

fn note_mended(
    d: &mut DiagResult,
    labels: &Vec<String>,
    names: &Vec<String>,
    attempts: &Vec<Attempt>,
    fixed: &str,
    failed: &str,
    rest: &str,
)
    requires
        old(d).wf(),
        names@.len() == attempts@.len(),
        labels@.len() == names@.len(),
    ensures
        adds(
            *final(d),
            *old(d),
            mended_findings(
                text::views(labels@),
                text::views(names@),
                attempt_views(attempts@),
                fixed@,
                failed@,
                rest@,
            ),
        ),
{
    let ghost start = *d;
    let ghost b = text::views(labels@);
    let ghost n = text::views(names@);
    let ghost a = attempt_views(attempts@);
    let mut done: usize = 0;
    proof {
        assert(d@ =~= start@ + mended(b.take(0), n.take(0), a.take(0), fixed@, failed@).0);
    }
    for i in 0..names.len()
        invariant
            d.wf(),
            d.fix == start.fix,
            names@.len() == attempts@.len(),
            labels@.len() == names@.len(),
            b == text::views(labels@),
            n == text::views(names@),
            a == attempt_views(attempts@),
            done <= i,
            done == mended(b.take(i as int), n.take(i as int), a.take(i as int), fixed@, failed@).1,
            d@ == start@ + mended(b.take(i as int), n.take(i as int), a.take(i as int), fixed@, failed@).0,
    {
        let ghost before = mended(b.take(i as int), n.take(i as int), a.take(i as int), fixed@, failed@).0;
        proof {
            assert(n.take(i + 1).drop_last() =~= n.take(i as int));
            assert(n.take(i + 1).last() == names@[i as int]@);
            assert(b.take(i + 1).drop_last() =~= b.take(i as int));
            assert(b.take(i + 1).last() == labels@[i as int]@);
            assert(a.take(i + 1).drop_last() =~= a.take(i as int));
            assert(a.take(i + 1).last() == a[i as int]);
        }
        match &attempts[i] {
            Ok(_) => {
                if done < 10 {
                    let t = two(fixed, labels[i].as_str());
                    let ghost shown = finding(Mark::Fixed, t@);
                    d.fixed(t);
                    proof {
                        assert(d@ =~= start@ + before.push(shown));
                    }
                }
                done = done + 1;
            },
            Err(e) => {
                let t = four(failed, names[i].as_str(), ": ", e.as_str());
                let ghost shown = finding(Mark::Fail, t@);
                d.fail(t);
                proof {
                    assert(d@ =~= start@ + before.push(shown));
                }
            },
        }
    }
    proof {
        assert(b.take(b.len() as int) =~= b);
        assert(n.take(n.len() as int) =~= n);
        assert(a.take(a.len() as int) =~= a);
    }
    if done > 10 {
        d.fixed(three("... and ", number((done - 10) as u128).as_str(), rest));
    }
    proof {
        assert(d@ =~= start@ + mended_findings(b, n, a, fixed@, failed@, rest@));
    }
}

// ---------------------------------------------------------------------------
// Links

/// A path as seen from the prefix that it lies in.
pub open spec fn relative(path: Seq<char>, prefix: Seq<char>) -> Seq<char> {
    if paths::lies_in(path, prefix) {
        text::join(paths::components(path).skip(paths::components(prefix).len() as int), "/"@)
    } else {
        path
    }
}

/// A path as seen from the prefix that it lies in.
pub fn relative_path(path: &str, prefix: &str) -> (r: String)
    ensures
        r@ == relative(path@, prefix@),
{
    if !path_in(path, prefix) {
        return String::from_str(path);
    }
    let all = components_of(path);
    let base = components_of(prefix);
    proof {
        assert(text::views(all@).len() == all@.len());
        assert(text::views(base@).len() == base@.len());
    }
    let mut rest: Vec<String> = Vec::new();
    let n: usize = base.len();
    for i in n..all.len()
        invariant
            n <= all@.len(),
            rest@ == all@.subrange(n as int, i as int),
    {
        rest.push(all[i].clone());
        proof {
            assert(rest@ =~= all@.subrange(n as int, i + 1));
        }
    }
    proof {
        assert(text::views(rest@) =~= text::views(all@).skip(n as int));
    }
    joined(&rest, "/")
}

/// The directories of the prefix that links are looked for in.
pub open spec fn searched_dirs() -> Seq<Seq<char>> {
    seq!["bin"@, "lib"@, "sbin"@, "include"@, "share"@, "opt"@]
}

pub fn linked_dirs() -> (r: Vec<String>)
    ensures
        text::views(r@) == searched_dirs(),
{
    let mut v: Vec<String> = Vec::new();
    v.push(String::from_str("bin"));
    v.push(String::from_str("lib"));
    v.push(String::from_str("sbin"));
    v.push(String::from_str("include"));
    v.push(String::from_str("share"));
    v.push(String::from_str("opt"));
    proof {
        assert(text::views(v@) =~= searched_dirs());
    }
    v
}

/// What is said of links that lead nowhere.
pub open spec fn broken_findings(
    links: Seq<Seq<char>>,
    fix: bool,
    attempts: Seq<std::result::Result<(), Seq<char>>>,
) -> Seq<FindingView> {
    if links.len() == 0 {
        seq![finding(Mark::Pass, "no broken symlinks"@)]
    } else if fix {
        mended_findings(
            links,
            links,
            attempts,
            "removed broken symlink: "@,
            "cannot remove "@,
            " more broken symlinks removed"@,
        )
    } else {
        capped(Mark::Fail, links, 5, "broken symlink: "@, " more broken symlinks"@)
    }
}

/// An entry of a directory.
#[derive(Debug)]
pub enum DirEntry {
    /// A link, and whether it leads somewhere.
    Link { path: String, leads_somewhere: bool },
    Dir(Vec<DirEntry>),
    Other,
}

/// The links of a directory, and of those in it, that lead nowhere.
pub open spec fn broken_in(entries: Seq<DirEntry>) -> Seq<Seq<char>>
    decreases entries,
{
    if entries.len() == 0 {
        Seq::empty()
    } else {
        broken_in(entries.drop_last()) + match entries.last() {
            DirEntry::Link { path, leads_somewhere } => if leads_somewhere {
                Seq::empty()
            } else {
                seq![path@]
            },
            DirEntry::Dir(inner) => broken_in(inner@),
            DirEntry::Other => Seq::empty(),
        }
    }
}

pub fn collect_broken_symlinks_recursive(entries: &Vec<DirEntry>) -> (r: Vec<String>)
    ensures
        text::views(r@) == broken_in(entries@),
    decreases entries,
{
    let ghost s = entries@;
    let mut out: Vec<String> = Vec::new();
    proof {
        assert(text::views(out@) =~= broken_in(s.take(0)));
    }
    for i in 0..entries.len()
        invariant
            s == entries@,
            text::views(out@) == broken_in(s.take(i as int)),
    {
        let ghost before = text::views(out@);
        proof {
            assert(s.take(i + 1).drop_last() =~= s.take(i as int));
            assert(s.take(i + 1).last() == s[i as int]);
            assert(before + Seq::<Seq<char>>::empty() =~= before);
        }
        match &entries[i] {
            DirEntry::Link { path, leads_somewhere } => {
                if !*leads_somewhere {
                    out.push(path.clone());
                    proof {
                        assert(text::views(out@) =~= before + seq![path@]);
                    }
                }
            },
            DirEntry::Dir(inner) => {
                let mut found = collect_broken_symlinks_recursive(inner);
                let ghost more = text::views(found@);
                out.append(&mut found);
                proof {
                    assert(text::views(out@) =~= before + more);
                }
            },
            DirEntry::Other => {},
        }
    }
    proof {
        assert(s.take(s.len() as int) =~= s);
    }
    out
}

/// What is said of links that lead nowhere, given what became of removing each
/// where things are mended.
pub fn check_broken_symlinks(d: &mut DiagResult, links: &Vec<String>, attempts: &Vec<Attempt>)
    requires
        old(d).wf(),
        old(d).fix ==> attempts@.len() == links@.len(),
    ensures
        adds(
            *final(d),
            *old(d),
            broken_findings(text::views(links@), old(d).fix, attempt_views(attempts@)),
        ),
{
    proof {
        assert(text::views(links@).len() == links@.len());
    }
    if links.len() == 0 {
        d.pass(String::from_str("no broken symlinks"));
    } else if d.fix {
        note_mended(
            d,
            links,
            links,
            attempts,
            "removed broken symlink: ",
            "cannot remove ",
            " more broken symlinks removed",
        );
    } else {
        note_capped(d, Mark::Fail, links, 5, "broken symlink: ", " more broken symlinks");
    }
}

/// What stands where the link to a package's current version belongs.
#[derive(Debug, Clone, Copy, PartialEq, Eq, Structural)]
pub enum OptLink {
    Nothing,
    /// A link that leads somewhere, or nowhere.
    Link { leads: bool },
    Other,
}

/// Whether a package has to be linked again.
pub fn needs_relink(at: OptLink) -> (r: bool)
    ensures
        r == (at == OptLink::Nothing || at == (OptLink::Link { leads: false })),
{
    match at {
        OptLink::Nothing => true,
        OptLink::Link { leads } => !leads,
        OptLink::Other => false,
    }
}

/// What is said of packages without a link, where nothing is mended or nothing has
/// to be; and whether they are linked again.
pub fn check_opt_symlinks(d: &mut DiagResult, missing: &Vec<String>) -> (r: bool)
    requires
        old(d).wf(),
    ensures
        adds(
            *final(d),
            *old(d),
            if missing@.len() == 0 {
                seq![finding(Mark::Pass, "all cellar packages have opt/ symlinks"@)]
            } else if old(d).fix {
                seq![
                    finding(
                        Mark::Warn,
                        text::decimal(missing@.len())
                            + " packages missing opt/ symlinks — relinking..."@,
                    ),
                ]
            } else {
                capped(
                    Mark::Fail,
                    text::views(missing@),
                    5,
                    "missing opt/ symlink: "@,
                    " more missing opt/ symlinks"@,
                )
            },
        ),
        r == (missing@.len() > 0 && old(d).fix),
{
    if missing.len() == 0 {
        d.pass(String::from_str("all cellar packages have opt/ symlinks"));
        false
    } else if d.fix {
        d.warn(
            counted(missing.len(), " packages missing opt/ symlinks — relinking..."),
        );
        true
    } else {
        note_capped(
            d,
            Mark::Fail,
            missing,
            5,
            "missing opt/ symlink: ",
            " more missing opt/ symlinks",
        );
        false
    }
}

/// Names with the versions of the packages.
pub open spec fn versioned(names: Seq<Seq<char>>, versions: Seq<Seq<char>>) -> Seq<Seq<char>> {
    Seq::new(names.len(), |i: int| names[i] + "@"@ + versions[i])
}

/// What is said of packages that were linked again.
pub fn report_relinked(
    d: &mut DiagResult,
    names: &Vec<String>,
    versions: &Vec<String>,
    attempts: &Vec<Attempt>,
)
    requires
        old(d).wf(),
        names@.len() == attempts@.len(),
        names@.len() == versions@.len(),
    ensures
        adds(
            *final(d),
            *old(d),
            mended_findings(
                versioned(text::views(names@), text::views(versions@)),
                text::views(names@),
                attempt_views(attempts@),
                "relinked "@,
                "failed to relink "@,
                " more packages relinked"@,
            ),
        ),
{
    let mut labels: Vec<String> = Vec::new();
    for i in 0..names.len()
        invariant
            names@.len() == versions@.len(),
            labels@.len() == i,
            forall|j: int|
                0 <= j < i ==> (#[trigger] labels@[j])@ == names@[j]@ + "@"@ + versions@[j]@,
    {
        labels.push(three(names[i].as_str(), "@", versions[i].as_str()));
    }
    proof {
        assert(text::views(labels@) =~= versioned(text::views(names@), text::views(versions@)));
    }
    note_mended(
        d,
        &labels,
        names,
        attempts,
        "relinked ",
        "failed to relink ",
        " more packages relinked",
    );
}

// ---------------------------------------------------------------------------
// The record and the Cellar

pub open spec fn package_names(e: Seq<crate::table::Entry<InstalledPackage>>) -> Seq<Seq<char>> {
    Seq::new(e.len(), |i: int| e[i].name@)
}

/// The names of which it is known that they are not there.
pub open spec fn absent(names: Seq<Seq<char>>, there: Seq<Option<bool>>) -> Seq<Seq<char>>
    decreases names.len(),
{
    if names.len() == 0 {
        Seq::empty()
    } else if there.last() == Some(false) {
        absent(names.drop_last(), there.drop_last()).push(names.last())
    } else {
        absent(names.drop_last(), there.drop_last())
    }
}

/// The recorded packages that are missing, given for each whether its directory is
/// there, if that is known.
pub fn missing_packages(packages: &Table<InstalledPackage>, there: &Vec<Option<bool>>) -> (r: Vec<
    String,
>)
    requires
        there@.len() == packages.entries@.len(),
    ensures
        text::views(r@) == absent(package_names(packages.entries@), there@),
{
    let ghost n = package_names(packages.entries@);
    let mut out: Vec<String> = Vec::new();
    proof {
        assert(text::views(out@) =~= absent(n.take(0), there@.take(0)));
    }
    for i in 0..packages.entries.len()
        invariant
            there@.len() == packages.entries@.len(),
            n == package_names(packages.entries@),
            text::views(out@) == absent(n.take(i as int), there@.take(i as int)),
    {
        let ghost before = text::views(out@);
        proof {
            assert(n.take(i + 1).drop_last() =~= n.take(i as int));
            assert(n.take(i + 1).last() == packages.entries@[i as int].name@);
            assert(there@.take(i + 1).drop_last() =~= there@.take(i as int));
            assert(there@.take(i + 1).last() == there@[i as int]);
        }
        let gone = match there[i] {
            Some(b) => !b,
            None => false,
        };
        if gone {
            out.push(packages.entries[i].name.clone());
            proof {
                assert(text::views(out@) =~= before.push(packages.entries@[i as int].name@));
            }
        }
    }
    proof {
        assert(n.take(n.len() as int) =~= n);
        assert(there@.take(there@.len() as int) =~= there@);
    }
    out
}

/// The names that have no record.
pub open spec fn unrecorded(names: Seq<Seq<char>>, recorded: Set<Seq<char>>) -> Seq<Seq<char>>
    decreases names.len(),
{
    if names.len() == 0 {
        Seq::empty()
    } else if recorded.contains(names.last()) {
        unrecorded(names.drop_last(), recorded)
    } else {
        unrecorded(names.drop_last(), recorded).push(names.last())
    }
}

/// The packages in the Cellar that have no record.
pub fn untracked_packages(packages: &Table<InstalledPackage>, found: &Vec<String>) -> (r: Vec<String>)
    ensures
        text::views(r@) == unrecorded(text::views(found@), packages@.dom()),
{
    let ghost n = text::views(found@);
    let mut out: Vec<String> = Vec::new();
    proof {
        assert(text::views(out@) =~= unrecorded(n.take(0), packages@.dom()));
    }
    for i in 0..found.len()
        invariant
            n == text::views(found@),
            text::views(out@) == unrecorded(n.take(i as int), packages@.dom()),
    {
        let ghost before = text::views(out@);
        proof {
            assert(n.take(i + 1).drop_last() =~= n.take(i as int));
            assert(n.take(i + 1).last() == found@[i as int]@);
        }
        if !packages.contains_key(found[i].as_str()) {
            out.push(found[i].clone());
            proof {
                assert(text::views(out@) =~= before.push(found@[i as int]@));
            }
        }
    }
    proof {
        assert(n.take(n.len() as int) =~= n);
    }
    out
}

/// The record without the names.
pub open spec fn without(m: Map<Seq<char>, InstalledView>, names: Seq<Seq<char>>) -> Map<
    Seq<char>,
    InstalledView,
>
    decreases names.len(),
{
    if names.len() == 0 {
        m
    } else {
        without(m, names.drop_last()).remove(names.last())
    }
}

/// What is left of the record has none of the names.
pub proof fn dropped_names_are_gone(
    m: Map<Seq<char>, InstalledView>,
    names: Seq<Seq<char>>,
    name: Seq<char>,
)
    ensures
        without(m, names).contains_key(name) == (m.contains_key(name) && !names.contains(name)),
        without(m, names).contains_key(name) ==> without(m, names)[name] == m[name],
    decreases names.len(),
{
    if names.len() > 0 {
        dropped_names_are_gone(m, names.drop_last(), name);
        if names.contains(name) && names.last() != name {
            let k = choose|k: int| 0 <= k < names.len() && names[k] == name;
            assert(names.drop_last()[k] == name);
        }
        if names.drop_last().contains(name) {
            let k = choose|k: int| 0 <= k < names.len() - 1 && names.drop_last()[k] == name;
            assert(names[k] == name);
        }
        if names.last() == name {
            assert(names[names.len() - 1] == name);
        }
    }
}

/// What is said of recorded packages that are missing.
pub open spec fn missing_findings(names: Seq<Seq<char>>, fix: bool) -> Seq<FindingView> {
    if fix {
        Seq::new(
            names.len(),
            |i: int| finding(Mark::Fixed, "removed stale tracking entry: "@ + names[i]),
        )
    } else {
        capped(
            Mark::Warn,
            names,
            3,
            "tracked but missing from cellar: "@,
            " more missing packages"@,
        )
    }
}

/// Takes missing packages out of the record, where things are mended.
pub fn drop_missing(
    d: &mut DiagResult,
    packages: &mut Table<InstalledPackage>,
    missing: &Vec<String>,
)
    requires
        old(d).wf(),
        old(packages).wf(),
    ensures
        final(packages).wf(),
        table::contents(*final(packages)) == if old(d).fix {
            without(table::contents(*old(packages)), text::views(missing@))
        } else {
            table::contents(*old(packages))
        },
        adds(*final(d), *old(d), missing_findings(text::views(missing@), old(d).fix)),
{
    let ghost start = *d;
    let ghost n = text::views(missing@);
    let ghost m = table::contents(*packages);
    if d.fix {
        proof {
            assert(d@ =~= start@ + missing_findings(n.take(0), true));
        }
        for i in 0..missing.len()
            invariant
                d.wf(),
                d.fix,
                d.fix == start.fix,
                packages.wf(),
                n == text::views(missing@),
                table::contents(*packages) == without(m, n.take(i as int)),
                d@ == start@ + missing_findings(n.take(i as int), true),
        {
            let ghost before = missing_findings(n.take(i as int), true);
            proof {
                assert(n.take(i + 1).drop_last() =~= n.take(i as int));
                assert(n.take(i + 1).last() == missing@[i as int]@);
            }
            InstallState::remove(packages, missing[i].as_str());
            d.fixed(two("removed stale tracking entry: ", missing[i].as_str()));
            proof {
                assert(d@ =~= start@ + missing_findings(n.take(i + 1), true));
            }
        }
        proof {
            assert(n.take(n.len() as int) =~= n);
        }
    } else {
        note_capped(
            d,
            Mark::Warn,
            missing,
            3,
            "tracked but missing from cellar: ",
            " more missing packages",
        );
    }
}

/// What is said of writing the record without those packages: nothing where that
/// succeeded.
pub fn report_saved(d: &mut DiagResult, saved: Attempt)
    requires
        old(d).wf(),
    ensures
        adds(
            *final(d),
            *old(d),
            match saved {
                Ok(_) => Seq::empty(),
                Err(e) => seq![finding(Mark::Fail, "cannot save state: "@ + e@)],
            },
        ),
{
    let ghost start = *d;
    match saved {
        Ok(_) => {
            proof {
                assert(d@ =~= start@ + Seq::<FindingView>::empty());
            }
        },
        Err(e) => d.fail(two("cannot save state: ", e.as_str())),
    }
}

/// What is said of packages without a record, if there are any, given what became
/// of taking them up where things are mended.
pub open spec fn untracked_findings(
    names: Seq<Seq<char>>,
    fix: bool,
    synced: Option<std::result::Result<(), Seq<char>>>,
) -> Seq<FindingView> {
    if names.len() == 0 {
        Seq::empty()
    } else if fix {
        seq![
            finding(Mark::Warn, "syncing untracked cellar packages into state..."@),
            match synced {
                Some(Err(e)) => finding(Mark::Fail, "cellar sync failed: "@ + e),
                _ => finding(
                    Mark::Fixed,
                    "registered "@ + text::decimal(names.len()) + " untracked packages"@,
                ),
            },
        ]
    } else {
        capped(
            Mark::Warn,
            names,
            3,
            "in cellar but untracked: "@,
            " more untracked packages"@,
        )
    }
}

/// What is said of packages without a record.
pub fn report_untracked(d: &mut DiagResult, untracked_names: &Vec<String>, synced: Option<Attempt>)
    requires
        old(d).wf(),
    ensures
        adds(
            *final(d),
            *old(d),
            untracked_findings(text::views(untracked_names@), old(d).fix, attempt_view(synced)),
        ),
{
    let ghost start = *d;
    let ghost n = text::views(untracked_names@);
    let ghost s = attempt_view(synced);
    if untracked_names.len() == 0 {
        proof {
            assert(d@ =~= start@ + Seq::<FindingView>::empty());
        }
    } else if d.fix {
        d.warn(String::from_str("syncing untracked cellar packages into state..."));
        match synced {
            Some(Err(e)) => d.fail(two("cellar sync failed: ", e.as_str())),
            _ => d.fixed(
                three(
                    "registered ",
                    number(untracked_names.len() as u128).as_str(),
                    " untracked packages",
                ),
            ),
        }
        proof {
            assert(d@ =~= start@ + untracked_findings(n, start.fix, s));
        }
    } else {
        note_capped(
            d,
            Mark::Warn,
            untracked_names,
            3,
            "in cellar but untracked: ",
            " more untracked packages",
        );
    }
}

/// What is said where the record and the Cellar agree.
pub fn check_state_consistency(d: &mut DiagResult, missing: usize, untracked_count: usize)
    requires
        old(d).wf(),
    ensures
        adds(
            *final(d),
            *old(d),
            if missing == 0 && untracked_count == 0 {
                seq![finding(Mark::Pass, "install state consistent with cellar"@)]
            } else {
                Seq::empty()
            },
        ),
{
    let ghost start = *d;
    if missing == 0 && untracked_count == 0 {
        d.pass(String::from_str("install state consistent with cellar"));
    } else {
        proof {
            assert(d@ =~= start@ + Seq::<FindingView>::empty());
        }
    }
}

// ---------------------------------------------------------------------------
// Tools

/// The numbers among the parts of a version.
pub open spec fn numbers_in(parts: Seq<Seq<char>>) -> Seq<nat>
    decreases parts.len(),
{
    if parts.len() == 0 {
        Seq::empty()
    } else {
        match text::parse_number(parts.last(), u32::MAX as nat) {
            Some(n) => numbers_in(parts.drop_last()).push(n),
            None => numbers_in(parts.drop_last()),
        }
    }
}

/// The version that the first line of a program's output ends with.
pub open spec fn shown_version(output: Seq<char>) -> Option<Seq<char>> {
    let l = text::lines(output);
    if l.len() == 0 {
        None
    } else {
        let w = text::words(l[0]);
        if w.len() == 0 {
            None
        } else {
            Some(w.last())
        }
    }
}

/// What is said of the C library: one before 2.39 will be too old.
pub open spec fn glibc_findings(output: Option<Seq<char>>) -> Seq<FindingView> {
    match output {
        None => Seq::empty(),
        Some(o) => match shown_version(o) {
            None => Seq::empty(),
            Some(v) => {
                let n = numbers_in(text::split(v, '.'));
                if n.len() < 2 {
                    Seq::empty()
                } else if n[0] == 2 && n[1] < 39 {
                    seq![
                        finding(
                            Mark::Warn,
                            "glibc "@ + text::decimal(n[0]) + "."@ + text::decimal(n[1])
                                + " detected — Homebrew 5.2.0 will require glibc 2.39+. Consider upgrading to Ubuntu 24.04 or equivalent."@,
                        ),
                    ]
                } else {
                    seq![finding(Mark::Pass, "glibc version: "@ + v)]
                }
            },
        },
    }
}

fn numbers_of(v: &[char]) -> (r: Vec<u64>)
    ensures
        r@.len() == numbers_in(text::split(v@, '.')).len(),
        forall|i: int|
            0 <= i < r@.len() ==> (#[trigger] r@[i]) as nat == numbers_in(text::split(v@, '.'))[i],
{
    let p = pieces(v, '.');
    let ghost s = text::slices(p@);
    let mut out: Vec<u64> = Vec::new();
    for i in 0..p.len()
        invariant
            s == text::slices(p@),
            s == text::split(v@, '.'),
            out@.len() == numbers_in(s.take(i as int)).len(),
            forall|j: int|
                0 <= j < out@.len() ==> (#[trigger] out@[j]) as nat == numbers_in(
                    s.take(i as int),
                )[j],
    {
        proof {
            assert(s.take(i + 1).drop_last() =~= s.take(i as int));
            assert(s.take(i + 1).last() == p@[i as int]@);
        }
        match parsed_u64(p[i], u32::MAX as u64) {
            Some(n) => out.push(n),
            None => {},
        }
    }
    proof {
        assert(s.take(s.len() as int) =~= s);
    }
    out
}

fn version_shown(output: &str) -> (r: Option<String>)
    ensures
        text::opt_view(r) == shown_version(output@),
{
    let c = chars_of(output);
    let l = lines_of(c.as_slice());
    proof {
        assert(text::slices(l@).len() == l@.len());
    }
    if l.len() == 0 {
        return None;
    }
    proof {
        assert(text::slices(l@)[0] == l@[0]@);
    }
    let w = words_of(l[0]);
    proof {
        assert(text::slices(w@).len() == w@.len());
    }
    if w.len() == 0 {
        return None;
    }
    proof {
        assert(text::slices(w@).last() == w@[w@.len() - 1]@);
    }
    Some(string_of(w[w.len() - 1]))
}

/// What is said of the C library, given what it printed of itself.
pub fn check_glibc_version(d: &mut DiagResult, output: Option<&str>)
    requires
        old(d).wf(),
    ensures
        adds(*final(d), *old(d), glibc_findings(dirs::str_view(output))),
{
    let ghost start = *d;
    proof {
        assert(d@ =~= start@ + Seq::<FindingView>::empty());
    }
    match output {
        None => {},
        Some(o) => match version_shown(o) {
            None => {},
            Some(v) => {
                let c = chars_of(v.as_str());
                let n = numbers_of(c.as_slice());
                if n.len() >= 2 {
                    if n[0] == 2 && n[1] < 39 {
                        let mut m = four(
                            "glibc ",
                            number(n[0] as u128).as_str(),
                            ".",
                            number(n[1] as u128).as_str(),
                        );
                        m.append(
                            " detected — Homebrew 5.2.0 will require glibc 2.39+. Consider upgrading to Ubuntu 24.04 or equivalent.",
                        );
                        d.warn(m);
                    } else {
                        d.pass(two("glibc version: ", v.as_str()));
                    }
                }
            },
        },
    }
}

/// The first line that holds one of two texts, without the blanks around it.
pub open spec fn line_with(l: Seq<Seq<char>>, a: Seq<char>, b: Seq<char>) -> Option<Seq<char>>
    decreases l.len(),
{
    if l.len() == 0 {
        None
    } else if text::contains(l[0], a) || text::contains(l[0], b) {
        Some(text::trim(l[0]))
    } else {
        line_with(l.skip(1), a, b)
    }
}

fn find_line(output: &[char], a: &str, b: &str) -> (r: Option<String>)
    ensures
        text::opt_view(r) == line_with(text::lines(output@), a@, b@),
{
    let l = lines_of(output);
    let ghost s = text::slices(l@);
    proof {
        assert(s.skip(0) =~= s);
    }
    for i in 0..l.len()
        invariant
            s == text::slices(l@),
            s == text::lines(output@),
            line_with(s, a@, b@) == line_with(s.skip(i as int), a@, b@),
    {
        proof {
            assert(s.skip(i as int)[0] == l@[i as int]@);
            assert(s.skip(i as int).skip(1) =~= s.skip(i + 1));
        }
        if has(l[i], a) || has(l[i], b) {
            return Some(string_of(trimmed(l[i])));
        }
    }
    None
}

pub open spec fn or_detected(line: Option<Seq<char>>) -> Seq<char> {
    match line {
        Some(l) => l,
        None => "detected"@,
    }
}

/// What is said of graphics on macOS.
pub open spec fn metal_findings(output: Option<Seq<char>>) -> Seq<FindingView> {
    match output {
        None => Seq::empty(),
        Some(o) => if text::contains(o, "Metal Support"@) || text::contains(o, "Metal Family"@) {
            seq![
                finding(
                    Mark::Pass,
                    "Metal: "@ + or_detected(
                        line_with(text::lines(o), "Metal Support"@, "Metal Family"@),
                    ),
                ),
            ]
        } else {
            seq![finding(Mark::Warn, "Metal GPU support not detected"@)]
        },
    }
}

/// What is said of graphics on Linux: Vulkan counts before OpenGL.
pub open spec fn gpu_findings(vulkan: Option<Seq<char>>, gl: Option<Seq<char>>) -> Seq<FindingView> {
    if vulkan matches Some(o) && (text::contains(o, "apiVersion"@) || text::contains(
        o,
        "Vulkan Instance"@,
    )) {
        seq![
            finding(
                Mark::Pass,
                "Vulkan: "@ + or_detected(
                    line_with(text::lines(vulkan->0), "apiVersion"@, "apiVersion"@),
                ),
            ),
        ]
    } else if gl matches Some(o) && text::contains(o, "OpenGL version"@) {
        seq![
            finding(
                Mark::Pass,
                "GPU: "@ + or_detected(
                    line_with(text::lines(gl->0), "OpenGL version"@, "OpenGL version"@),
                ),
            ),
        ]
    } else {
        seq![
            finding(
                Mark::Warn,
                "no GPU toolchain detected (vulkaninfo/glxinfo not found)"@,
            ),
        ]
    }
}

fn said_line(what: &str, line: Option<String>) -> (r: String)
    ensures
        r@ == what@ + or_detected(text::opt_view(line)),
{
    match line {
        Some(l) => two(what, l.as_str()),
        None => two(what, "detected"),
    }
}

/// What is said of graphics on macOS, given what the system printed.
pub fn check_metal_toolchain(d: &mut DiagResult, output: Option<&str>)
    requires
        old(d).wf(),
    ensures
        adds(*final(d), *old(d), metal_findings(dirs::str_view(output))),
{
    let ghost start = *d;
    match output {
        None => {
            proof {
                assert(d@ =~= start@ + Seq::<FindingView>::empty());
            }
        },
        Some(o) => {
            let c = chars_of(o);
            if has(c.as_slice(), "Metal Support") || has(c.as_slice(), "Metal Family") {
                let line = find_line(c.as_slice(), "Metal Support", "Metal Family");
                d.pass(said_line("Metal: ", line));
            } else {
                d.warn(String::from_str("Metal GPU support not detected"));
            }
        },
    }
}

/// What is said of graphics on Linux, given what two programs printed.
pub fn check_gpu_toolchain(d: &mut DiagResult, vulkan: Option<&str>, gl: Option<&str>)
    requires
        old(d).wf(),
    ensures
        adds(*final(d), *old(d), gpu_findings(dirs::str_view(vulkan), dirs::str_view(gl))),
{
    match vulkan {
        Some(o) => {
            let c = chars_of(o);
            if has(c.as_slice(), "apiVersion") || has(c.as_slice(), "Vulkan Instance") {
                let line = find_line(c.as_slice(), "apiVersion", "apiVersion");
                d.pass(said_line("Vulkan: ", line));
                return;
            }
        },
        None => {},
    }
    match gl {
        Some(o) => {
            let c = chars_of(o);
            if has(c.as_slice(), "OpenGL version") {
                let line = find_line(c.as_slice(), "OpenGL version", "OpenGL version");
                d.pass(said_line("GPU: ", line));
                return;
            }
        },
        None => {},
    }
    d.warn(String::from_str("no GPU toolchain detected (vulkaninfo/glxinfo not found)"));
}

/// What is said of a tool.
pub open spec fn tool_finding(tool: Seq<char>, purpose: Seq<char>, there: bool) -> FindingView {
    if there {
        finding(Mark::Pass, tool + " installed ("@ + purpose + ")"@)
    } else {
        finding(Mark::Warn, tool + " not found ("@ + purpose + ")"@)
    }
}

/// What is said of the tools that are used; of Xcode's only on macOS.
pub open spec fn tools_findings(curl: bool, git: bool, xcode: Option<bool>, brew: bool) -> Seq<
    FindingView,
> {
    seq![
        tool_finding("curl"@, "required for downloads"@, curl),
        tool_finding("git"@, "required for taps"@, git),
    ] + (match xcode {
        Some(there) => seq![
            if there {
                finding(Mark::Pass, "xcode command line tools installed"@)
            } else {
                finding(
                    Mark::Warn,
                    "xcode command line tools not installed — run `xcode-select --install`"@,
                )
            },
        ],
        None => Seq::<FindingView>::empty(),
    }) + seq![
        if brew {
            finding(Mark::Pass, "homebrew installed"@)
        } else {
            finding(
                Mark::Warn,
                "homebrew not found (wax works standalone, but some features benefit from it)"@,
            )
        },
    ]
}

fn check_tool(d: &mut DiagResult, tool: &str, purpose: &str, there: bool)
    requires
        old(d).wf(),
    ensures
        adds(*final(d), *old(d), seq![tool_finding(tool@, purpose@, there)]),
{
    if there {
        d.pass(four(tool, " installed (", purpose, ")"));
    } else {
        d.warn(four(tool, " not found (", purpose, ")"));
    }
}

/// What is said of the tools that are used.
pub fn check_tools(d: &mut DiagResult, curl: bool, git: bool, xcode: Option<bool>, brew: bool)
    requires
        old(d).wf(),
    ensures
        adds(*final(d), *old(d), tools_findings(curl, git, xcode, brew)),
{
    let ghost start = *d;
    check_tool(d, "curl", "required for downloads", curl);
    check_tool(d, "git", "required for taps", git);
    match xcode {
        Some(there) => {
            if there {
                d.pass(String::from_str("xcode command line tools installed"));
            } else {
                d.warn(
                    String::from_str(
                        "xcode command line tools not installed — run `xcode-select --install`",
                    ),
                );
            }
        },
        None => {},
    }
    if brew {
        d.pass(String::from_str("homebrew installed"));
    } else {
        d.warn(
            String::from_str(
                "homebrew not found (wax works standalone, but some features benefit from it)",
            ),
        );
    }
    proof {
        assert(d@ =~= start@ + tools_findings(curl, git, xcode, brew));
    }
}

/// Every finding is counted, and counted once.
pub proof fn counts_add_up(s: Seq<FindingView>)
    ensures
        count(s, Mark::Pass) + count(s, Mark::Warn) + count(s, Mark::Fail) + count(s, Mark::Fixed)
            == s.len(),
    decreases s.len(),
{
    if s.len() > 0 {
        counts_add_up(s.drop_last());
    }
}

// ---------------------------------------------------------------------------
// Laws of what is found

/// A finding is counted under its own mark, and under no other.
pub proof fn findings_are_counted(s: Seq<FindingView>, x: FindingView, mark: Mark)
    ensures
        x.mark == mark ==> count(s.push(x), mark) == count(s, mark) + 1,
        x.mark != mark ==> count(s.push(x), mark) == count(s, mark),
        count(Seq::empty(), mark) == 0,
{
    assert(s.push(x).drop_last() =~= s);
}

/// A result tells how many checks passed, and then what else there was, in the order of
/// warnings, errors and what was fixed.
pub proof fn results_tell_their_counts(d: DiagResult)
    ensures
        d.parts().len() > 0 && d.parts()[0] == text::decimal(d.passed as nat) + " passed"@,
        d.warned == 0 && d.failed == 0 && d.fixed == 0 ==> d.parts().len() == 1,
        d.warned > 0 ==> d.parts().contains(text::decimal(d.warned as nat) + " warnings"@),
        d.failed > 0 ==> d.parts().contains(text::decimal(d.failed as nat) + " errors"@),
        d.fixed > 0 ==> d.parts().contains(text::decimal(d.fixed as nat) + " fixed"@)
            && d.parts().last() == text::decimal(d.fixed as nat) + " fixed"@,
{
    let w = if d.warned > 0 {
        1int
    } else {
        0int
    };
    let f = if d.failed > 0 {
        1int
    } else {
        0int
    };
    if d.warned > 0 {
        assert(d.parts()[1] == text::decimal(d.warned as nat) + " warnings"@);
    }
    if d.failed > 0 {
        assert(d.parts()[1 + w] == text::decimal(d.failed as nat) + " errors"@);
    }
    if d.fixed > 0 {
        assert(d.parts()[1 + w + f] == text::decimal(d.fixed as nat) + " fixed"@);
    }
}

/// A prefix that is there and can be written to passes; one that is missing fails unless it
/// is made; one that cannot be written to is warned of.
pub proof fn prefixes_are_checked(
    prefix: Seq<char>,
    there: bool,
    fix: bool,
    made: Option<std::result::Result<(), Seq<char>>>,
    e: Seq<char>,
)
    ensures
        prefix_findings(prefix, true, fix, made, true) == seq![
            finding(Mark::Pass, "prefix exists: "@ + prefix),
            finding(Mark::Pass, "prefix writable: "@ + prefix),
        ],
        prefix_findings(prefix, true, fix, made, false).last() == finding(
            Mark::Warn,
            "prefix not writable: "@ + prefix + " (use --user or sudo)"@,
        ),
        prefix_findings(prefix, false, false, made, true) == seq![
            finding(Mark::Fail, "prefix missing: "@ + prefix),
        ],
        prefix_findings(prefix, false, true, Some(Ok(())), true)[0] == finding(
            Mark::Fixed,
            "created prefix: "@ + prefix,
        ),
        prefix_findings(prefix, false, true, Some(Err(e)), true)[0].mark == Mark::Fail,
        prefix_findings(prefix, false, true, made, true).last() == finding(
            Mark::Pass,
            "prefix writable: "@ + prefix,
        ),
{
}

/// A cellar that is there passes with the number of its packages; one that is missing is
/// warned of, unless it is made.
pub proof fn cellars_are_checked(
    cellar: Seq<char>,
    n: nat,
    fix: bool,
    made: Option<std::result::Result<(), Seq<char>>>,
    e: Seq<char>,
)
    ensures
        cellar_findings(cellar, Some(n), fix, made) == seq![
            finding(Mark::Pass, "cellar: "@ + cellar + " ("@ + text::decimal(n) + " packages)"@),
        ],
        cellar_findings(cellar, None, false, made) == seq![
            finding(Mark::Warn, "cellar missing: "@ + cellar),
        ],
        cellar_findings(cellar, None, true, Some(Ok(()))) == seq![
            finding(Mark::Fixed, "created cellar: "@ + cellar),
        ],
        cellar_findings(cellar, None, true, Some(Err(e))) == seq![
            finding(Mark::Warn, "cannot create cellar: "@ + e),
        ],
{
}

/// A folder for links that is there needs no word; one that is missing is made or warned
/// of.
pub proof fn link_folders_are_checked(
    dir: Seq<char>,
    path: Seq<char>,
    fix: bool,
    made: Option<std::result::Result<(), Seq<char>>>,
    e: Seq<char>,
)
    ensures
        dir_findings(dir, path, true, fix, made).len() == 0,
        dir_findings(dir, path, false, false, made) == seq![
            finding(Mark::Warn, dir + " directory missing: "@ + path),
        ],
        dir_findings(dir, path, false, true, Some(Ok(()))) == seq![
            finding(Mark::Fixed, "created "@ + path),
        ],
        dir_findings(dir, path, false, true, Some(Err(e))) == seq![
            finding(Mark::Warn, "cannot create "@ + path + ": "@ + e),
        ],
        needed_dirs() == seq!["bin"@, "lib"@, "include"@, "share"@, "opt"@],
        searched_dirs() == seq!["bin"@, "lib"@, "sbin"@, "include"@, "share"@, "opt"@],
{
}

/// The folder of commands is in the search path exactly where it is one of the folders
/// between its colons.
pub proof fn search_path_is_checked(bin: Seq<char>, search: Seq<char>)
    ensures
        text::split(search, ':').contains(bin) ==> path_findings(bin, true, Some(search)) == seq![
            finding(Mark::Pass, bin + " is in PATH"@),
        ],
        !text::split(search, ':').contains(bin) ==> path_findings(bin, true, Some(search)).len()
            == 1 && path_findings(bin, true, Some(search))[0].mark == Mark::Warn,
        path_findings(bin, false, Some(search)).len() == 0,
        path_findings(bin, true, None).len() == 0,
{
}

/// An index is as old as the whole hours since it was read, and stale after a week.
pub proof fn indexes_are_stale_after_a_week(
    now: int,
    last_updated: i64,
    formulae: usize,
    casks: usize,
    e: String,
)
    ensures
        now >= last_updated ==> age_hours(now, last_updated as int) * 3600 <= now - last_updated < (
        age_hours(now, last_updated as int) + 1) * 3600,
        now < last_updated ==> age_hours(now, last_updated as int) == 0,
        stale(IndexState::Read { formulae, casks, last_updated }, now) <==> now - last_updated
            >= 169 * 3600,
        stale(IndexState::Missing, now),
        !stale(IndexState::Unreadable(e), now),
{
}

/// What was tried is told: as fixed where it worked, as a failure with its reason where it
/// did not.
pub proof fn attempts_are_told(fixed: Seq<char>, failed: Seq<char>, e: Seq<char>)
    ensures
        attempted(Some(Ok(())), fixed, failed) == seq![finding(Mark::Fixed, fixed)],
        attempted(Some(Err(e)), fixed, failed) == seq![finding(Mark::Fail, failed + e)],
        attempted(None, fixed, failed).len() == 0,
{
}

/// An index that is fresh passes with its size; a stale one is warned of; a missing one
/// fails, unless it is fetched again.
pub proof fn index_is_checked(
    formulae: usize,
    casks: usize,
    last_updated: i64,
    now: int,
    fix: bool,
    refreshed: Option<std::result::Result<(), Seq<char>>>,
    e: String,
)
    ensures
        ({
            let read = IndexState::Read { formulae, casks, last_updated };
            let f = cache_findings(read, now, fix, refreshed);
            &&& f.len() >= 2 && f[0] == finding(
                Mark::Pass,
                "cache: "@ + text::decimal(formulae as nat) + " formulae, "@ + text::decimal(
                    casks as nat,
                ) + " casks"@,
            )
            &&& !stale(read, now) ==> f.len() == 2 && f[1].mark == Mark::Pass
            &&& stale(read, now) ==> f[1].mark == Mark::Warn
            &&& stale(read, now) && fix ==> f.skip(2) == attempted(
                refreshed,
                "cache refreshed"@,
                "cache refresh failed: "@,
            )
            &&& !fix ==> f.len() == 2
        }),
        cache_findings(IndexState::Missing, now, false, refreshed).len() == 1 && cache_findings(
            IndexState::Missing,
            now,
            false,
            refreshed,
        )[0].mark == Mark::Fail,
        cache_findings(IndexState::Missing, now, true, refreshed)[0].mark == Mark::Warn,
        cache_findings(IndexState::Missing, now, true, refreshed).skip(1) == attempted(
            refreshed,
            "cache initialized"@,
            "cache init failed: "@,
        ),
        cache_findings(IndexState::Unreadable(e), now, fix, refreshed) == seq![
            finding(Mark::Fail, "cache error: "@ + e@),
        ],
{
    let read = IndexState::Read { formulae, casks, last_updated };
    let f = cache_findings(read, now, fix, refreshed);
    let a = attempted(refreshed, "cache refreshed"@, "cache refresh failed: "@);
    if stale(read, now) && fix {
        assert(f.skip(2) =~= a);
    }
    let b = attempted(refreshed, "cache initialized"@, "cache init failed: "@);
    assert(cache_findings(IndexState::Missing, now, true, refreshed).skip(1) =~= b);
}

/// The records of packages pass with their number; corrupt ones fail, unless they are made
/// anew.
pub proof fn records_are_checked(
    n: usize,
    e: String,
    fix: bool,
    saved: Option<std::result::Result<(), Seq<char>>>,
    rebuilt: Option<std::result::Result<(), Seq<char>>>,
)
    ensures
        install_state_findings(RecordState::Holding(n), fix, saved, rebuilt) == seq![
            finding(
                Mark::Pass,
                "install state: "@ + text::decimal(n as nat) + " packages tracked"@,
            ),
        ],
        install_state_findings(RecordState::Corrupt(e), false, saved, rebuilt) == seq![
            finding(Mark::Fail, "install state corrupt: "@ + e@),
        ],
        install_state_findings(RecordState::Corrupt(e), true, saved, rebuilt)[0] == finding(
            Mark::Warn,
            "install state corrupt: "@ + e@,
        ),
        install_state_findings(
            RecordState::Corrupt(e),
            true,
            Some(Ok(())),
            Some(Ok(())),
        ).last() == finding(Mark::Fixed, "install state rebuilt from cellar"@),
        install_state_findings(RecordState::Corrupt(e), true, Some(Ok(())), None).last()
            == finding(Mark::Fixed, "install state reset to empty"@),
        install_state_findings(RecordState::Unavailable(e), fix, saved, rebuilt) == seq![
            finding(Mark::Fail, "install state unavailable: "@ + e@),
        ],
        cask_state_findings(RecordState::Holding(0), fix, saved).len() == 0,
        n > 0 ==> cask_state_findings(RecordState::Holding(n), fix, saved) == seq![
            finding(Mark::Pass, "cask state: "@ + text::decimal(n as nat) + " casks tracked"@),
        ],
        cask_state_findings(RecordState::Corrupt(e), false, saved) == seq![
            finding(Mark::Fail, "cask state corrupt: "@ + e@),
        ],
        cask_state_findings(RecordState::Corrupt(e), true, Some(Ok(()))).last() == finding(
            Mark::Fixed,
            "cask state reset"@,
        ),
        cask_state_findings(RecordState::Unavailable(e), fix, saved) == seq![
            finding(Mark::Fail, "cask state unavailable: "@ + e@),
        ],
{
}

/// Each name is told in its order up to the most that are shown, and then how many more
/// there are.
pub proof fn many_are_capped(
    mark: Mark,
    names: Seq<Seq<char>>,
    most: nat,
    what: Seq<char>,
    rest: Seq<char>,
    i: int,
)
    ensures
        0 <= i < names.len() && i < most ==> capped(mark, names, most, what, rest)[i] == finding(
            mark,
            what + names[i],
        ),
        names.len() <= most ==> capped(mark, names, most, what, rest).len() == names.len(),
        names.len() > most ==> capped(mark, names, most, what, rest).len() == most + 1 && capped(
            mark,
            names,
            most,
            what,
            rest,
        ).last() == finding(
            mark,
            "... and "@ + text::decimal((names.len() - most) as nat) + rest,
        ),
{
}

/// What was mended is told, ten at most, and each failure is.
pub proof fn mending_is_told(
    labels: Seq<Seq<char>>,
    names: Seq<Seq<char>>,
    attempts: Seq<std::result::Result<(), Seq<char>>>,
    fixed: Seq<char>,
    failed: Seq<char>,
    label: Seq<char>,
    name: Seq<char>,
    e: Seq<char>,
    rest: Seq<char>,
)
    ensures
        ({
            let (before, n) = mended(labels, names, attempts, fixed, failed);
            let good = mended(
                labels.push(label),
                names.push(name),
                attempts.push(Ok(())),
                fixed,
                failed,
            );
            let bad = mended(
                labels.push(label),
                names.push(name),
                attempts.push(Err(e)),
                fixed,
                failed,
            );
            &&& good.1 == n + 1 && bad.1 == n
            &&& n < 10 ==> good.0 == before.push(finding(Mark::Fixed, fixed + label))
            &&& n >= 10 ==> good.0 == before
            &&& bad.0 == before.push(finding(Mark::Fail, failed + name + ": "@ + e))
            &&& n <= 10 ==> mended_findings(labels, names, attempts, fixed, failed, rest) == before
            &&& n > 10 ==> mended_findings(labels, names, attempts, fixed, failed, rest)
                == before.push(
                finding(Mark::Fixed, "... and "@ + text::decimal((n - 10) as nat) + rest),
            )
        }),
{
    assert(labels.push(label).drop_last() =~= labels);
    assert(names.push(name).drop_last() =~= names);
    assert(attempts.push(Ok(())).drop_last() =~= attempts);
    assert(attempts.push(Err(e)).drop_last() =~= attempts);
    let (before, n) = mended(labels, names, attempts, fixed, failed);
    assert(before + Seq::<FindingView>::empty() =~= before);
    if n > 10 {
        let x = finding(Mark::Fixed, "... and "@ + text::decimal((n - 10) as nat) + rest);
        assert(before + seq![x] =~= before.push(x));
    }
}

/// Without broken links all is well; each one that is left fails.
pub proof fn broken_links_are_told(
    links: Seq<Seq<char>>,
    attempts: Seq<std::result::Result<(), Seq<char>>>,
    fix: bool,
    i: int,
)
    ensures
        broken_findings(Seq::empty(), fix, attempts) == seq![
            finding(Mark::Pass, "no broken symlinks"@),
        ],
        0 <= i < links.len() && i < 5 ==> broken_findings(links, false, attempts)[i] == finding(
            Mark::Fail,
            "broken symlink: "@ + links[i],
        ),
        links.len() > 0 ==> broken_findings(links, true, attempts) == mended_findings(
            links,
            links,
            attempts,
            "removed broken symlink: "@,
            "cannot remove "@,
            " more broken symlinks removed"@,
        ),
{
}

/// The links that lead nowhere are found, in a folder and in the folders below it, and no
/// others.
pub proof fn broken_links_are_found(entries: Seq<DirEntry>, path: String, inner: Vec<DirEntry>)
    ensures
        broken_in(entries.push(DirEntry::Link { path, leads_somewhere: false })) == broken_in(
            entries,
        ).push(path@),
        broken_in(entries.push(DirEntry::Link { path, leads_somewhere: true })) == broken_in(
            entries,
        ),
        broken_in(entries.push(DirEntry::Dir(inner))) == broken_in(entries) + broken_in(inner@),
        broken_in(entries.push(DirEntry::Other)) == broken_in(entries),
        broken_in(Seq::empty()).len() == 0,
{
    let a = entries.push(DirEntry::Link { path, leads_somewhere: false });
    let b = entries.push(DirEntry::Link { path, leads_somewhere: true });
    let c = entries.push(DirEntry::Dir(inner));
    let d = entries.push(DirEntry::Other);
    assert(a.drop_last() =~= entries);
    assert(b.drop_last() =~= entries);
    assert(c.drop_last() =~= entries);
    assert(d.drop_last() =~= entries);
    let e = broken_in(entries);
    assert(e + Seq::<Seq<char>>::empty() =~= e);
    assert(e + seq![path@] =~= e.push(path@));
}

/// A path is told from the prefix that it lies in on; any other is told whole.
pub proof fn paths_are_told_from_the_prefix(prefix: Seq<char>, path: Seq<char>)
    ensures
        !paths::lies_in(path, prefix) ==> relative(path, prefix) == path,
        paths::lies_in(path, prefix) ==> relative(path, prefix) == text::join(
            paths::components(path).subrange(
                paths::components(prefix).len() as int,
                paths::components(path).len() as int,
            ),
            "/"@,
        ),
{
}

/// A package that is known not to be there is absent; one that is there, or of which it is
/// not known, is not.
pub proof fn absent_are_known_to_be(names: Seq<Seq<char>>, there: Seq<Option<bool>>, name: Seq<char>)
    requires
        names.len() == there.len(),
    ensures
        absent(names.push(name), there.push(Some(false))) == absent(names, there).push(name),
        absent(names.push(name), there.push(Some(true))) == absent(names, there),
        absent(names.push(name), there.push(None)) == absent(names, there),
        absent(Seq::empty(), Seq::empty()).len() == 0,
{
    assert(names.push(name).drop_last() =~= names);
    assert(there.push(Some(false)).drop_last() =~= there);
    assert(there.push(Some(true)).drop_last() =~= there);
    assert(there.push(None).drop_last() =~= there);
}

/// What lies in the cellar without a record is untracked.
pub proof fn untracked_have_no_record(
    names: Seq<Seq<char>>,
    name: Seq<char>,
    recorded: Set<Seq<char>>,
)
    ensures
        recorded.contains(name) ==> unrecorded(names.push(name), recorded) == unrecorded(
            names,
            recorded,
        ),
        !recorded.contains(name) ==> unrecorded(names.push(name), recorded) == unrecorded(
            names,
            recorded,
        ).push(name),
        unrecorded(Seq::empty(), recorded).len() == 0,
{
    assert(names.push(name).drop_last() =~= names);
}

/// Records of what is missing are dropped where that is asked for, and told else; what is
/// untracked is registered or told.
pub proof fn mismatches_are_told(
    names: Seq<Seq<char>>,
    synced: Option<std::result::Result<(), Seq<char>>>,
    e: Seq<char>,
    i: int,
)
    requires
        0 <= i < names.len(),
    ensures
        missing_findings(names, true).len() == names.len(),
        missing_findings(names, true)[i] == finding(
            Mark::Fixed,
            "removed stale tracking entry: "@ + names[i],
        ),
        i < 3 ==> missing_findings(names, false)[i] == finding(
            Mark::Warn,
            "tracked but missing from cellar: "@ + names[i],
        ),
        i < 3 ==> untracked_findings(names, false, synced)[i] == finding(
            Mark::Warn,
            "in cellar but untracked: "@ + names[i],
        ),
        untracked_findings(names, true, Some(Ok(()))).last() == finding(
            Mark::Fixed,
            "registered "@ + text::decimal(names.len()) + " untracked packages"@,
        ),
        untracked_findings(names, true, Some(Err(e))).last() == finding(
            Mark::Fail,
            "cellar sync failed: "@ + e,
        ),
        untracked_findings(Seq::empty(), true, synced).len() == 0,
{
}

/// The version that a tool shows is the last word of its first line, and its numbers are
/// those between its dots.
pub proof fn versions_are_shown_last(
    l: Seq<Seq<char>>,
    output: Seq<char>,
    parts: Seq<Seq<char>>,
    part: Seq<char>,
    n: nat,
)
    ensures
        text::lines(output) == l && l.len() > 0 && text::words(l[0]).len() > 0 ==> shown_version(
            output,
        ) == Some(text::words(l[0])[text::words(l[0]).len() - 1]),
        text::lines(output).len() == 0 ==> shown_version(output) is None,
        text::parse_number(part, u32::MAX as nat) == Some(n) ==> numbers_in(parts.push(part))
            == numbers_in(parts).push(n),
        text::parse_number(part, u32::MAX as nat) is None ==> numbers_in(parts.push(part))
            == numbers_in(parts),
        numbers_in(Seq::empty()).len() == 0,
{
    assert(parts.push(part).drop_last() =~= parts);
}

/// A library of C before 2.39 is warned of; a later one passes; one whose version cannot be
/// told needs no word.
pub proof fn old_libraries_are_warned_of(output: Seq<char>, v: Seq<char>)
    requires
        shown_version(output) == Some(v),
    ensures
        ({
            let n = numbers_in(text::split(v, '.'));
            let f = glibc_findings(Some(output));
            &&& n.len() < 2 ==> f.len() == 0
            &&& n.len() >= 2 && n[0] == 2 && n[1] < 39 ==> f.len() == 1 && f[0].mark == Mark::Warn
            &&& n.len() >= 2 && (n[0] != 2 || n[1] >= 39) ==> f == seq![
                finding(Mark::Pass, "glibc version: "@ + v),
            ]
        }),
        glibc_findings(None).len() == 0,
{
}

/// The first line that holds one of two words is told, without the space around it.
pub proof fn first_telling_line_is_told(
    before: Seq<Seq<char>>,
    line: Seq<char>,
    after: Seq<Seq<char>>,
    a: Seq<char>,
    b: Seq<char>,
)
    requires
        text::contains(line, a) || text::contains(line, b),
        forall|i: int|
            0 <= i < before.len() ==> !text::contains(#[trigger] before[i], a) && !text::contains(
                before[i],
                b,
            ),
    ensures
        line_with(before + seq![line] + after, a, b) == Some(text::trim(line)),
        line_with(before, a, b) is None,
    decreases before.len(),
{
    let all = before + seq![line] + after;
    if before.len() == 0 {
        assert(all[0] == line);
    } else {
        let t = before.skip(1);
        assert forall|i: int| 0 <= i < t.len() implies !text::contains(#[trigger] t[i], a)
            && !text::contains(t[i], b) by {
            assert(t[i] == before[i + 1]);
        }
        first_telling_line_is_told(t, line, after, a, b);
        assert(all[0] == before[0]);
        assert(all.skip(1) =~= t + seq![line] + after);
    }
}

/// Graphics pass where a tool tells of them, and are warned of where none does.
pub proof fn graphics_are_checked(o: Seq<char>, gl: Option<Seq<char>>, line: Seq<char>)
    ensures
        metal_findings(None).len() == 0,
        text::contains(o, "Metal Support"@) || text::contains(o, "Metal Family"@)
            ==> metal_findings(Some(o)).len() == 1 && metal_findings(Some(o))[0].mark == Mark::Pass
            && text::starts_with(metal_findings(Some(o))[0].message, "Metal: "@),
        !text::contains(o, "Metal Support"@) && !text::contains(o, "Metal Family"@)
            ==> metal_findings(Some(o)) == seq![
            finding(Mark::Warn, "Metal GPU support not detected"@),
        ],
        text::contains(o, "apiVersion"@) || text::contains(o, "Vulkan Instance"@) ==> gpu_findings(
            Some(o),
            gl,
        ).len() == 1 && gpu_findings(Some(o), gl)[0].mark == Mark::Pass && text::starts_with(
            gpu_findings(Some(o), gl)[0].message,
            "Vulkan: "@,
        ),
        text::contains(o, "OpenGL version"@) ==> gpu_findings(None, Some(o)).len() == 1
            && gpu_findings(None, Some(o))[0].mark == Mark::Pass && text::starts_with(
            gpu_findings(None, Some(o))[0].message,
            "GPU: "@,
        ),
        !text::contains(o, "OpenGL version"@) ==> gpu_findings(None, Some(o)).len() == 1
            && gpu_findings(None, Some(o))[0].mark == Mark::Warn,
        gpu_findings(None, None)[0].mark == Mark::Warn,
        or_detected(Some(line)) == line,
        or_detected(None) == "detected"@,
{
    let m = line_with(text::lines(o), "Metal Support"@, "Metal Family"@);
    let v = line_with(text::lines(o), "apiVersion"@, "apiVersion"@);
    let g = line_with(text::lines(o), "OpenGL version"@, "OpenGL version"@);
    text::stripping_undoes_prefixing("Metal: "@, or_detected(m));
    text::stripping_undoes_prefixing("Vulkan: "@, or_detected(v));
    text::stripping_undoes_prefixing("GPU: "@, or_detected(g));
    let a = "Metal: "@ + or_detected(m);
    let b = "Vulkan: "@ + or_detected(v);
    let c = "GPU: "@ + or_detected(g);
    assert(a.subrange(0, "Metal: "@.len() as int) =~= "Metal: "@);
    assert(b.subrange(0, "Vulkan: "@.len() as int) =~= "Vulkan: "@);
    assert(c.subrange(0, "GPU: "@.len() as int) =~= "GPU: "@);
}

/// Each tool passes where it is there and is warned of where it is not; the tools of Xcode
/// are asked for only where they belong.
pub proof fn tools_are_checked(tool: Seq<char>, purpose: Seq<char>, curl: bool, git: bool, brew: bool)
    ensures
        tool_finding(tool, purpose, true) == finding(
            Mark::Pass,
            tool + " installed ("@ + purpose + ")"@,
        ),
        tool_finding(tool, purpose, false) == finding(
            Mark::Warn,
            tool + " not found ("@ + purpose + ")"@,
        ),
        tools_findings(curl, git, None, brew).len() == 3,
        tools_findings(curl, git, Some(true), brew).len() == 4,
        tools_findings(curl, git, Some(true), brew)[0] == tool_finding(
            "curl"@,
            "required for downloads"@,
            curl,
        ),
        tools_findings(curl, git, Some(true), brew)[1] == tool_finding(
            "git"@,
            "required for taps"@,
            git,
        ),
        tools_findings(curl, git, Some(true), brew)[2].mark == Mark::Pass,
        tools_findings(curl, git, Some(false), brew)[2].mark == Mark::Warn,
        tools_findings(curl, git, None, brew)[2].mark == if brew {
            Mark::Pass
        } else {
            Mark::Warn
        },
        tools_findings(curl, git, Some(true), brew)[3].mark == if brew {
            Mark::Pass
        } else {
            Mark::Warn
        },
{
}

/// A package is told with its version behind it.
pub proof fn packages_are_told_with_versions(names: Seq<Seq<char>>, versions: Seq<Seq<char>>, i: int)
    ensures
        versioned(names, versions).len() == names.len(),
        0 <= i < names.len() ==> versioned(names, versions)[i] == names[i] + "@"@ + versions[i],
{
}

/// An old index is told with its age in days, a missing one with what to do.
pub proof fn ages_are_told(
    formulae: usize,
    casks: usize,
    last_updated: i64,
    now: int,
    refreshed: Option<std::result::Result<(), Seq<char>>>,
    names: Seq<Seq<char>>,
)
    ensures
        ({
            let read = IndexState::Read { formulae, casks, last_updated };
            let hours = age_hours(now, last_updated as int);
            let days = text::decimal((hours / 24) as nat);
            &&& !stale(read, now) ==> cache_findings(read, now, true, refreshed)[1] == finding(
                Mark::Pass,
                "cache age: "@ + text::decimal(hours as nat) + "h (updated recently)"@,
            )
            &&& stale(read, now) ==> cache_findings(read, now, true, refreshed)[1] == finding(
                Mark::Warn,
                "cache is "@ + days + " days old — refreshing..."@,
            )
            &&& stale(read, now) ==> cache_findings(read, now, false, refreshed)[1] == finding(
                Mark::Warn,
                "cache is "@ + days + " days old — run `wax update`"@,
            )
        }),
        cache_findings(IndexState::Missing, now, false, refreshed)[0] == finding(
            Mark::Fail,
            "cache not initialized — run `wax update`"@,
        ),
        cache_findings(IndexState::Missing, now, true, refreshed)[0] == finding(
            Mark::Warn,
            "cache not initialized — refreshing..."@,
        ),
        names.len() > 3 ==> untracked_findings(names, false, refreshed).last() == finding(
            Mark::Warn,
            "... and "@ + text::decimal((names.len() - 3) as nat) + " more untracked packages"@,
        ) && missing_findings(names, false).last() == finding(
            Mark::Warn,
            "... and "@ + text::decimal((names.len() - 3) as nat) + " more missing packages"@,
        ),
        names.len() > 5 ==> broken_findings(names, false, Seq::empty()).last() == finding(
            Mark::Fail,
            "... and "@ + text::decimal((names.len() - 5) as nat) + " more broken symlinks"@,
        ),
{
}

}
