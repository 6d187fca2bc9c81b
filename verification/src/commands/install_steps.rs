//! The steps of an installation: what follows its plan, what becomes of the
//! bottles that are fetched, and how a bottle is put in place.
use crate::commands::install::{InstallPlan, PlanView, RequestStepView, RequestView};
use crate::commands::install_casks::CaskRequestsView;
use crate::commands::{install, install_casks};
use crate::install::formula_path;
use crate::{paths, text};
use vstd::prelude::*;

verus! {

// ---------------------------------------------------------------------------
// After the plan

/// What follows a plan.
#[derive(Debug)]
pub enum Next {
    /// No formula is left to install.
    Nothing,
    /// The lines that a trial run shows.
    Trial(Vec<String>),
    Install,
}

/// The mathematical content of a `Next`.
pub enum NextView {
    Nothing,
    Trial(Seq<Seq<char>>),
    Install,
}

impl View for Next {
    type V = NextView;

    open spec fn view(&self) -> NextView {
        match *self {
            Next::Nothing => NextView::Nothing,
            Next::Trial(lines) => NextView::Trial(text::views(lines@)),
            Next::Install => NextView::Install,
        }
    }
}

/// A `Next` is seen as what it holds.
pub proof fn next_is_seen_as_it_is(x: Next)
    ensures
        x is Nothing ==> x@ == NextView::Nothing,
        x matches Next::Trial(lines) ==> x@ == (NextView::Trial(text::views(lines@))),
        x is Install ==> x@ == NextView::Install,
{
}

pub open spec fn trial_lines(names: Seq<Seq<char>>) -> Seq<Seq<char>> {
    Seq::new(names.len(), |i: int| "+ "@ + names[i])
}

/// What follows a plan: nothing where it holds no formula, and in a trial run a
/// line for each formula that it holds.
pub open spec fn next_of(p: PlanView, dry_run: bool) -> NextView {
    if p.all_to_install.len() == 0 {
        NextView::Nothing
    } else if dry_run {
        NextView::Trial(trial_lines(p.all_to_install))
    } else {
        NextView::Install
    }
}

/// What follows a plan.
pub fn after_plan(plan: &InstallPlan, dry_run: bool) -> (r: Next)
    ensures
        r@ == next_of(plan@, dry_run),
{
    let names = &plan.all_to_install;
    proof {
        assert(plan@.all_to_install.len() == names@.len());
    }
    if names.len() == 0 {
        return Next::Nothing;
    }
    if !dry_run {
        return Next::Install;
    }
    let mut lines: Vec<String> = Vec::new();
    for i in 0..names.len()
        invariant
            lines@.len() == i,
            forall|j: int| 0 <= j < i ==> (#[trigger] lines@[j])@ == "+ "@ + names@[j]@,
    {
        let mut line = String::from_str("+ ");
        line.append(names[i].as_str());
        lines.push(line);
    }
    proof {
        assert(text::views(lines@) =~= trial_lines(plan@.all_to_install));
    }
    Next::Trial(lines)
}

/// The versions that are installed by themselves.
pub open spec fn versions_installed(requests: Seq<RequestView>, dry_run: bool) -> Seq<Seq<char>>
    decreases requests.len(),
{
    if requests.len() == 0 {
        Seq::empty()
    } else {
        let before = versions_installed(requests.drop_last(), dry_run);
        match install::step_for(requests.last(), dry_run) {
            RequestStepView::InstallVersion { name, version } => before.push(
                name + "@"@ + version,
            ),
            _ => before,
        }
    }
}

/// Everything that an installation hands on to be installed: versions by themselves,
/// the formulae of its plan, and its casks.
pub open spec fn handed_on(
    requests: Seq<RequestView>,
    p: PlanView,
    c: CaskRequestsView,
    dry_run: bool,
) -> Seq<Seq<char>> {
    versions_installed(requests, dry_run) + (if next_of(p, dry_run) is Install {
        p.all_to_install
    } else {
        Seq::empty()
    }) + (if install_casks::cask_next_of(c, dry_run) is Install {
        c.to_install + c.linux_installs
    } else {
        Seq::empty()
    })
}

proof fn trial_installs_no_version(requests: Seq<RequestView>)
    ensures
        versions_installed(requests, true) == Seq::<Seq<char>>::empty(),
    decreases requests.len(),
{
    if requests.len() > 0 {
        trial_installs_no_version(requests.drop_last());
    }
}

/// A trial run changes nothing: whatever was asked for, no version, no formula and no
/// cask is handed on to be installed.
pub proof fn trial_changes_nothing(requests: Seq<RequestView>, p: PlanView, c: CaskRequestsView)
    ensures
        handed_on(requests, p, c, true) == Seq::<Seq<char>>::empty(),
{
    trial_installs_no_version(requests);
    assert(handed_on(requests, p, c, true) =~= Seq::<Seq<char>>::empty());
}

/// Otherwise everything is handed on: the formulae of the plan and the casks that
/// are not installed.
pub proof fn all_is_handed_on(
    requests: Seq<RequestView>,
    p: PlanView,
    c: CaskRequestsView,
    name: Seq<char>,
)
    requires
        p.all_to_install.contains(name) || c.to_install.contains(name)
            || c.linux_installs.contains(name),
    ensures
        handed_on(requests, p, c, false).contains(name),
{
    let v = versions_installed(requests, false);
    let h = handed_on(requests, p, c, false);
    if p.all_to_install.contains(name) {
        let i = choose|i: int| 0 <= i < p.all_to_install.len() && p.all_to_install[i] == name;
        assert(h[v.len() + i] == name);
    } else {
        let n = v.len() + p.all_to_install.len();
        assert(c.to_install.len() > 0 || c.linux_installs.len() > 0);
        if c.to_install.contains(name) {
            let i = choose|i: int| 0 <= i < c.to_install.len() && c.to_install[i] == name;
            assert(h[n + i] == name);
        } else {
            let i = choose|i: int| 0 <= i < c.linux_installs.len() && c.linux_installs[i] == name;
            assert(h[n + c.to_install.len() + i] == name);
        }
    }
}

// ---------------------------------------------------------------------------
// Collecting what was fetched

/// How the fetching of a bottle ended.
#[derive(Debug)]
pub enum TaskEnd {
    /// It was fetched, is sound, and was unpacked.
    Fetched,
    /// It stopped because the installation was interrupted.
    Interrupted,
    Failed(String),
    /// The task was cancelled.
    Cancelled,
    /// The task broke off.
    Broken(String),
}

/// The mathematical content of a `TaskEnd`.
pub enum EndView {
    Fetched,
    Interrupted,
    Failed(Seq<char>),
    Cancelled,
    Broken(Seq<char>),
}

impl View for TaskEnd {
    type V = EndView;

    open spec fn view(&self) -> EndView {
        match *self {
            TaskEnd::Fetched => EndView::Fetched,
            TaskEnd::Interrupted => EndView::Interrupted,
            TaskEnd::Failed(m) => EndView::Failed(m@),
            TaskEnd::Cancelled => EndView::Cancelled,
            TaskEnd::Broken(m) => EndView::Broken(m@),
        }
    }
}

/// A `TaskEnd` is seen as what it holds.
pub proof fn task_end_is_seen_as_it_is(x: TaskEnd)
    ensures
        x is Fetched ==> x@ == EndView::Fetched,
        x is Interrupted ==> x@ == EndView::Interrupted,
        x matches TaskEnd::Failed(m) ==> x@ == (EndView::Failed(m@)),
        x is Cancelled ==> x@ == EndView::Cancelled,
        x matches TaskEnd::Broken(m) ==> x@ == (EndView::Broken(m@)),
{
}

/// What came of the tasks so far.
#[derive(Debug)]
pub struct Collected {
    /// Why packages failed.
    pub failed: Vec<String>,
    pub cancelled: bool,
}

/// The mathematical content of a `Collected`.
#[verifier::ext_equal]
pub struct CollectedView {
    pub failed: Seq<Seq<char>>,
    pub cancelled: bool,
}

impl View for Collected {
    type V = CollectedView;

    open spec fn view(&self) -> CollectedView {
        CollectedView { failed: text::views(self.failed@), cancelled: self.cancelled }
    }
}

/// A `Collected` is seen as what it holds.
pub proof fn collected_is_seen_as_it_is(x: Collected)
    ensures
        x@.failed == text::views(x.failed@),
        x@.cancelled == x.cancelled,
{
}

/// A task is awaited unless the installation is cancelled or a shutdown was asked
/// for, which cancels it.
pub open spec fn awaiting(c: CollectedView, shutdown: bool) -> CollectedView {
    CollectedView { cancelled: c.cancelled || shutdown, ..c }
}

/// What came of the tasks with one more of them.
pub open spec fn with_end(c: CollectedView, end: EndView) -> CollectedView {
    match end {
        EndView::Fetched => c,
        EndView::Interrupted => CollectedView { cancelled: true, ..c },
        EndView::Cancelled => CollectedView { cancelled: true, ..c },
        EndView::Failed(m) => CollectedView { failed: c.failed.push(m), ..c },
        EndView::Broken(m) => CollectedView { failed: c.failed.push("Task error: "@ + m), ..c },
    }
}

impl Collected {
    pub fn new() -> (r: Self)
        ensures
            r@ == (CollectedView { failed: Seq::empty(), cancelled: false }),
    {
        let r = Collected { failed: Vec::new(), cancelled: false };
        proof {
            assert(r@ =~= (CollectedView { failed: Seq::empty(), cancelled: false }));
        }
        r
    }

    /// Whether the next task is awaited; otherwise it is aborted.
    pub fn awaits(&mut self, shutdown: bool) -> (r: bool)
        ensures
            final(self)@ == awaiting(old(self)@, shutdown),
            r == !final(self)@.cancelled,
    {
        if self.cancelled || shutdown {
            self.cancelled = true;
            false
        } else {
            true
        }
    }

    fn fail(&mut self, message: String)
        ensures
            final(self)@ == (CollectedView {
                failed: old(self)@.failed.push(message@),
                ..old(self)@
            }),
    {
        let ghost before = self@;
        let ghost m = message@;
        self.failed.push(message);
        proof {
            assert(self@.failed =~= before.failed.push(m));
        }
    }

    /// Takes up how a task ended; the result is whether its bottle is installed
    /// now.
    pub fn ended(&mut self, end: &TaskEnd) -> (r: bool)
        ensures
            final(self)@ == with_end(old(self)@, end@),
            r == (end@ is Fetched),
    {
        match end {
            TaskEnd::Fetched => true,
            TaskEnd::Interrupted => {
                self.cancelled = true;
                false
            },
            TaskEnd::Cancelled => {
                self.cancelled = true;
                false
            },
            TaskEnd::Failed(m) => {
                self.fail(m.clone());
                false
            },
            TaskEnd::Broken(m) => {
                let mut t = String::from_str("Task error: ");
                t.append(m.as_str());
                self.fail(t);
                false
            },
        }
    }

    /// Takes up how the installation of a bottle ended.
    pub fn installed(&mut self, outcome: std::result::Result<(), String>)
        ensures
            final(self)@ == match outcome {
                Ok(_) => old(self)@,
                Err(m) => with_end(old(self)@, EndView::Failed(m@)),
            },
    {
        match outcome {
            Ok(_) => {},
            Err(m) => self.fail(m),
        }
    }
}

/// A cancelled installation stays cancelled, and no task of it is awaited any
/// more.
pub proof fn cancellation_stays(c: CollectedView, shutdown: bool, end: EndView)
    requires
        c.cancelled,
    ensures
        awaiting(c, shutdown).cancelled,
        with_end(c, end).cancelled,
{
}

/// No failure is forgotten.
pub proof fn failures_stay(c: CollectedView, end: EndView, i: int)
    requires
        0 <= i < c.failed.len(),
    ensures
        i < with_end(c, end).failed.len(),
        with_end(c, end).failed[i] == c.failed[i],
{
}

// ---------------------------------------------------------------------------
// Putting a bottle in place

/// A step that puts a bottle in place.
#[derive(Debug)]
pub enum BottleStep {
    /// What is there is removed.
    Clear(String),
    Make(String),
    Copy { from: String, to: String },
    /// The placeholders below the directory are replaced.
    Relocate { dir: String, prefix: String },
    Link,
    Record,
}

/// The mathematical content of a `BottleStep`.
pub enum BottleStepView {
    Clear(Seq<char>),
    Make(Seq<char>),
    Copy { from: Seq<char>, to: Seq<char> },
    Relocate { dir: Seq<char>, prefix: Seq<char> },
    Link,
    Record,
}

impl View for BottleStep {
    type V = BottleStepView;

    open spec fn view(&self) -> BottleStepView {
        match *self {
            BottleStep::Clear(p) => BottleStepView::Clear(p@),
            BottleStep::Make(p) => BottleStepView::Make(p@),
            BottleStep::Copy { from, to } => BottleStepView::Copy { from: from@, to: to@ },
            BottleStep::Relocate { dir, prefix } => BottleStepView::Relocate {
                dir: dir@,
                prefix: prefix@,
            },
            BottleStep::Link => BottleStepView::Link,
            BottleStep::Record => BottleStepView::Record,
        }
    }
}

/// A `BottleStep` is seen as what it holds.
pub proof fn bottle_step_is_seen_as_it_is(x: BottleStep)
    ensures
        x matches BottleStep::Clear(p) ==> x@ == (BottleStepView::Clear(p@)),
        x matches BottleStep::Make(p) ==> x@ == (BottleStepView::Make(p@)),
        x matches BottleStep::Copy { from, to } ==> x@ == (BottleStepView::Copy {
            from: from@,
            to: to@,
        }),
        x matches BottleStep::Relocate { dir, prefix } ==> x@ == (BottleStepView::Relocate {
            dir: dir@,
            prefix: prefix@,
        }),
        x is Link ==> x@ == BottleStepView::Link,
        x is Record ==> x@ == BottleStepView::Record,
{
}

pub open spec fn bottle_step_views(v: Seq<BottleStep>) -> Seq<BottleStepView> {
    Seq::new(v.len(), |i: int| v[i]@)
}

/// The steps that put a bottle in place: its directory is made anew, filled and
/// relocated before anything links to it, and it is recorded last. The hooks that a
/// formula defines for the time after its installation are passed over.
pub open spec fn bottle_plan(
    home: Seq<char>,
    there: bool,
    content: Seq<char>,
    prefix: Seq<char>,
) -> Seq<BottleStepView> {
    (if there {
        seq![BottleStepView::Clear(home)]
    } else {
        Seq::<BottleStepView>::empty()
    }) + seq![
        BottleStepView::Make(home),
        BottleStepView::Copy { from: content, to: home },
        BottleStepView::Relocate { dir: home, prefix },
        BottleStepView::Link,
        BottleStepView::Record,
    ]
}

/// The steps that put a bottle in place, for the version `version` of `name` in
/// `cellar`, whose content lies in `content`.
pub fn bottle_steps(
    name: &str,
    version: &str,
    cellar: &str,
    there: bool,
    content: &str,
    prefix: &str,
) -> (r: Vec<BottleStep>)
    ensures
        bottle_step_views(r@) == bottle_plan(
            paths::path_join(paths::path_join(cellar@, name@), version@),
            there,
            content@,
            prefix@,
        ),
{
    let home = formula_path(cellar, name, version);
    let mut v: Vec<BottleStep> = Vec::new();
    if there {
        v.push(BottleStep::Clear(home.clone()));
    }
    v.push(BottleStep::Make(home.clone()));
    v.push(BottleStep::Copy { from: String::from_str(content), to: home.clone() });
    v.push(BottleStep::Relocate { dir: home.clone(), prefix: String::from_str(prefix) });
    v.push(BottleStep::Link);
    v.push(BottleStep::Record);
    proof {
        assert(bottle_step_views(v@) =~= bottle_plan(home@, there, content@, prefix@));
    }
    v
}

/// Nothing is recorded before it is in place: the last step, and only the last,
/// records the bottle, and everything that changes its directory comes before
/// the links to it are made.
pub proof fn recording_comes_last(
    home: Seq<char>,
    there: bool,
    content: Seq<char>,
    prefix: Seq<char>,
    i: int,
)
    requires
        0 <= i < bottle_plan(home, there, content, prefix).len(),
    ensures
        bottle_plan(home, there, content, prefix)[i] is Record <==> i
            == bottle_plan(home, there, content, prefix).len() - 1,
        ({
            let s = bottle_plan(home, there, content, prefix);
            s[i] is Clear || s[i] is Make || s[i] is Copy || s[i] is Relocate ==> exists|j: int|
                i < j < s.len() && (#[trigger] s[j]) is Link
        }),
{
    let s = bottle_plan(home, there, content, prefix);
    let k: int = if there {
        4
    } else {
        3
    };
    assert(s[k] is Link);
}

/// How a package came to be installed.
#[derive(Debug, Clone, Copy, PartialEq, Eq, Structural)]
pub enum Origin {
    Bottle,
    Binary,
    Source,
    Head,
}

/// The line of a package that was installed.
pub fn installed_line(name: &str, version: &str, origin: Origin) -> (r: String)
    ensures
        r@ == "+ "@ + name@ + "@"@ + version@ + (match origin {
            Origin::Bottle => ""@,
            Origin::Binary => " (binary)"@,
            Origin::Source => " (source)"@,
            Origin::Head => " (HEAD)"@,
        }),
{
    let mut m = String::from_str("+ ");
    m.append(name);
    m.append("@");
    m.append(version);
    match origin {
        Origin::Bottle => m.append(""),
        Origin::Binary => m.append(" (binary)"),
        Origin::Source => m.append(" (source)"),
        Origin::Head => m.append(" (HEAD)"),
    }
    m
}

/// A plan is followed unless there is nothing in it; a trial lists each name of it.
pub proof fn plans_are_followed(p: PlanView, i: int)
    ensures
        p.all_to_install.len() == 0 ==> next_of(p, false) == NextView::Nothing && next_of(p, true)
            == NextView::Nothing,
        p.all_to_install.len() > 0 ==> next_of(p, false) == NextView::Install,
        p.all_to_install.len() > 0 ==> (next_of(p, true) matches NextView::Trial(l) && l.len()
            == p.all_to_install.len() && (0 <= i < l.len() ==> l[i] == "+ "@
            + p.all_to_install[i])),
{
}

/// A version that is asked for is handed on with its name, unless it is a trial.
pub proof fn versions_are_handed_on(requests: Seq<RequestView>, name: Seq<char>, version: Seq<char>)
    ensures
        versions_installed(requests.push(RequestView::Version { name, version }), false)
            == versions_installed(requests, false).push(name + "@"@ + version),
        versions_installed(requests.push(RequestView::Version { name, version }), true)
            == versions_installed(requests, true),
        versions_installed(requests.push(RequestView::Unknown), false) == versions_installed(
            requests,
            false,
        ),
{
    assert(requests.push(RequestView::Version { name, version }).drop_last() =~= requests);
    assert(requests.push(RequestView::Unknown).drop_last() =~= requests);
}

/// A task that was interrupted or cancelled cancels the rest and is no failure; one that
/// failed or broke is a failure and cancels nothing; one that was fetched is neither.
pub proof fn ends_are_collected(c: CollectedView, m: Seq<char>)
    ensures
        with_end(c, EndView::Fetched) == c,
        with_end(c, EndView::Interrupted) == (CollectedView { cancelled: true, ..c }),
        with_end(c, EndView::Cancelled) == (CollectedView { cancelled: true, ..c }),
        with_end(c, EndView::Failed(m)) == (CollectedView { failed: c.failed.push(m), ..c }),
        with_end(c, EndView::Broken(m)) == (CollectedView {
            failed: c.failed.push("Task error: "@ + m),
            ..c
        }),
        awaiting(c, false) == c,
        awaiting(c, true) == (CollectedView { cancelled: true, ..c }),
{
}

/// A bottle is put in place of what is there: the old version goes, the content comes to
/// the new place, where it is relocated to its prefix, linked and recorded, in this order.
pub proof fn bottles_are_put_in_place(
    home: Seq<char>,
    content: Seq<char>,
    prefix: Seq<char>,
)
    ensures
        ({
            let s = bottle_plan(home, false, content, prefix);
            &&& s.len() == 5
            &&& s[0] == BottleStepView::Make(home)
            &&& s[1] == (BottleStepView::Copy { from: content, to: home })
            &&& s[2] == (BottleStepView::Relocate { dir: home, prefix })
            &&& s[3] == BottleStepView::Link
            &&& s[4] == BottleStepView::Record
            &&& bottle_plan(home, true, content, prefix) == seq![BottleStepView::Clear(home)] + s
        }),
{
    let s = bottle_plan(home, false, content, prefix);
    assert(bottle_plan(home, true, content, prefix) =~= seq![BottleStepView::Clear(home)] + s);
}

}
