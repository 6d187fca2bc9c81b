//! The order in which an upgrade of everything goes about its work: package by
//! package, the old version is removed and then the new one is installed, and
//! the packages that depend on them are reinstalled at the end.
use crate::commands::upgrade::{OutdatedPackage, OutdatedView};
use crate::text;
use vstd::prelude::*;

verus! {

/// What an upgrade does next.
#[derive(Debug, Clone, Copy, PartialEq, Eq, Structural)]
pub enum Phase {
    /// The outdated package at this place is removed.
    Remove(usize),
    /// The new version of the package at this place is installed.
    Install(usize),
    /// The dependent at this place is removed.
    RemoveDependent(usize),
    /// The dependent at this place is installed again.
    InstallDependent(usize),
    Finished,
}

/// How far an upgrade got.
#[derive(Debug)]
pub struct UpgradeRun {
    /// How many packages are outdated.
    pub total: usize,
    /// How many dependents are reinstalled.
    pub dependents: usize,
    pub phase: Phase,
    pub succeeded: usize,
    /// The places of the packages that failed.
    pub failed: Vec<usize>,
}

/// The mathematical content of an `UpgradeRun`.
#[verifier::ext_equal]
pub struct RunView {
    pub total: usize,
    pub dependents: usize,
    pub phase: Phase,
    pub succeeded: int,
    pub failed: Seq<usize>,
}

impl View for UpgradeRun {
    type V = RunView;

    open spec fn view(&self) -> RunView {
        RunView {
            total: self.total,
            dependents: self.dependents,
            phase: self.phase,
            succeeded: self.succeeded as int,
            failed: self.failed@,
        }
    }
}

/// An `UpgradeRun` is seen as what it holds.
pub proof fn upgrade_run_is_seen_as_it_is(x: UpgradeRun)
    ensures
        x@.total == x.total,
        x@.dependents == x.dependents,
        x@.phase == x.phase,
        x@.succeeded == x.succeeded as int,
        x@.failed == x.failed@,
{
}

/// What follows the dependents before the one at `j`.
pub open spec fn dependent_from(j: int, dependents: usize) -> Phase {
    if j < dependents {
        Phase::RemoveDependent(j as usize)
    } else {
        Phase::Finished
    }
}

/// What follows the packages before the one at `i`.
pub open spec fn package_from(i: int, total: usize, dependents: usize) -> Phase {
    if i < total {
        Phase::Remove(i as usize)
    } else {
        dependent_from(0, dependents)
    }
}

pub open spec fn started(total: usize, dependents: usize) -> RunView {
    RunView {
        total,
        dependents,
        phase: package_from(0, total, dependents),
        succeeded: 0,
        failed: Seq::empty(),
    }
}

/// The run after what it did succeeded or failed. A package that could not be
/// removed is not installed; what becomes of a dependent is not counted.
pub open spec fn stepped(s: RunView, ok: bool) -> RunView {
    match s.phase {
        Phase::Remove(i) => if ok {
            RunView { phase: Phase::Install(i), ..s }
        } else {
            RunView {
                phase: package_from(i + 1, s.total, s.dependents),
                failed: s.failed.push(i),
                ..s
            }
        },
        Phase::Install(i) => if ok {
            RunView {
                phase: package_from(i + 1, s.total, s.dependents),
                succeeded: s.succeeded + 1,
                ..s
            }
        } else {
            RunView {
                phase: package_from(i + 1, s.total, s.dependents),
                failed: s.failed.push(i),
                ..s
            }
        },
        Phase::RemoveDependent(j) => if ok {
            RunView { phase: Phase::InstallDependent(j), ..s }
        } else {
            RunView { phase: dependent_from(j + 1, s.dependents), ..s }
        },
        Phase::InstallDependent(j) => RunView {
            phase: dependent_from(j + 1, s.dependents),
            ..s
        },
        Phase::Finished => s,
    }
}

/// The run after all that it did went as told.
pub open spec fn after(s: RunView, outcomes: Seq<bool>) -> RunView
    decreases outcomes.len(),
{
    if outcomes.len() == 0 {
        s
    } else {
        stepped(after(s, outcomes.drop_last()), outcomes.last())
    }
}

impl RunView {
    /// How many packages are dealt with.
    pub open spec fn done(self) -> int {
        match self.phase {
            Phase::Remove(i) => i as int,
            Phase::Install(i) => i as int,
            _ => self.total as int,
        }
    }

    /// The place that a run is at exists, and each package before it either
    /// succeeded or failed.
    pub open spec fn wf(self) -> bool {
        &&& self.succeeded >= 0
        &&& self.succeeded + self.failed.len() == self.done()
        &&& match self.phase {
            Phase::Remove(i) => i < self.total,
            Phase::Install(i) => i < self.total,
            Phase::RemoveDependent(j) => j < self.dependents,
            Phase::InstallDependent(j) => j < self.dependents,
            Phase::Finished => true,
        }
    }

    /// How many steps are left at most.
    pub open spec fn left(self) -> int {
        match self.phase {
            Phase::Remove(i) => 2 * (self.total - i) + 2 * self.dependents,
            Phase::Install(i) => 2 * (self.total - i) - 1 + 2 * self.dependents,
            Phase::RemoveDependent(j) => 2 * (self.dependents - j),
            Phase::InstallDependent(j) => 2 * (self.dependents - j) - 1,
            Phase::Finished => 0,
        }
    }
}

impl UpgradeRun {
    pub fn new(total: usize, dependents: usize) -> (r: Self)
        ensures
            r@ == started(total, dependents),
            r@.wf(),
    {
        let phase = if total > 0 {
            Phase::Remove(0)
        } else if dependents > 0 {
            Phase::RemoveDependent(0)
        } else {
            Phase::Finished
        };
        let r = UpgradeRun { total, dependents, phase, succeeded: 0, failed: Vec::new() };
        proof {
            assert(r@ =~= started(total, dependents));
        }
        r
    }

    fn next_package(&mut self, i: usize)
        requires
            i < old(self).total,
        ensures
            final(self)@ == (RunView {
                phase: package_from(i + 1, old(self).total, old(self).dependents),
                ..old(self)@
            }),
    {
        if i + 1 < self.total {
            self.phase = Phase::Remove(i + 1);
        } else if self.dependents > 0 {
            self.phase = Phase::RemoveDependent(0);
        } else {
            self.phase = Phase::Finished;
        }
    }

    fn next_dependent(&mut self, j: usize)
        requires
            j < old(self).dependents,
        ensures
            final(self)@ == (RunView {
                phase: dependent_from(j + 1, old(self).dependents),
                ..old(self)@
            }),
    {
        if j + 1 < self.dependents {
            self.phase = Phase::RemoveDependent(j + 1);
        } else {
            self.phase = Phase::Finished;
        }
    }

    /// Takes up how the step went that the run was at.
    pub fn step(&mut self, ok: bool)
        requires
            old(self)@.wf(),
        ensures
            final(self)@ == stepped(old(self)@, ok),
            final(self)@.wf(),
    {
        match self.phase {
            Phase::Remove(i) => {
                if ok {
                    self.phase = Phase::Install(i);
                } else {
                    self.failed.push(i);
                    self.next_package(i);
                }
            },
            Phase::Install(i) => {
                if ok {
                    self.succeeded = self.succeeded + 1;
                } else {
                    self.failed.push(i);
                }
                self.next_package(i);
            },
            Phase::RemoveDependent(j) => {
                if ok {
                    self.phase = Phase::InstallDependent(j);
                } else {
                    self.next_dependent(j);
                }
            },
            Phase::InstallDependent(j) => {
                self.next_dependent(j);
            },
            Phase::Finished => {},
        }
        proof {
            stepping_keeps_account(old(self)@, ok);
        }
    }
}

proof fn stepping_keeps_account(s: RunView, ok: bool)
    requires
        s.wf(),
    ensures
        stepped(s, ok).wf(),
        s.phase != Phase::Finished ==> stepped(s, ok).left() < s.left(),
        s.left() >= 0,
        s.left() == 0 ==> s.phase == Phase::Finished,
        stepped(s, ok).total == s.total,
        stepped(s, ok).dependents == s.dependents,
{
}

proof fn account_is_kept(total: usize, dependents: usize, outcomes: Seq<bool>)
    ensures
        after(started(total, dependents), outcomes).wf(),
        after(started(total, dependents), outcomes).total == total,
        after(started(total, dependents), outcomes).dependents == dependents,
        after(started(total, dependents), outcomes).phase == Phase::Finished || after(
            started(total, dependents),
            outcomes,
        ).left() + outcomes.len() <= 2 * (total + dependents),
    decreases outcomes.len(),
{
    if outcomes.len() > 0 {
        account_is_kept(total, dependents, outcomes.drop_last());
        stepping_keeps_account(
            after(started(total, dependents), outcomes.drop_last()),
            outcomes.last(),
        );
    }
}

/// Once an upgrade is finished, or has come to the dependents, each outdated
/// package either succeeded or failed.
pub proof fn every_package_is_accounted_for(
    total: usize,
    dependents: usize,
    outcomes: Seq<bool>,
)
    ensures
        ({
            let s = after(started(total, dependents), outcomes);
            s.phase is Finished || s.phase is RemoveDependent || s.phase is InstallDependent
                ==> s.succeeded + s.failed.len() == total
        }),
{
    account_is_kept(total, dependents, outcomes);
}

/// Nothing is installed that was not removed just before: a package, or a
/// dependent, is installed only after its removal succeeded.
pub proof fn installs_follow_removals(s: RunView, ok: bool, i: usize)
    requires
        s.wf(),
    ensures
        stepped(s, ok).phase == Phase::Install(i) ==> ok && s.phase == Phase::Remove(i),
        stepped(s, ok).phase == Phase::InstallDependent(i) ==> ok && s.phase
            == Phase::RemoveDependent(i),
{
}

/// An upgrade ends: it takes two steps at most for each package and dependent.
pub proof fn upgrading_ends(total: usize, dependents: usize, outcomes: Seq<bool>)
    requires
        outcomes.len() >= 2 * (total + dependents),
    ensures
        after(started(total, dependents), outcomes).phase == Phase::Finished,
{
    account_is_kept(total, dependents, outcomes);
    stepping_keeps_account(after(started(total, dependents), outcomes), true);
}

/// What a package is called in the lines of an upgrade.
pub open spec fn shown_name(o: OutdatedView) -> Seq<char> {
    o.name + (if o.is_cask {
        " (cask)"@
    } else {
        ""@
    })
}

fn name_shown(o: &OutdatedPackage) -> (r: String)
    ensures
        r@ == shown_name(o@),
{
    let mut m = o.name.clone();
    if o.is_cask {
        m.append(" (cask)");
    } else {
        m.append("");
    }
    m
}

/// The line of a package in a trial run.
pub fn trial_line(o: &OutdatedPackage) -> (r: String)
    ensures
        r@ == shown_name(o@) + ": "@ + o@.installed_version + " → "@ + o@.latest_version,
{
    let mut m = name_shown(o);
    m.append(": ");
    m.append(o.installed_version.as_str());
    m.append(" → ");
    m.append(o.latest_version.as_str());
    m
}

/// What follows once it is known what is outdated.
#[derive(Debug)]
pub enum UpgradeNext {
    UpToDate,
    /// The lines that a trial run shows.
    Trial(Vec<String>),
    Upgrade,
}

/// The mathematical content of an `UpgradeNext`.
pub enum UpgradeNextView {
    UpToDate,
    Trial(Seq<Seq<char>>),
    Upgrade,
}

impl View for UpgradeNext {
    type V = UpgradeNextView;

    open spec fn view(&self) -> UpgradeNextView {
        match *self {
            UpgradeNext::UpToDate => UpgradeNextView::UpToDate,
            UpgradeNext::Trial(lines) => UpgradeNextView::Trial(text::views(lines@)),
            UpgradeNext::Upgrade => UpgradeNextView::Upgrade,
        }
    }
}

/// An `UpgradeNext` is seen as what it holds.
pub proof fn upgrade_next_is_seen_as_it_is(x: UpgradeNext)
    ensures
        x is UpToDate ==> x@ == UpgradeNextView::UpToDate,
        x matches UpgradeNext::Trial(lines) ==> x@ == (UpgradeNextView::Trial(text::views(lines@))),
        x is Upgrade ==> x@ == UpgradeNextView::Upgrade,
{
}

pub open spec fn shown_in_trial(o: OutdatedView) -> Seq<char> {
    shown_name(o) + ": "@ + o.installed_version + " → "@ + o.latest_version
}

/// What follows: nothing where all is up to date, and in a trial run a line for each
/// package that is outdated.
pub fn upgrade_next(outdated: &Vec<OutdatedPackage>, dry_run: bool) -> (r: UpgradeNext)
    ensures
        r@ == if outdated@.len() == 0 {
            UpgradeNextView::UpToDate
        } else if dry_run {
            UpgradeNextView::Trial(
                Seq::new(outdated@.len(), |i: int| shown_in_trial(outdated@[i]@)),
            )
        } else {
            UpgradeNextView::Upgrade
        },
{
    if outdated.len() == 0 {
        return UpgradeNext::UpToDate;
    }
    if !dry_run {
        return UpgradeNext::Upgrade;
    }
    let mut lines: Vec<String> = Vec::new();
    for i in 0..outdated.len()
        invariant
            lines@.len() == i,
            forall|j: int| 0 <= j < i ==> (#[trigger] lines@[j])@ == shown_in_trial(outdated@[j]@),
    {
        lines.push(trial_line(&outdated[i]));
    }
    proof {
        assert(text::views(lines@) =~= Seq::new(
            outdated@.len(),
            |i: int| shown_in_trial(outdated@[i]@),
        ));
    }
    UpgradeNext::Trial(lines)
}

/// The line of a package that was upgraded.
pub fn upgraded_line(o: &OutdatedPackage) -> (r: String)
    ensures
        r@ == shown_name(o@) + " "@ + o@.installed_version + " → "@ + o@.latest_version,
{
    let mut m = name_shown(o);
    m.append(" ");
    m.append(o.installed_version.as_str());
    m.append(" → ");
    m.append(o.latest_version.as_str());
    m
}

/// The heading of the dependents.
pub fn dependents_heading(dependents: usize) -> (r: String)
    ensures
        r@ == "reinstalling "@ + text::decimal(dependents as nat) + " dependent"@ + (if dependents
            == 1 {
            ""@
        } else {
            "s"@
        }),
{
    let mut m = String::from_str("reinstalling ");
    m.append(text::number(dependents as u128).as_str());
    m.append(" dependent");
    if dependents == 1 {
        m.append("");
    } else {
        m.append("s");
    }
    m
}

/// A package that was removed is installed next; one that could not be removed or
/// installed has failed, one that was installed has succeeded, and the next is removed.
/// After the packages come those that depend on them, and nothing follows them.
pub proof fn packages_follow_one_another(s: RunView, i: usize)
    ensures
        s.phase == Phase::Remove(i) ==> stepped(s, true) == (RunView {
            phase: Phase::Install(i),
            ..s
        }) && stepped(s, false).failed == s.failed.push(i) && stepped(s, false).succeeded
            == s.succeeded,
        s.phase == Phase::Install(i) ==> stepped(s, true).succeeded == s.succeeded + 1 && stepped(
            s,
            true,
        ).failed == s.failed && stepped(s, false).failed == s.failed.push(i) && stepped(
            s,
            false,
        ).succeeded == s.succeeded,
        s.phase == Phase::Install(i) && i + 1 < s.total ==> stepped(s, true).phase == Phase::Remove(
            (i + 1) as usize,
        ) && stepped(s, false).phase == Phase::Remove((i + 1) as usize),
        s.phase == Phase::Install(i) && i + 1 >= s.total && s.dependents > 0 ==> stepped(
            s,
            true,
        ).phase == Phase::RemoveDependent(0),
        s.phase == Phase::RemoveDependent(i) ==> stepped(s, true) == (RunView {
            phase: Phase::InstallDependent(i),
            ..s
        }) && stepped(s, false).failed == s.failed && stepped(s, false).succeeded == s.succeeded,
        s.phase == Phase::InstallDependent(i) && i + 1 < s.dependents ==> stepped(s, true) == (
        RunView { phase: Phase::RemoveDependent((i + 1) as usize), ..s }) && stepped(s, false)
            == stepped(s, true),
        s.phase == Phase::InstallDependent(i) && i + 1 >= s.dependents ==> stepped(s, true) == (
        RunView { phase: Phase::Finished, ..s }),
        s.phase == Phase::Finished ==> stepped(s, true) == s && stepped(s, false) == s,
        stepped(s, true).total == s.total && stepped(s, false).total == s.total,
        stepped(s, true).dependents == s.dependents && stepped(s, false).dependents
            == s.dependents,
{
}

/// An upgrade begins with the removal of the first package, if there is one, and with
/// nothing done.
pub proof fn upgrades_begin_with_the_first(total: usize, dependents: usize)
    ensures
        total > 0 ==> started(total, dependents).phase == Phase::Remove(0),
        total == 0 && dependents > 0 ==> started(total, dependents).phase
            == Phase::RemoveDependent(0),
        total == 0 && dependents == 0 ==> started(total, dependents).phase == Phase::Finished,
        started(total, dependents).succeeded == 0,
        started(total, dependents).failed.len() == 0,
{
}

/// A line of an upgrade gives the name of the package, then the version that it has and
/// then the one that it gets.
pub proof fn versions_are_shown_in_order(o: OutdatedView)
    ensures
        !o.is_cask ==> shown_name(o) == o.name && shown_in_trial(o) == o.name + ": "@
            + o.installed_version + " → "@ + o.latest_version,
        o.is_cask ==> shown_name(o) == o.name + " (cask)"@ && shown_in_trial(o) == o.name
            + " (cask)"@ + ": "@ + o.installed_version + " → "@ + o.latest_version,
{
    reveal_strlit("");
    assert(o.name + ""@ =~= o.name);
}

}
