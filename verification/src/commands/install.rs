//! Installing formulae and casks: what is installed of what was asked for, from
//! where, and what is recorded of it.
use crate::api::{has_cask, listed, Cask, CaskView, Formula, FormulaView};
use crate::error::{Result, WaxError};
use crate::formula_parser::BuildSystem;
use crate::install::{InstallMode, InstalledPackage, InstalledView};
use crate::outside::lossy_text;
use crate::paths::below;
use crate::table::Table;
use crate::text::{
    begins, chars_of, ends, has_char, joined, last_place, number, part, pieces, same_str,
    string_of, trimmed,
};
use crate::{api, cask, outside, paths, text};
use vstd::prelude::*;

verus! {

// ---------------------------------------------------------------------------
// What a name stands for

/// The last formula of a name.
pub open spec fn last_named(f: Seq<FormulaView>, name: Seq<char>) -> Option<int>
    decreases f.len(),
{
    if f.len() == 0 {
        None
    } else if f.last().name == name {
        Some(f.len() - 1)
    } else {
        last_named(f.drop_last(), name)
    }
}

/// The last formula of a full name.
pub open spec fn last_full_named(f: Seq<FormulaView>, name: Seq<char>) -> Option<int>
    decreases f.len(),
{
    if f.len() == 0 {
        None
    } else if f.last().full_name == name {
        Some(f.len() - 1)
    } else {
        last_full_named(f.drop_last(), name)
    }
}

/// The formula that a name stands for. A name with a slash is looked up as a full
/// name, then as a name, and then by its last part where it has three or more.
pub open spec fn formula_for(f: Seq<FormulaView>, name: Seq<char>) -> Option<int> {
    if !name.contains('/') {
        last_named(f, name)
    } else if last_full_named(f, name) is Some {
        last_full_named(f, name)
    } else if last_named(f, name) is Some {
        last_named(f, name)
    } else {
        let parts = text::split(name, '/');
        if parts.len() >= 3 {
            last_named(f, parts.last())
        } else {
            None
        }
    }
}

/// A name with a version after its last at sign, neither empty.
pub open spec fn with_version(name: Seq<char>) -> Option<(Seq<char>, Seq<char>)> {
    match text::last_index(name, '@') {
        Some(i) => if i > 0 && i + 1 < name.len() {
            Some((name.take(i), name.skip(i + 1)))
        } else {
            None
        },
        None => None,
    }
}

/// What a name that was asked for stands for.
#[derive(Debug)]
pub enum Request {
    AlreadyInstalled,
    /// The formula at this place in the index.
    Formula(usize),
    Cask,
    /// A version of a formula.
    Version { name: String, version: String },
    Unknown,
}

/// The mathematical content of a `Request`.
pub enum RequestView {
    AlreadyInstalled,
    Formula(int),
    Cask,
    Version { name: Seq<char>, version: Seq<char> },
    Unknown,
}

impl View for Request {
    type V = RequestView;

    open spec fn view(&self) -> RequestView {
        match *self {
            Request::AlreadyInstalled => RequestView::AlreadyInstalled,
            Request::Formula(i) => RequestView::Formula(i as int),
            Request::Cask => RequestView::Cask,
            Request::Version { name, version } => RequestView::Version {
                name: name@,
                version: version@,
            },
            Request::Unknown => RequestView::Unknown,
        }
    }
}

/// A `Request` is seen as what it holds.
pub proof fn request_is_seen_as_it_is(x: Request)
    ensures
        x is AlreadyInstalled ==> x@ == RequestView::AlreadyInstalled,
        x matches Request::Formula(i) ==> x@ == (RequestView::Formula(i as int)),
        x is Cask ==> x@ == RequestView::Cask,
        x matches Request::Version { name, version } ==> x@ == (RequestView::Version {
            name: name@,
            version: version@,
        }),
        x is Unknown ==> x@ == RequestView::Unknown,
{
}

/// What a name stands for: what is installed comes first, then formulae, then
/// casks, then versions of formulae.
pub open spec fn request_for(
    name: Seq<char>,
    installed: Set<Seq<char>>,
    f: Seq<FormulaView>,
    c: Seq<CaskView>,
) -> RequestView {
    if installed.contains(name) {
        RequestView::AlreadyInstalled
    } else {
        match formula_for(f, name) {
            Some(i) => RequestView::Formula(i),
            None => if api::cask_known(c, name) {
                RequestView::Cask
            } else {
                match with_version(name) {
                    Some((n, v)) => RequestView::Version { name: n, version: v },
                    None => RequestView::Unknown,
                }
            },
        }
    }
}

/// The last formula of a name.
pub fn find_named(formulae: &Vec<Formula>, name: &str) -> (r: Option<usize>)
    ensures
        match r {
            Some(i) => i < formulae@.len() && last_named(api::formula_views(formulae@), name@) == Some(
                i as int,
            ),
            None => last_named(api::formula_views(formulae@), name@) is None,
        },
{
    let ghost f = api::formula_views(formulae@);
    let mut i: usize = formulae.len();
    proof {
        assert(f.take(i as int) =~= f);
    }
    while i > 0
        invariant
            i <= formulae@.len(),
            f == api::formula_views(formulae@),
            last_named(f, name@) == last_named(f.take(i as int), name@),
        decreases i,
    {
        proof {
            assert(f.take(i as int).last() == formulae@[i - 1]@);
            assert(f.take(i as int).drop_last() =~= f.take(i - 1));
        }
        if same_str(formulae[i - 1].name.as_str(), name) {
            return Some(i - 1);
        }
        i = i - 1;
    }
    None
}

/// The last formula of a full name.
pub fn find_full_named(formulae: &Vec<Formula>, name: &str) -> (r: Option<usize>)
    ensures
        match r {
            Some(i) => i < formulae@.len() && last_full_named(api::formula_views(formulae@), name@)
                == Some(i as int),
            None => last_full_named(api::formula_views(formulae@), name@) is None,
        },
{
    let ghost f = api::formula_views(formulae@);
    let mut i: usize = formulae.len();
    proof {
        assert(f.take(i as int) =~= f);
    }
    while i > 0
        invariant
            i <= formulae@.len(),
            f == api::formula_views(formulae@),
            last_full_named(f, name@) == last_full_named(f.take(i as int), name@),
        decreases i,
    {
        proof {
            assert(f.take(i as int).last() == formulae@[i - 1]@);
            assert(f.take(i as int).drop_last() =~= f.take(i - 1));
        }
        if same_str(formulae[i - 1].full_name.as_str(), name) {
            return Some(i - 1);
        }
        i = i - 1;
    }
    None
}

/// The formula that a name stands for.
pub fn find_formula(formulae: &Vec<Formula>, name: &str) -> (r: Option<usize>)
    ensures
        match r {
            Some(i) => i < formulae@.len() && formula_for(api::formula_views(formulae@), name@)
                == Some(i as int),
            None => formula_for(api::formula_views(formulae@), name@) is None,
        },
{
    let c = chars_of(name);
    if !has_char(c.as_slice(), '/') {
        return find_named(formulae, name);
    }
    match find_full_named(formulae, name) {
        Some(i) => {
            return Some(i);
        },
        None => {},
    }
    match find_named(formulae, name) {
        Some(i) => {
            return Some(i);
        },
        None => {},
    }
    let p = pieces(c.as_slice(), '/');
    proof {
        assert(text::slices(p@).last() == p@.last()@);
    }
    if p.len() >= 3 {
        find_named(formulae, string_of(p[p.len() - 1]).as_str())
    } else {
        None
    }
}

/// A name with a version after its last at sign.
pub fn split_version(name: &str) -> (r: Option<(String, String)>)
    ensures
        match r {
            Some((n, v)) => with_version(name@) == Some((n@, v@)),
            None => with_version(name@) is None,
        },
{
    let c = chars_of(name);
    let n: usize = c.len();
    match last_place(c.as_slice(), '@') {
        Some(i) => if i > 0 && i + 1 < n {
            let a = part(c.as_slice(), 0, i);
            let b = part(c.as_slice(), i + 1, n);
            proof {
                assert(a@ =~= name@.take(i as int));
                assert(b@ =~= name@.skip(i + 1));
            }
            Some((string_of(a), string_of(b)))
        } else {
            None
        },
        None => None,
    }
}

/// What a name that was asked for stands for.
pub fn classify(
    name: &str,
    installed: &Table<InstalledPackage>,
    formulae: &Vec<Formula>,
    casks: &Vec<Cask>,
) -> (r: Request)
    ensures
        r@ == request_for(
            name@,
            installed@.dom(),
            api::formula_views(formulae@),
            api::cask_views(casks@),
        ),
{
    if installed.contains_key(name) {
        return Request::AlreadyInstalled;
    }
    match find_formula(formulae, name) {
        Some(i) => {
            return Request::Formula(i);
        },
        None => {},
    }
    if has_cask(casks, name) {
        return Request::Cask;
    }
    match split_version(name) {
        Some((name, version)) => Request::Version { name, version },
        None => Request::Unknown,
    }
}

/// What is done next for a name that was asked for.
#[derive(Debug)]
pub enum RequestStep {
    AlreadyInstalled,
    /// The formula at this place is resolved.
    Resolve(usize),
    Cask,
    /// This version is installed by itself.
    InstallVersion { name: String, version: String },
    /// Nothing: a version by itself is passed over in a trial run.
    PassOver,
    Unknown,
}

/// The mathematical content of a `RequestStep`.
pub enum RequestStepView {
    AlreadyInstalled,
    Resolve(int),
    Cask,
    InstallVersion { name: Seq<char>, version: Seq<char> },
    PassOver,
    Unknown,
}

impl View for RequestStep {
    type V = RequestStepView;

    open spec fn view(&self) -> RequestStepView {
        match *self {
            RequestStep::AlreadyInstalled => RequestStepView::AlreadyInstalled,
            RequestStep::Resolve(i) => RequestStepView::Resolve(i as int),
            RequestStep::Cask => RequestStepView::Cask,
            RequestStep::InstallVersion { name, version } => RequestStepView::InstallVersion {
                name: name@,
                version: version@,
            },
            RequestStep::PassOver => RequestStepView::PassOver,
            RequestStep::Unknown => RequestStepView::Unknown,
        }
    }
}

/// A `RequestStep` is seen as what it holds.
pub proof fn request_step_is_seen_as_it_is(x: RequestStep)
    ensures
        x is AlreadyInstalled ==> x@ == RequestStepView::AlreadyInstalled,
        x matches RequestStep::Resolve(i) ==> x@ == (RequestStepView::Resolve(i as int)),
        x is Cask ==> x@ == RequestStepView::Cask,
        x matches RequestStep::InstallVersion { name, version } ==> x@ == (RequestStepView::InstallVersion {
            name: name@,
            version: version@,
        }),
        x is PassOver ==> x@ == RequestStepView::PassOver,
        x is Unknown ==> x@ == RequestStepView::Unknown,
{
}

/// What is done next for what a name stands for. A version by itself is installed at
/// once, which a trial run does not do; everything else waits for the plan.
pub open spec fn step_for(r: RequestView, dry_run: bool) -> RequestStepView {
    match r {
        RequestView::AlreadyInstalled => RequestStepView::AlreadyInstalled,
        RequestView::Formula(i) => RequestStepView::Resolve(i),
        RequestView::Cask => RequestStepView::Cask,
        RequestView::Version { name, version } => if dry_run {
            RequestStepView::PassOver
        } else {
            RequestStepView::InstallVersion { name, version }
        },
        RequestView::Unknown => RequestStepView::Unknown,
    }
}

pub fn request_step(request: Request, dry_run: bool) -> (r: RequestStep)
    ensures
        r@ == step_for(request@, dry_run),
{
    match request {
        Request::AlreadyInstalled => RequestStep::AlreadyInstalled,
        Request::Formula(i) => RequestStep::Resolve(i),
        Request::Cask => RequestStep::Cask,
        Request::Version { name, version } => if dry_run {
            RequestStep::PassOver
        } else {
            RequestStep::InstallVersion { name, version }
        },
        Request::Unknown => RequestStep::Unknown,
    }
}

/// The tap that a name with a slash names: its first two parts where it has
/// three, or else its first.
pub open spec fn tap_of(name: Seq<char>) -> Option<Seq<char>> {
    if name.contains('/') {
        let parts = text::split(name, '/');
        if parts.len() >= 3 {
            Some(parts[0] + "/"@ + parts[1])
        } else {
            Some(parts[0])
        }
    } else {
        None
    }
}

/// What is said of a name that stands for nothing, given whether the tap that it
/// names is there.
pub open spec fn unknown_message(name: Seq<char>, tap_exists: bool) -> Seq<char> {
    match tap_of(name) {
        Some(tap) => if tap_exists {
            let formula = text::split(name, '/').last();
            "Formula '"@ + formula + "' not found in tap '"@ + tap
                + "'. The formula might not exist in this tap. Try: wax install "@ + formula
        } else {
            "Tap '"@ + tap + "' not installed. Add it with: wax tap add "@ + tap
        },
        None => "Not found as formula or cask"@,
    }
}

/// The tap that a name names.
pub fn tap_name(name: &str) -> (r: Option<String>)
    ensures
        text::opt_view(r) == tap_of(name@),
{
    let c = chars_of(name);
    if !has_char(c.as_slice(), '/') {
        return None;
    }
    let p = pieces(c.as_slice(), '/');
    proof {
        assert(text::slices(p@)[0] == p@[0]@);
        if p@.len() >= 3 {
            assert(text::slices(p@)[1] == p@[1]@);
        }
    }
    if p.len() >= 3 {
        let mut t = string_of(p[0]);
        t.append("/");
        t.append(string_of(p[1]).as_str());
        Some(t)
    } else {
        Some(string_of(p[0]))
    }
}

/// What is said of a name that stands for nothing.
pub fn unknown_text(name: &str, tap_exists: bool) -> (r: String)
    ensures
        r@ == unknown_message(name@, tap_exists),
{
    match tap_name(name) {
        Some(tap) => {
            if tap_exists {
                let c = chars_of(name);
                let p = pieces(c.as_slice(), '/');
                proof {
                    assert(text::slices(p@).last() == p@.last()@);
                }
                let formula = string_of(p[p.len() - 1]);
                let mut m = String::from_str("Formula '");
                m.append(formula.as_str());
                m.append("' not found in tap '");
                m.append(tap.as_str());
                m.append("'. The formula might not exist in this tap. Try: wax install ");
                m.append(formula.as_str());
                m
            } else {
                let mut m = String::from_str("Tap '");
                m.append(tap.as_str());
                m.append("' not installed. Add it with: wax tap add ");
                m.append(tap.as_str());
                m
            }
        },
        None => String::from_str("Not found as formula or cask"),
    }
}

/// Something has to be asked for.
pub fn check_requested(names: &Vec<String>) -> (r: Result<()>)
    ensures
        if names@.len() == 0 {
            r matches Err(WaxError::InvalidInput(m)) && m@ == "No packages specified"@
        } else {
            r is Ok
        },
{
    if names.len() == 0 {
        Err(WaxError::InvalidInput(String::from_str("No packages specified")))
    } else {
        Ok(())
    }
}

// ---------------------------------------------------------------------------
// The plan

/// What became of a name that was asked for.
pub enum Outcome {
    AlreadyInstalled,
    /// A formula, with what has to be installed for it, itself last.
    Resolved(Vec<String>),
    Cask,
    /// A version by itself was installed or, in a trial run, passed over.
    Done,
    Failed(String),
}

/// The mathematical content of an `Outcome`.
pub enum OutcomeView {
    AlreadyInstalled,
    Resolved(Seq<Seq<char>>),
    Cask,
    Done,
    Failed(Seq<char>),
}

impl View for Outcome {
    type V = OutcomeView;

    open spec fn view(&self) -> OutcomeView {
        match *self {
            Outcome::AlreadyInstalled => OutcomeView::AlreadyInstalled,
            Outcome::Resolved(v) => OutcomeView::Resolved(text::views(v@)),
            Outcome::Cask => OutcomeView::Cask,
            Outcome::Done => OutcomeView::Done,
            Outcome::Failed(m) => OutcomeView::Failed(m@),
        }
    }
}

/// An `Outcome` is seen as what it holds.
pub proof fn outcome_is_seen_as_it_is(x: Outcome)
    ensures
        x is AlreadyInstalled ==> x@ == OutcomeView::AlreadyInstalled,
        x matches Outcome::Resolved(v) ==> x@ == (OutcomeView::Resolved(text::views(v@))),
        x is Cask ==> x@ == OutcomeView::Cask,
        x is Done ==> x@ == OutcomeView::Done,
        x matches Outcome::Failed(m) ==> x@ == (OutcomeView::Failed(m@)),
{
}

pub open spec fn outcome_views(v: Seq<Outcome>) -> Seq<OutcomeView> {
    Seq::new(v.len(), |i: int| v[i]@)
}

/// What is to be installed of what was asked for.
pub struct InstallPlan {
    pub all_to_install: Vec<String>,
    pub already_installed: Vec<String>,
    pub errors: Vec<(String, String)>,
    pub detected_casks: Vec<String>,
}

/// The mathematical content of an `InstallPlan`.
#[verifier::ext_equal]
pub struct PlanView {
    pub all_to_install: Seq<Seq<char>>,
    pub already_installed: Seq<Seq<char>>,
    pub errors: Seq<(Seq<char>, Seq<char>)>,
    pub detected_casks: Seq<Seq<char>>,
}

impl View for InstallPlan {
    type V = PlanView;

    open spec fn view(&self) -> PlanView {
        PlanView {
            all_to_install: text::views(self.all_to_install@),
            already_installed: text::views(self.already_installed@),
            errors: outside::pair_views(self.errors@),
            detected_casks: text::views(self.detected_casks@),
        }
    }
}

/// An `InstallPlan` is seen as what it holds.
pub proof fn install_plan_is_seen_as_it_is(x: InstallPlan)
    ensures
        x@.all_to_install == text::views(x.all_to_install@),
        x@.already_installed == text::views(x.already_installed@),
        x@.errors == outside::pair_views(x.errors@),
        x@.detected_casks == text::views(x.detected_casks@),
{
}

/// The names with those of `more` that are not among them, each once.
pub open spec fn joined_names(names: Seq<Seq<char>>, more: Seq<Seq<char>>) -> Seq<Seq<char>>
    decreases more.len(),
{
    if more.len() == 0 {
        names
    } else {
        let before = joined_names(names, more.drop_last());
        if before.contains(more.last()) {
            before
        } else {
            before.push(more.last())
        }
    }
}

pub open spec fn with_outcome(p: PlanView, name: Seq<char>, o: OutcomeView) -> PlanView {
    match o {
        OutcomeView::AlreadyInstalled => PlanView {
            already_installed: p.already_installed.push(name),
            ..p
        },
        OutcomeView::Resolved(deps) => PlanView {
            all_to_install: joined_names(p.all_to_install, deps),
            ..p
        },
        OutcomeView::Cask => PlanView { detected_casks: p.detected_casks.push(name), ..p },
        OutcomeView::Done => p,
        OutcomeView::Failed(m) => PlanView { errors: p.errors.push((name, m)), ..p },
    }
}

pub open spec fn planned(names: Seq<Seq<char>>, outcomes: Seq<OutcomeView>) -> PlanView
    decreases names.len(),
{
    if names.len() == 0 {
        PlanView {
            all_to_install: Seq::empty(),
            already_installed: Seq::empty(),
            errors: Seq::empty(),
            detected_casks: Seq::empty(),
        }
    } else {
        with_outcome(
            planned(names.drop_last(), outcomes.drop_last()),
            names.last(),
            outcomes.last(),
        )
    }
}

/// Adds the names of `more` that are not among `names`.
pub fn join_names(names: &mut Vec<String>, more: &Vec<String>)
    ensures
        text::views(final(names)@) == joined_names(text::views(old(names)@), text::views(more@)),
{
    let ghost start = text::views(names@);
    let ghost m = text::views(more@);
    for i in 0..more.len()
        invariant
            m == text::views(more@),
            text::views(names@) == joined_names(start, m.take(i as int)),
    {
        let ghost before = text::views(names@);
        proof {
            assert(m.take(i + 1).drop_last() =~= m.take(i as int));
            assert(m.take(i + 1).last() == more@[i as int]@);
        }
        if !listed(names, more[i].as_str()) {
            names.push(more[i].clone());
            proof {
                assert(text::views(names@) =~= before.push(more@[i as int]@));
            }
        }
    }
    proof {
        assert(m.take(m.len() as int) =~= m);
    }
}

impl InstallPlan {
    pub fn new() -> (r: Self)
        ensures
            r@ == planned(Seq::empty(), Seq::empty()),
    {
        let r = InstallPlan {
            all_to_install: Vec::new(),
            already_installed: Vec::new(),
            errors: Vec::new(),
            detected_casks: Vec::new(),
        };
        proof {
            assert(r@ =~= planned(Seq::empty(), Seq::empty()));
        }
        r
    }

    /// Takes up what became of a name.
    pub fn record(&mut self, name: &str, outcome: &Outcome)
        ensures
            final(self)@ == with_outcome(old(self)@, name@, outcome@),
    {
        let ghost before = self@;
        match outcome {
            Outcome::AlreadyInstalled => {
                self.already_installed.push(String::from_str(name));
                proof {
                    assert(self@.already_installed =~= before.already_installed.push(name@));
                }
            },
            Outcome::Resolved(deps) => join_names(&mut self.all_to_install, deps),
            Outcome::Cask => {
                self.detected_casks.push(String::from_str(name));
                proof {
                    assert(self@.detected_casks =~= before.detected_casks.push(name@));
                }
            },
            Outcome::Done => {},
            Outcome::Failed(m) => {
                self.errors.push((String::from_str(name), m.clone()));
                proof {
                    assert(self@.errors =~= before.errors.push((name@, m@)));
                }
            },
        }
        proof {
            assert(self@ =~= with_outcome(before, name@, outcome@));
        }
    }

    /// The plan for all that was asked for.
    pub fn of(names: &Vec<String>, outcomes: &Vec<Outcome>) -> (r: Self)
        requires
            names@.len() == outcomes@.len(),
        ensures
            r@ == planned(text::views(names@), outcome_views(outcomes@)),
    {
        let ghost n = text::views(names@);
        let ghost o = outcome_views(outcomes@);
        let mut p = InstallPlan::new();
        proof {
            assert(n.take(0) =~= Seq::empty());
            assert(o.take(0) =~= Seq::empty());
        }
        for i in 0..names.len()
            invariant
                names@.len() == outcomes@.len(),
                n == text::views(names@),
                o == outcome_views(outcomes@),
                p@ == planned(n.take(i as int), o.take(i as int)),
        {
            proof {
                assert(n.take(i + 1).drop_last() =~= n.take(i as int));
                assert(n.take(i + 1).last() == names@[i as int]@);
                assert(o.take(i + 1).drop_last() =~= o.take(i as int));
                assert(o.take(i + 1).last() == outcomes@[i as int]@);
            }
            p.record(names[i].as_str(), &outcomes[i]);
        }
        proof {
            assert(n.take(n.len() as int) =~= n);
            assert(o.take(o.len() as int) =~= o);
        }
        p
    }

    /// Refuses to go on where names failed and nothing is left to install. A quiet
    /// installation goes on all the same.
    pub fn check(&self, quiet: bool) -> (r: Result<()>)
        ensures
            if self@.errors.len() > 0 && !quiet && self@.all_to_install.len() == 0
                && self@.detected_casks.len() == 0 {
                r matches Err(WaxError::InstallError(m)) && m@
                    == "Cannot install any packages (all failed validation)"@
            } else {
                r is Ok
            },
    {
        proof {
            assert(self@.errors.len() == self.errors@.len());
        }
        if self.errors.len() > 0 && !quiet && self.all_to_install.len() == 0
            && self.detected_casks.len() == 0 {
            Err(
                WaxError::InstallError(
                    String::from_str("Cannot install any packages (all failed validation)"),
                ),
            )
        } else {
            Ok(())
        }
    }

    /// The names that were asked for and are now installed.
    pub fn requested(&self, names: &Vec<String>) -> (r: Vec<String>)
        ensures
            text::views(r@) == requested_names(self@, text::views(names@)),
    {
        let ghost n = text::views(names@);
        let mut out: Vec<String> = Vec::new();
        proof {
            assert(text::views(out@) =~= requested_names(self@, n.take(0)));
        }
        for i in 0..names.len()
            invariant
                n == text::views(names@),
                text::views(out@) == requested_names(self@, n.take(i as int)),
        {
            let ghost before = text::views(out@);
            proof {
                assert(n.take(i + 1).drop_last() =~= n.take(i as int));
                assert(n.take(i + 1).last() == names@[i as int]@);
            }
            let name = names[i].as_str();
            if !listed(&self.already_installed, name) && !has_error(&self.errors, name) {
                out.push(names[i].clone());
                proof {
                    assert(text::views(out@) =~= before.push(names@[i as int]@));
                }
            }
        }
        proof {
            assert(n.take(n.len() as int) =~= n);
        }
        out
    }

    /// The heading of an installation that brings dependencies along.
    pub fn heading(&self, names: &Vec<String>) -> (r: Option<String>)
        ensures
            text::opt_view(r) == heading_of(self@, requested_names(self@, text::views(names@))),
    {
        let requested = self.requested(names);
        proof {
            assert(text::views(requested@).len() == requested@.len());
        }
        let all: usize = self.all_to_install.len();
        let asked: usize = requested.len();
        if all <= asked {
            return None;
        }
        let count: usize = all - asked;
        let mut m = String::from_str("installing ");
        m.append(joined(&requested, ", ").as_str());
        m.append(" + ");
        m.append(number(count as u128).as_str());
        m.append(" ");
        if count == 1 {
            m.append("dependency");
        } else {
            m.append("dependencies");
        }
        Some(m)
    }
}

/// A name failed.
pub open spec fn failed(errors: Seq<(Seq<char>, Seq<char>)>, name: Seq<char>) -> bool {
    exists|i: int| 0 <= i < errors.len() && (#[trigger] errors[i]).0 == name
}

/// The names that were asked for, without those that were installed already and
/// those that failed.
pub open spec fn requested_names(p: PlanView, names: Seq<Seq<char>>) -> Seq<Seq<char>>
    decreases names.len(),
{
    if names.len() == 0 {
        Seq::empty()
    } else {
        let before = requested_names(p, names.drop_last());
        let name = names.last();
        if p.already_installed.contains(name) || failed(p.errors, name) {
            before
        } else {
            before.push(name)
        }
    }
}

pub open spec fn heading_of(p: PlanView, requested: Seq<Seq<char>>) -> Option<Seq<char>> {
    let count = p.all_to_install.len() - requested.len();
    if count <= 0 {
        None
    } else {
        Some(
            "installing "@ + text::join(requested, ", "@) + " + "@ + text::decimal(count as nat)
                + " "@ + if count == 1 {
                "dependency"@
            } else {
                "dependencies"@
            },
        )
    }
}

fn has_error(errors: &Vec<(String, String)>, name: &str) -> (r: bool)
    ensures
        r == failed(outside::pair_views(errors@), name@),
{
    let ghost e = outside::pair_views(errors@);
    for i in 0..errors.len()
        invariant
            e == outside::pair_views(errors@),
            forall|j: int| 0 <= j < i ==> (#[trigger] e[j]).0 != name@,
    {
        proof {
            assert(e[i as int].0 == errors@[i as int].0@);
        }
        if same_str(errors[i].0.as_str(), name) {
            return true;
        }
    }
    false
}

/// Nothing is installed twice.
pub proof fn plan_has_no_duplicates(names: Seq<Seq<char>>, outcomes: Seq<OutcomeView>)
    ensures
        planned(names, outcomes).all_to_install.no_duplicates(),
    decreases names.len(),
{
    if names.len() > 0 {
        plan_has_no_duplicates(names.drop_last(), outcomes.drop_last());
        match outcomes.last() {
            OutcomeView::Resolved(deps) => joining_keeps_distinct(
                planned(names.drop_last(), outcomes.drop_last()).all_to_install,
                deps,
            ),
            _ => {},
        }
    }
}

proof fn joining_keeps_distinct(names: Seq<Seq<char>>, more: Seq<Seq<char>>)
    requires
        names.no_duplicates(),
    ensures
        joined_names(names, more).no_duplicates(),
    decreases more.len(),
{
    if more.len() > 0 {
        joining_keeps_distinct(names, more.drop_last());
        let before = joined_names(names, more.drop_last());
        if !before.contains(more.last()) {
            let after = before.push(more.last());
            assert forall|i: int, j: int| 0 <= i < j < after.len() implies after[i] != after[j] by {
                if j == before.len() {
                    assert(after[i] == before[i]);
                    assert(before.contains(before[i]));
                }
            }
        }
    }
}

/// Everything that a formula was resolved to is installed.
pub proof fn plan_holds_resolved(
    names: Seq<Seq<char>>,
    outcomes: Seq<OutcomeView>,
    i: int,
    dep: Seq<char>,
)
    requires
        names.len() == outcomes.len(),
        0 <= i < names.len(),
        outcomes[i] matches OutcomeView::Resolved(deps) && deps.contains(dep),
    ensures
        planned(names, outcomes).all_to_install.contains(dep),
    decreases names.len(),
{
    let before = planned(names.drop_last(), outcomes.drop_last());
    if i == names.len() - 1 {
        joining_takes_up(before.all_to_install, outcomes.last()->Resolved_0, dep);
    } else {
        assert(outcomes.drop_last()[i] == outcomes[i]);
        plan_holds_resolved(names.drop_last(), outcomes.drop_last(), i, dep);
        match outcomes.last() {
            OutcomeView::Resolved(deps) => joining_takes_up(before.all_to_install, deps, dep),
            _ => {},
        }
    }
}

proof fn joining_takes_up(names: Seq<Seq<char>>, more: Seq<Seq<char>>, name: Seq<char>)
    requires
        names.contains(name) || more.contains(name),
    ensures
        joined_names(names, more).contains(name),
    decreases more.len(),
{
    if more.len() > 0 {
        let before = joined_names(names, more.drop_last());
        let after = joined_names(names, more);
        if names.contains(name) || more.drop_last().contains(name) {
            joining_takes_up(names, more.drop_last(), name);
            let k = before.index_of(name);
            assert(after[k] == name);
        } else {
            let k = choose|k: int| 0 <= k < more.len() && more[k] == name;
            if k < more.len() - 1 {
                assert(more.drop_last()[k] == name);
            }
            assert(more.last() == name);
            if !before.contains(name) {
                assert(after[before.len() as int] == name);
            }
        }
    }
}

// ---------------------------------------------------------------------------
// The packages of a plan

pub open spec fn places(v: Seq<usize>) -> Seq<int> {
    Seq::new(v.len(), |i: int| v[i] as int)
}

/// The first name that no formula has.
pub open spec fn first_missing(f: Seq<FormulaView>, names: Seq<Seq<char>>) -> Option<Seq<char>>
    decreases names.len(),
{
    if names.len() == 0 {
        None
    } else if last_named(f, names[0]) is None {
        Some(names[0])
    } else {
        first_missing(f, names.skip(1))
    }
}

/// The places of the formulae that a plan installs, in its order.
pub fn packages_to_install(names: &Vec<String>, formulae: &Vec<Formula>) -> (r: Result<Vec<usize>>)
    ensures
        match first_missing(api::formula_views(formulae@), text::views(names@)) {
            Some(n) => r matches Err(WaxError::FormulaNotFound(m)) && m@ == n,
            None => r matches Ok(v) && v@.len() == names@.len() && forall|i: int|
                0 <= i < v@.len() ==> (#[trigger] v@[i]) < formulae@.len() && last_named(
                    api::formula_views(formulae@),
                    names@[i]@,
                ) == Some(v@[i] as int),
        },
{
    let ghost f = api::formula_views(formulae@);
    let ghost n = text::views(names@);
    let mut out: Vec<usize> = Vec::new();
    proof {
        assert(n.skip(0) =~= n);
    }
    for i in 0..names.len()
        invariant
            f == api::formula_views(formulae@),
            n == text::views(names@),
            out@.len() == i,
            first_missing(f, n) == first_missing(f, n.skip(i as int)),
            forall|j: int|
                0 <= j < i ==> (#[trigger] out@[j]) < formulae@.len() && last_named(f, names@[j]@)
                    == Some(out@[j] as int),
    {
        proof {
            assert(n.skip(i as int)[0] == names@[i as int]@);
            assert(n.skip(i as int).skip(1) =~= n.skip(i + 1));
        }
        match find_named(formulae, names[i].as_str()) {
            Some(k) => out.push(k),
            None => {
                return Err(WaxError::FormulaNotFound(names[i].clone()));
            },
        }
    }
    Ok(out)
}

/// The packages that come as a bottle, with the address of each.
pub open spec fn urls_of(f: Seq<FormulaView>, platform: Seq<char>) -> Seq<(Seq<char>, Seq<char>)>
    decreases f.len(),
{
    if f.len() == 0 {
        Seq::empty()
    } else {
        match f.last().file_for(platform) {
            Some(b) => urls_of(f.drop_last(), platform).push((f.last().name, b.url)),
            None => urls_of(f.drop_last(), platform),
        }
    }
}

/// The formulae at the places.
pub open spec fn at_places(f: Seq<FormulaView>, p: Seq<int>) -> Seq<FormulaView> {
    Seq::new(p.len(), |i: int| f[p[i]])
}

/// The addresses of the bottles to be fetched: none where all is built from
/// source.
pub fn bottle_urls(
    formulae: &Vec<Formula>,
    packages: &Vec<usize>,
    platform: &str,
    build_from_source: bool,
) -> (r: Vec<(String, String)>)
    requires
        api::formulae_wf(formulae@),
        forall|i: int| 0 <= i < packages@.len() ==> (#[trigger] packages@[i]) < formulae@.len(),
    ensures
        outside::pair_views(r@) == if build_from_source {
            Seq::empty()
        } else {
            urls_of(at_places(api::formula_views(formulae@), places(packages@)), platform@)
        },
{
    let mut out: Vec<(String, String)> = Vec::new();
    let ghost f = at_places(api::formula_views(formulae@), places(packages@));
    proof {
        assert(outside::pair_views(out@) =~= Seq::empty());
    }
    if build_from_source {
        return out;
    }
    for i in 0..packages.len()
        invariant
            api::formulae_wf(formulae@),
            forall|i: int| 0 <= i < packages@.len() ==> (#[trigger] packages@[i]) < formulae@.len(),
            f == at_places(api::formula_views(formulae@), places(packages@)),
            outside::pair_views(out@) == urls_of(f.take(i as int), platform@),
    {
        let ghost before = outside::pair_views(out@);
        let pkg = &formulae[packages[i]];
        proof {
            assert(f.take(i + 1).drop_last() =~= f.take(i as int));
            assert(f.take(i + 1).last() == pkg@);
            assert(formulae@[packages@[i as int] as int].wf());
        }
        match pkg.bottle_file(platform) {
            Some(b) => {
                out.push((pkg.name.clone(), b.url.clone()));
                proof {
                    assert(outside::pair_views(out@) =~= before.push((pkg.name@, b.url@)));
                }
            },
            None => {},
        }
    }
    proof {
        assert(f.take(f.len() as int) =~= f);
    }
    out
}

pub open spec fn total(counts: Seq<usize>) -> nat
    decreases counts.len(),
{
    if counts.len() == 0 {
        0
    } else {
        total(counts.drop_last()) + counts.last() as nat
    }
}

proof fn total_grows(counts: Seq<usize>, i: int)
    requires
        0 <= i <= counts.len(),
    ensures
        total(counts.take(i)) <= total(counts),
    decreases counts.len(),
{
    if i == counts.len() {
        assert(counts.take(i) =~= counts);
    } else {
        total_grows(counts.drop_last(), i);
        assert(counts.drop_last().take(i) =~= counts.take(i));
    }
}

/// The connections that a pool has left after those that are given out.
pub open spec fn left_over(counts: Seq<usize>, pool: nat) -> nat {
    if total(counts) < pool {
        (pool - total(counts)) as nat
    } else {
        0
    }
}

/// Gives the connections that are left in the pool to the first packages, one to
/// each.
pub fn share_rest(counts: &mut Vec<usize>, pool: usize)
    requires
        total(old(counts)@) <= usize::MAX,
    ensures
        final(counts)@.len() == old(counts)@.len(),
        forall|i: int|
            0 <= i < final(counts)@.len() ==> #[trigger] final(counts)@[i] == old(counts)@[i] + if i
                < left_over(old(counts)@, pool as nat) {
                1int
            } else {
                0int
            },
{
    let ghost start = counts@;
    let n: usize = counts.len();
    let mut used: usize = 0;
    for i in 0..n
        invariant
            n == counts@.len(),
            counts@ == start,
            total(start) <= usize::MAX,
            used == total(start.take(i as int)),
    {
        proof {
            assert(start.take(i + 1).drop_last() =~= start.take(i as int));
            assert(start.take(i + 1).last() == start[i as int]);
            total_grows(start, i + 1);
        }
        used = used + counts[i];
    }
    proof {
        assert(start.take(n as int) =~= start);
    }
    let rest: usize = if used < pool {
        pool - used
    } else {
        0
    };
    for i in 0..n
        invariant
            n == counts@.len(),
            n == start.len(),
            total(start) <= usize::MAX,
            rest == left_over(start, pool as nat),
            forall|j: int| i <= j < n ==> counts@[j] == start[j],
            forall|j: int|
                0 <= j < i ==> #[trigger] counts@[j] == start[j] + if j < rest {
                    1int
                } else {
                    0int
                },
    {
        if i < rest {
            proof {
                total_grows(start, i + 1);
                assert(start.take(i + 1).last() == start[i as int]);
            }
            let more: usize = counts[i] + 1;
            counts.set(i, more);
        }
    }
}

/// The connections that each package gets where no size is known.
pub fn even_share(pool: usize, packages: usize) -> (r: usize)
    ensures
        r == if packages == 0 {
            if pool == 0 {
                1
            } else {
                pool as int
            }
        } else if pool / packages == 0 {
            1
        } else {
            pool as int / packages as int
        },
{
    let n: usize = if packages == 0 {
        1
    } else {
        packages
    };
    let base: usize = pool / n;
    if base == 0 {
        1
    } else {
        base
    }
}

/// How a package is installed.
#[derive(Debug, Clone, Copy, PartialEq, Eq, Structural)]
pub enum Route {
    Head,
    /// Built from source; said so, where there is a bottle.
    Source { announced: bool },
    Bottle,
}

/// How a package is installed: from its head where that is asked for, or else
/// from source where that is asked for or there is no bottle.
pub fn route(head: bool, build_from_source: bool, has_bottle: bool, quiet: bool) -> (r: Route)
    ensures
        r == if head {
            Route::Head
        } else if !has_bottle || build_from_source {
            Route::Source { announced: build_from_source && has_bottle && !quiet }
        } else {
            Route::Bottle
        },
{
    if head {
        Route::Head
    } else if !has_bottle || build_from_source {
        Route::Source { announced: build_from_source && has_bottle && !quiet }
    } else {
        Route::Bottle
    }
}

/// The outcome of an installation whose packages were fetched and installed.
pub fn finish(all: usize, failures: usize, cancelled: bool, quiet: bool) -> (r: Result<()>)
    ensures
        if cancelled {
            r matches Err(WaxError::Interrupted)
        } else if failures > 0 && !quiet && all == failures {
            r matches Err(WaxError::InstallError(m)) && m@ == "All package downloads failed"@
        } else {
            r is Ok
        },
{
    if cancelled {
        return Err(WaxError::Interrupted);
    }
    if failures > 0 && !quiet && all == failures {
        return Err(WaxError::InstallError(String::from_str("All package downloads failed")));
    }
    Ok(())
}

/// The text without the suffix, as often as it ends with it.
pub open spec fn without_suffix(s: Seq<char>, suffix: Seq<char>) -> Seq<char>
    decreases s.len(),
{
    if suffix.len() > 0 && text::ends_with(s, suffix) {
        without_suffix(s.take(s.len() - suffix.len()), suffix)
    } else {
        s
    }
}

/// The plain name of a full variant that is installed where the plain package is
/// not.
pub open spec fn alias_for(name: Seq<char>, installed: Set<Seq<char>>) -> Option<Seq<char>> {
    let base = without_suffix(name, "-full"@);
    if text::ends_with(name, "-full"@) && !installed.contains(base) {
        Some(base)
    } else {
        None
    }
}

/// The plain name that a full variant is linked under.
pub fn alias_of(name: &str, installed: &Table<InstalledPackage>) -> (r: Option<String>)
    ensures
        text::opt_view(r) == alias_for(name@, installed@.dom()),
{
    let c = chars_of(name);
    proof {
        reveal_strlit("-full");
    }
    if !ends(c.as_slice(), "-full") {
        return None;
    }
    let mut n: usize = c.len();
    proof {
        assert(c@.take(n as int) =~= c@);
    }
    while ends(part(c.as_slice(), 0, n), "-full")
        invariant
            n <= c@.len(),
            c@ == name@,
            "-full"@.len() == 5,
            without_suffix(name@, "-full"@) == without_suffix(name@.take(n as int), "-full"@),
        decreases n,
    {
        proof {
            assert(c@.subrange(0, n as int) =~= name@.take(n as int));
            assert(name@.take(n as int).take(n - 5) =~= name@.take(n - 5));
        }
        n = n - 5;
    }
    let head = part(c.as_slice(), 0, n);
    proof {
        assert(head@ =~= name@.take(n as int));
    }
    let base = string_of(head);
    if installed.contains_key(base.as_str()) {
        None
    } else {
        Some(base)
    }
}

/// Whether the plain name is linked to its full variant.
pub fn links_alias(full_link_exists: bool, base_link_exists: bool) -> (r: bool)
    ensures
        r == (full_link_exists && !base_link_exists),
{
    full_link_exists && !base_link_exists
}

// ---------------------------------------------------------------------------
// Bottles

/// The version that a bottle is installed as: the name of the first directory in
/// it that begins with the version, or else the version with its rebuild.
pub open spec fn cellar_version_of(
    entries: Seq<(Seq<char>, bool)>,
    version: Seq<char>,
    rebuild: nat,
) -> Seq<char>
    decreases entries.len(),
{
    if entries.len() == 0 {
        if rebuild > 0 {
            version + "_"@ + text::decimal(rebuild)
        } else {
            version
        }
    } else if entries[0].1 && text::starts_with(entries[0].0, version) {
        entries[0].0
    } else {
        cellar_version_of(entries.skip(1), version, rebuild)
    }
}

pub open spec fn entry_views(v: Seq<(String, bool)>) -> Seq<(Seq<char>, bool)> {
    Seq::new(v.len(), |i: int| (v[i].0@, v[i].1))
}

/// The version that a bottle is installed as, given the entries of its directory
/// and whether each is a directory.
pub fn cellar_version(entries: &Vec<(String, bool)>, version: &str, rebuild: u32) -> (r: String)
    ensures
        r@ == cellar_version_of(entry_views(entries@), version@, rebuild as nat),
{
    let ghost e = entry_views(entries@);
    proof {
        assert(e.skip(0) =~= e);
    }
    for i in 0..entries.len()
        invariant
            e == entry_views(entries@),
            cellar_version_of(e, version@, rebuild as nat) == cellar_version_of(
                e.skip(i as int),
                version@,
                rebuild as nat,
            ),
    {
        proof {
            assert(e.skip(i as int)[0] == (entries@[i as int].0@, entries@[i as int].1));
            assert(e.skip(i as int).skip(1) =~= e.skip(i + 1));
        }
        let name = chars_of(entries[i].0.as_str());
        if entries[i].1 && begins(name.as_slice(), version) {
            return entries[i].0.clone();
        }
    }
    let mut v = String::from_str(version);
    if rebuild > 0 {
        v.append("_");
        v.append(number(rebuild as u128).as_str());
    }
    v
}

/// Where the content of a bottle lies: in the directory of its version, or else
/// in that of its name, or else at the top.
pub fn content_dir(
    extract_dir: &str,
    name: &str,
    version: &str,
    version_dir_exists: bool,
    name_dir_exists: bool,
) -> (r: String)
    ensures
        r@ == if version_dir_exists {
            paths::path_join(paths::path_join(extract_dir@, name@), version@)
        } else if name_dir_exists {
            paths::path_join(extract_dir@, name@)
        } else {
            extract_dir@
        },
{
    if version_dir_exists {
        below(below(extract_dir, name).as_str(), version)
    } else if name_dir_exists {
        below(extract_dir, name)
    } else {
        String::from_str(extract_dir)
    }
}

/// What is recorded of a package that was installed from its bottle.
pub fn install_extracted_bottle(
    name: &str,
    cellar_version: &str,
    bottle_sha: &str,
    bottle_rebuild: u32,
    install_mode: InstallMode,
    platform: &str,
    now: i64,
) -> (r: InstalledPackage)
    ensures
        r@ == (InstalledView {
            name: name@,
            version: cellar_version@,
            platform: platform@,
            install_date: now as int,
            install_mode,
            from_source: false,
            bottle_rebuild: bottle_rebuild as nat,
            bottle_sha256: Some(bottle_sha@),
            pinned: false,
        }),
{
    InstalledPackage {
        name: String::from_str(name),
        version: String::from_str(cellar_version),
        platform: String::from_str(platform),
        install_date: now,
        install_mode,
        from_source: false,
        bottle_rebuild,
        bottle_sha256: Some(String::from_str(bottle_sha)),
        pinned: false,
    }
}

/// The program that runs the steps after an installation, if there is one.
pub fn postinstall_program(success: bool, stdout: &[u8]) -> (r: Option<String>)
    ensures
        text::opt_view(r) == program_in(success, outside::lossy(stdout@)),
{
    let shown = lossy_text(stdout);
    program_of(success, shown.as_str())
}

pub open spec fn program_in(success: bool, shown: Seq<char>) -> Option<Seq<char>> {
    let path = text::trim(shown);
    if success && path.len() > 0 {
        Some(path)
    } else {
        None
    }
}

/// The program that a search printed, if it found one.
pub fn program_of(success: bool, shown: &str) -> (r: Option<String>)
    ensures
        text::opt_view(r) == program_in(success, shown@),
{
    let c = chars_of(shown);
    let path = trimmed(c.as_slice());
    if success && path.len() > 0 {
        Some(string_of(path))
    } else {
        None
    }
}

// ---------------------------------------------------------------------------
// Sources

/// How a formula is installed without a bottle.
#[derive(Debug)]
pub enum SourceRoute {
    /// A binary release is fetched, and the named files are copied.
    Binary { url: String, sha256: String },
    Build,
}

/// How a formula is installed without a bottle: one that only copies files and
/// has no build system comes as a binary, which the platform has to have.
pub fn source_route(
    name: &str,
    bin_installs: usize,
    build_system: BuildSystem,
    platform_source: Option<(String, String)>,
    os: &str,
    arch: &str,
) -> (r: Result<SourceRoute>)
    ensures
        if bin_installs > 0 && build_system == BuildSystem::Unknown {
            match platform_source {
                Some((u, s)) => r matches Ok(SourceRoute::Binary { url, sha256 }) && url@ == u@
                    && sha256@ == s@,
                None => r matches Err(WaxError::BuildError(m)) && m@ == "Formula '"@ + name@
                    + "' has no pre-built binary for this platform (os="@ + os@ + ", arch="@ + arch@
                    + ")"@,
            }
        } else {
            r matches Ok(SourceRoute::Build)
        },
{
    if bin_installs > 0 && build_system == BuildSystem::Unknown {
        match platform_source {
            Some((url, sha256)) => Ok(SourceRoute::Binary { url, sha256 }),
            None => {
                let mut m = String::from_str("Formula '");
                m.append(name);
                m.append("' has no pre-built binary for this platform (os=");
                m.append(os);
                m.append(", arch=");
                m.append(arch);
                m.append(")");
                Err(WaxError::BuildError(m))
            },
        }
    } else {
        Ok(SourceRoute::Build)
    }
}

/// The name of the file that a binary release is kept in.
pub fn archive_name(name: &str, url: &str) -> (r: String)
    ensures
        r@ == name@ + "."@ + if text::ends_with(url@, ".tar.gz"@) || text::ends_with(url@, ".tgz"@) {
            "tar.gz"@
        } else {
            "tar.bz2"@
        },
{
    let u = chars_of(url);
    let mut f = String::from_str(name);
    f.append(".");
    if ends(u.as_slice(), ".tar.gz") || ends(u.as_slice(), ".tgz") {
        f.append("tar.gz");
    } else {
        f.append("tar.bz2");
    }
    f
}

/// The directory that an archive was unpacked into: the only entry, where that is
/// a directory.
pub fn unpacked_dir(extract_dir: &str, entries: &Vec<(String, bool)>) -> (r: String)
    ensures
        r@ == if entries@.len() == 1 && entries@[0].1 {
            paths::path_join(extract_dir@, entries@[0].0@)
        } else {
            extract_dir@
        },
{
    if entries.len() == 1 && entries[0].1 {
        below(extract_dir, entries[0].0.as_str())
    } else {
        String::from_str(extract_dir)
    }
}

/// What is recorded of a package that was installed without a bottle.
pub fn source_record(
    name: &str,
    version: &str,
    platform: &str,
    install_mode: InstallMode,
    from_source: bool,
    now: i64,
) -> (r: InstalledPackage)
    ensures
        r@ == (InstalledView {
            name: name@,
            version: version@,
            platform: platform@,
            install_date: now as int,
            install_mode,
            from_source,
            bottle_rebuild: 0,
            bottle_sha256: None,
            pinned: false,
        }),
{
    InstalledPackage {
        name: String::from_str(name),
        version: String::from_str(version),
        platform: String::from_str(platform),
        install_date: now,
        install_mode,
        from_source,
        bottle_rebuild: 0,
        bottle_sha256: None,
        pinned: false,
    }
}

/// The outcome of a download or of a command while a package is built.
pub fn built(success: bool, what: &str, detail: &str) -> (r: Result<()>)
    ensures
        if success {
            r is Ok
        } else {
            r matches Err(WaxError::BuildError(m)) && m@ == what@ + detail@
        },
{
    if success {
        Ok(())
    } else {
        let mut m = String::from_str(what);
        m.append(detail);
        Err(WaxError::BuildError(m))
    }
}

/// The version of a head: the commit that was asked for, where that succeeded.
pub fn head_version(success: bool, stdout: &[u8]) -> (r: String)
    ensures
        r@ == "HEAD-"@ + if success {
            text::trim(outside::lossy(stdout@))
        } else {
            "HEAD"@
        },
{
    let mut v = String::from_str("HEAD-");
    if success {
        let shown = lossy_text(stdout);
        let c = chars_of(shown.as_str());
        v.append(string_of(trimmed(c.as_slice())).as_str());
    } else {
        v.append("HEAD");
    }
    v
}

// ---------------------------------------------------------------------------
// Laws

/// The formula that is found by a name, short or full, is the last that has it; where
/// none has it, none is found.
pub proof fn last_of_a_name_is_found(f: Seq<FormulaView>, name: Seq<char>, i: int)
    ensures
        0 <= i < f.len() && f[i].name == name && (forall|j: int|
            i < j < f.len() ==> (#[trigger] f[j]).name != name) ==> last_named(f, name) == Some(i),
        0 <= i < f.len() && f[i].full_name == name && (forall|j: int|
            i < j < f.len() ==> (#[trigger] f[j]).full_name != name) ==> last_full_named(f, name)
            == Some(i),
        (forall|j: int| 0 <= j < f.len() ==> (#[trigger] f[j]).name != name) ==> last_named(
            f,
            name,
        ) is None,
        (forall|j: int| 0 <= j < f.len() ==> (#[trigger] f[j]).full_name != name)
            ==> last_full_named(f, name) is None,
    decreases f.len(),
{
    if f.len() > 0 {
        let d = f.drop_last();
        let last = f.len() - 1;
        last_of_a_name_is_found(d, name, i);
        assert(f[last] == f.last());
        assert(forall|j: int| 0 <= j < d.len() ==> #[trigger] d[j] == f[j]);
    }
}

/// A plain name is looked for among the short names alone; one with a slash among the
/// full names first, then among the short ones, and then by what stands behind the last
/// slash where it names a tap as well.
pub proof fn full_names_come_first(f: Seq<FormulaView>, name: Seq<char>)
    ensures
        !name.contains('/') ==> formula_for(f, name) == last_named(f, name),
        name.contains('/') && last_full_named(f, name) is Some ==> formula_for(f, name)
            == last_full_named(f, name),
        name.contains('/') && last_full_named(f, name) is None && last_named(f, name) is Some
            ==> formula_for(f, name) == last_named(f, name),
        name.contains('/') && last_full_named(f, name) is None && last_named(f, name) is None
            ==> formula_for(f, name) == if text::split(name, '/').len() >= 3 {
            last_named(f, text::split(name, '/').last())
        } else {
            None
        },
{
}

/// A name and a version are told apart at the last `@` between them.
pub proof fn versions_stand_behind_the_last_at(name: Seq<char>, version: Seq<char>)
    requires
        !version.contains('@'),
    ensures
        name.len() > 0 && version.len() > 0 ==> with_version(name.push('@') + version) == Some(
            (name, version),
        ),
        name.len() == 0 || version.len() == 0 ==> with_version(name.push('@') + version) is None,
        with_version(version) is None,
{
    let s = name.push('@') + version;
    text::last_index_is_last(name, '@', version);
    assert(s.take(name.len() as int) =~= name);
    assert(s.skip((name.len() + 1) as int) =~= version);
}

/// A name that is installed is nothing to install; otherwise it is a formula if it can be,
/// then a cask, and only then a version of something.
pub proof fn requests_are_told_apart(
    name: Seq<char>,
    installed: Set<Seq<char>>,
    f: Seq<FormulaView>,
    c: Seq<CaskView>,
)
    ensures
        installed.contains(name) <==> request_for(name, installed, f, c)
            == RequestView::AlreadyInstalled,
        !installed.contains(name) ==> ({
            &&& formula_for(f, name) matches Some(i) ==> request_for(name, installed, f, c)
                == RequestView::Formula(i)
            &&& formula_for(f, name) is None && api::cask_known(c, name) ==> request_for(
                name,
                installed,
                f,
                c,
            ) == RequestView::Cask
            &&& formula_for(f, name) is None && !api::cask_known(c, name) ==> (with_version(
                name,
            ) matches Some(v) ==> request_for(name, installed, f, c) == (RequestView::Version {
                name: v.0,
                version: v.1,
            }))
            &&& formula_for(f, name) is None && !api::cask_known(c, name) && with_version(name) is None
                ==> request_for(name, installed, f, c) == RequestView::Unknown
        }),
{
}

/// What is done for a request is what it was found to be; a trial installs no version.
pub proof fn requests_are_followed(i: int, name: Seq<char>, version: Seq<char>, dry_run: bool)
    ensures
        step_for(RequestView::AlreadyInstalled, dry_run) == RequestStepView::AlreadyInstalled,
        step_for(RequestView::Formula(i), dry_run) == RequestStepView::Resolve(i),
        step_for(RequestView::Cask, dry_run) == RequestStepView::Cask,
        step_for(RequestView::Unknown, dry_run) == RequestStepView::Unknown,
        step_for(RequestView::Version { name, version }, true) == RequestStepView::PassOver,
        step_for(RequestView::Version { name, version }, false) == (
        RequestStepView::InstallVersion { name, version }),
{
}

/// A name with a slash names a tap: its first part, and the second too where there is a
/// third; any other name names none.
pub proof fn taps_are_named(parts: Seq<Seq<char>>, name: Seq<char>)
    requires
        parts.len() >= 2,
        forall|i: int| 0 <= i < parts.len() ==> !(#[trigger] parts[i]).contains('/'),
    ensures
        parts.len() == 2 ==> tap_of(text::join(parts, seq!['/'])) == Some(parts[0]),
        parts.len() >= 3 ==> tap_of(text::join(parts, seq!['/'])) == Some(
            parts[0] + "/"@ + parts[1],
        ),
        !name.contains('/') ==> tap_of(name) is None,
{
    text::joining_is_undone_by_splitting(parts, '/');
    let s = text::join(parts, seq!['/']);
    if !s.contains('/') {
        text::plain_is_one_piece(s, '/');
    }
}

/// What is unknown is told: a tap that is not there, a formula that its tap has not, or
/// neither a formula nor a cask.
pub proof fn unknown_names_are_told(name: Seq<char>, tap: Seq<char>)
    ensures
        tap_of(name) is None ==> unknown_message(name, true) == "Not found as formula or cask"@
            && unknown_message(name, false) == "Not found as formula or cask"@,
        tap_of(name) == Some(tap) ==> text::starts_with(
            unknown_message(name, false),
            "Tap '"@ + tap + "' not installed"@,
        ) && text::starts_with(
            unknown_message(name, true),
            "Formula '"@ + text::split(name, '/').last() + "' not found in tap '"@ + tap,
        ),
{
    if tap_of(name) == Some(tap) {
        reveal_strlit("' not installed. Add it with: wax tap add ");
        reveal_strlit("' not installed");
        let long = "' not installed. Add it with: wax tap add "@;
        let short = "' not installed"@;
        let m = unknown_message(name, false);
        assert(long.take(15) =~= short);
        assert(m.subrange(0, ("Tap '"@ + tap + short).len() as int) =~= "Tap '"@ + tap + short);
        let first = "Formula '"@ + text::split(name, '/').last() + "' not found in tap '"@ + tap;
        let n = unknown_message(name, true);
        assert(n.subrange(0, first.len() as int) =~= first);
    }
}

/// Each request ends in one list of the plan, and the others stay: what is installed
/// already, what cannot be, the casks, or the names that it takes to install it.
pub proof fn outcomes_are_planned(
    names: Seq<Seq<char>>,
    outcomes: Seq<OutcomeView>,
    name: Seq<char>,
    deps: Seq<Seq<char>>,
    m: Seq<char>,
)
    requires
        names.len() == outcomes.len(),
    ensures
        ({
            let p = planned(names, outcomes);
            &&& planned(names.push(name), outcomes.push(OutcomeView::AlreadyInstalled)) == (
            PlanView { already_installed: p.already_installed.push(name), ..p })
            &&& planned(names.push(name), outcomes.push(OutcomeView::Cask)) == (PlanView {
                detected_casks: p.detected_casks.push(name),
                ..p
            })
            &&& planned(names.push(name), outcomes.push(OutcomeView::Failed(m))) == (PlanView {
                errors: p.errors.push((name, m)),
                ..p
            })
            &&& planned(names.push(name), outcomes.push(OutcomeView::Done)) == p
            &&& planned(names.push(name), outcomes.push(OutcomeView::Resolved(deps))) == (PlanView {
                all_to_install: joined_names(p.all_to_install, deps),
                ..p
            })
        }),
        planned(Seq::empty(), outcomes).all_to_install.len() == 0,
        planned(Seq::empty(), outcomes).detected_casks.len() == 0,
        planned(Seq::empty(), outcomes).errors.len() == 0,
        planned(Seq::empty(), outcomes).already_installed.len() == 0,
{
    assert(names.push(name).drop_last() =~= names);
    assert(outcomes.push(OutcomeView::AlreadyInstalled).drop_last() =~= outcomes);
    assert(outcomes.push(OutcomeView::Cask).drop_last() =~= outcomes);
    assert(outcomes.push(OutcomeView::Failed(m)).drop_last() =~= outcomes);
    assert(outcomes.push(OutcomeView::Done).drop_last() =~= outcomes);
    assert(outcomes.push(OutcomeView::Resolved(deps)).drop_last() =~= outcomes);
}

/// Names are joined by putting those that are new behind the others, in their order.
pub proof fn new_names_come_last(names: Seq<Seq<char>>, more: Seq<Seq<char>>, n: Seq<char>)
    ensures
        joined_names(names, more).contains(n) <==> names.contains(n) || more.contains(n),
        names.is_prefix_of(joined_names(names, more)),
        joined_names(names, more).contains(n) ==> joined_names(names, more.push(n))
            == joined_names(names, more),
        !joined_names(names, more).contains(n) ==> joined_names(names, more.push(n))
            == joined_names(names, more).push(n),
    decreases more.len(),
{
    assert(more.push(n).drop_last() =~= more);
    let now = joined_names(names, more);
    if more.len() > 0 {
        let rest = more.drop_last();
        let last = more.last();
        let before = joined_names(names, rest);
        new_names_come_last(names, rest, n);
        assert(more[more.len() - 1] == last);
        if rest.contains(n) {
            let i = choose|i: int| 0 <= i < rest.len() && rest[i] == n;
            assert(more[i] == n);
        }
        if more.contains(n) && n != last {
            let i = choose|i: int| 0 <= i < more.len() && more[i] == n;
            assert(rest[i] == n);
        }
        if !before.contains(last) {
            assert(now[before.len() as int] == last);
            if before.contains(n) {
                let i = choose|i: int| 0 <= i < before.len() && before[i] == n;
                assert(now[i] == n);
            }
            if now.contains(n) && n != last {
                let i = choose|i: int| 0 <= i < now.len() && now[i] == n;
                assert(before[i] == n);
            }
        }
    }
}

/// What was asked for and is neither installed already nor in error is named as asked
/// for, in its order.
pub proof fn requested_are_named(p: PlanView, names: Seq<Seq<char>>, name: Seq<char>)
    ensures
        p.already_installed.contains(name) || (exists|i: int|
            0 <= i < p.errors.len() && (#[trigger] p.errors[i]).0 == name) ==> requested_names(
            p,
            names.push(name),
        ) == requested_names(p, names),
        !p.already_installed.contains(name) && (forall|i: int|
            0 <= i < p.errors.len() ==> (#[trigger] p.errors[i]).0 != name) ==> requested_names(
            p,
            names.push(name),
        ) == requested_names(p, names).push(name),
        requested_names(p, Seq::empty()).len() == 0,
{
    assert(names.push(name).drop_last() =~= names);
}

/// A heading comes exactly where more is installed than was asked for, and tells how much
/// more.
pub proof fn headings_tell_dependencies(p: PlanView, requested: Seq<Seq<char>>, n: nat)
    requires
        p.all_to_install.len() == requested.len() + n,
    ensures
        n == 0 ==> heading_of(p, requested) is None,
        n == 1 ==> heading_of(p, requested) == Some(
            "installing "@ + text::join(requested, ", "@) + " + "@ + text::decimal(1) + " "@
                + "dependency"@,
        ),
        n > 1 ==> heading_of(p, requested) == Some(
            "installing "@ + text::join(requested, ", "@) + " + "@ + text::decimal(n) + " "@
                + "dependencies"@,
        ),
{
}

/// The first name that no formula has is the one that is missing; where each has one, none
/// is.
pub proof fn first_missing_is_first(f: Seq<FormulaView>, names: Seq<Seq<char>>, i: int)
    ensures
        0 <= i < names.len() && last_named(f, names[i]) is None && (forall|j: int|
            0 <= j < i ==> last_named(f, #[trigger] names[j]) is Some) ==> first_missing(f, names)
            == Some(names[i]),
        (forall|j: int| 0 <= j < names.len() ==> last_named(f, #[trigger] names[j]) is Some)
            ==> first_missing(f, names) is None,
    decreases names.len(),
{
    if names.len() > 0 {
        let t = names.skip(1);
        assert(forall|j: int| 0 <= j < t.len() ==> #[trigger] t[j] == names[j + 1]);
        first_missing_is_first(f, t, i - 1);
        if 0 < i < names.len() && last_named(f, names[i]) is None && (forall|j: int|
            0 <= j < i ==> last_named(f, #[trigger] names[j]) is Some) {
            assert(last_named(f, names[0]) is Some);
            assert(t[i - 1] == names[i]);
        }
        if forall|j: int| 0 <= j < names.len() ==> last_named(f, #[trigger] names[j]) is Some {
            assert(last_named(f, names[0]) is Some);
        }
    }
}

/// Each formula that has a bottle for the platform is fetched from its address, under its
/// name; the others are not.
pub proof fn bottles_are_fetched_by_name(f: Seq<FormulaView>, x: FormulaView, platform: Seq<char>)
    ensures
        x.file_for(platform) matches Some(b) ==> urls_of(f.push(x), platform) == urls_of(
            f,
            platform,
        ).push((x.name, b.url)),
        x.file_for(platform) is None ==> urls_of(f.push(x), platform) == urls_of(f, platform),
        urls_of(Seq::empty(), platform).len() == 0,
{
    assert(f.push(x).drop_last() =~= f);
}

/// What is left of a pool is what the shares do not use up.
pub proof fn rest_is_what_is_not_used(counts: Seq<usize>, n: usize, pool: nat)
    ensures
        total(counts.push(n)) == total(counts) + n,
        total(Seq::empty()) == 0,
        total(counts) <= pool ==> left_over(counts, pool) + total(counts) == pool,
        total(counts) > pool ==> left_over(counts, pool) == 0,
{
    assert(counts.push(n).drop_last() =~= counts);
}

/// A full variant stands in for the plain package where that is not installed; no other
/// package stands in for one.
pub proof fn full_variants_stand_in(base: Seq<char>, name: Seq<char>, installed: Set<Seq<char>>)
    ensures
        !text::ends_with(base, "-full"@) && !installed.contains(base) ==> alias_for(
            base + "-full"@,
            installed,
        ) == Some(base),
        !text::ends_with(base, "-full"@) && installed.contains(base) ==> alias_for(
            base + "-full"@,
            installed,
        ) is None,
        !text::ends_with(name, "-full"@) ==> alias_for(name, installed) is None,
{
    reveal_strlit("-full");
    text::stripping_undoes_prefixing("-full"@, base);
    let s = base + "-full"@;
    assert(s.take(s.len() - 5) =~= base);
    if !text::ends_with(base, "-full"@) {
        assert(without_suffix(base, "-full"@) == base);
        assert(without_suffix(s, "-full"@) == base);
    }
}

/// The version of an unpacked bottle is the first directory whose name begins with it;
/// where there is none, the version with its rebuild.
pub proof fn versions_are_directories(
    before: Seq<(Seq<char>, bool)>,
    dir: Seq<char>,
    after: Seq<(Seq<char>, bool)>,
    version: Seq<char>,
    rebuild: nat,
)
    requires
        forall|i: int|
            0 <= i < before.len() ==> !((#[trigger] before[i]).1 && text::starts_with(
                before[i].0,
                version,
            )),
        text::starts_with(dir, version),
    ensures
        cellar_version_of(before + seq![(dir, true)] + after, version, rebuild) == dir,
        rebuild == 0 ==> cellar_version_of(before, version, rebuild) == version,
        rebuild > 0 ==> cellar_version_of(before, version, rebuild) == version + "_"@
            + text::decimal(rebuild),
    decreases before.len(),
{
    let all = before + seq![(dir, true)] + after;
    if before.len() == 0 {
        assert(all[0] == (dir, true));
    } else {
        let t = before.skip(1);
        assert forall|i: int| 0 <= i < t.len() implies !((#[trigger] t[i]).1 && text::starts_with(
            t[i].0,
            version,
        )) by {
            assert(t[i] == before[i + 1]);
        }
        versions_are_directories(t, dir, after, version, rebuild);
        assert(all[0] == before[0]);
        assert(all.skip(1) =~= t + seq![(dir, true)] + after);
    }
}

/// A program is what a search for it shows, without the white space around it; a search
/// that fails, or shows nothing, finds none.
pub proof fn programs_are_shown(shown: Seq<char>)
    ensures
        program_in(false, shown) is None,
        text::trim(shown).len() == 0 ==> program_in(true, shown) is None,
        text::trim(shown).len() > 0 ==> program_in(true, shown) == Some(text::trim(shown)),
{
}

}
