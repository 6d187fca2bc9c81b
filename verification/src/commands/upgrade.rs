//! Upgrading: what is outdated, and what an upgrade does.
use crate::api::{listed, Cask, CaskView, Formula, FormulaView};
use crate::cask::{InstalledCask, InstalledCaskView};
use crate::commands::install;
use crate::error::{Result, WaxError};
use crate::install::{InstallMode, InstalledPackage, InstalledView};
use crate::order::{sort_by_key, HasKey, Keyed};
use crate::table::Table;
use crate::text::{joined, number, same_str};
use crate::{api, order, outside, text};
use vstd::prelude::*;

verus! {

#[derive(Debug)]
pub struct OutdatedPackage {
    pub name: String,
    pub installed_version: String,
    pub latest_version: String,
    pub is_cask: bool,
    pub install_mode: Option<InstallMode>,
}

/// The mathematical content of an `OutdatedPackage`.
pub struct OutdatedView {
    pub name: Seq<char>,
    pub installed_version: Seq<char>,
    pub latest_version: Seq<char>,
    pub is_cask: bool,
    pub install_mode: Option<InstallMode>,
}

impl View for OutdatedPackage {
    type V = OutdatedView;

    open spec fn view(&self) -> OutdatedView {
        OutdatedView {
            name: self.name@,
            installed_version: self.installed_version@,
            latest_version: self.latest_version@,
            is_cask: self.is_cask,
            install_mode: self.install_mode,
        }
    }
}

/// An `OutdatedPackage` is seen as what it holds.
pub proof fn outdated_package_is_seen_as_it_is(x: OutdatedPackage)
    ensures
        x@.name == x.name@,
        x@.installed_version == x.installed_version@,
        x@.latest_version == x.latest_version@,
        x@.is_cask == x.is_cask,
        x@.install_mode == x.install_mode,
{
}

impl HasKey for OutdatedView {
    open spec fn key(&self) -> Seq<char> {
        self.name
    }
}

impl HasKey for OutdatedPackage {
    open spec fn key(&self) -> Seq<char> {
        self.name@
    }
}

impl Keyed for OutdatedPackage {
    type Shown = OutdatedView;

    open spec fn shown(&self) -> OutdatedView {
        self@
    }

    proof fn shown_key(&self) {
    }

    fn key_str(&self) -> (r: &str) {
        self.name.as_str()
    }
}

/// How an installed version stands to the latest one.
#[derive(Debug)]
pub struct Latest {
    pub version: String,
    /// The installed version is the latest, or newer.
    pub current: bool,
}

/// The mathematical content of a `Latest`.
pub struct LatestView {
    pub version: Seq<char>,
    pub current: bool,
}

impl View for Latest {
    type V = LatestView;

    open spec fn view(&self) -> LatestView {
        LatestView { version: self.version@, current: self.current }
    }
}

/// A `Latest` is seen as what it holds.
pub proof fn latest_is_seen_as_it_is(x: Latest)
    ensures
        x@.version == x.version@,
        x@.current == x.current,
{
}

pub open spec fn latest_views(v: Seq<Latest>) -> Seq<LatestView> {
    Seq::new(v.len(), |i: int| v[i]@)
}

// ---------------------------------------------------------------------------
// What is outdated

/// The bottle was rebuilt since it was installed.
pub open spec fn rebuilt(i: InstalledView, f: FormulaView, l: LatestView) -> bool {
    l.current && i.version == l.version && i.bottle_rebuild < f.rebuild()
}

/// The bottle is another than the one that was installed.
pub open spec fn replaced_bottle(
    i: InstalledView,
    f: FormulaView,
    l: LatestView,
    platform: Seq<char>,
) -> bool {
    l.current && !rebuilt(i, f, l) && i.bottle_sha256 is Some && (f.file_for(platform) matches Some(
        b,
    ) && i.bottle_sha256 != Some(b.sha256))
}

/// How a package is outdated, if it is: by its version, by a rebuild of its
/// bottle, or by another bottle in its place. A pinned package never is.
pub open spec fn outdated(
    name: Seq<char>,
    i: InstalledView,
    f: Option<FormulaView>,
    l: LatestView,
    platform: Seq<char>,
) -> Option<OutdatedView> {
    match f {
        Some(f) => if i.pinned {
            None
        } else if !l.current || rebuilt(i, f, l) || replaced_bottle(i, f, l, platform) {
            Some(
                OutdatedView {
                    name,
                    installed_version: i.version,
                    latest_version: if rebuilt(i, f, l) {
                        l.version + " (rebuild "@ + text::decimal(f.rebuild()) + ")"@
                    } else if replaced_bottle(i, f, l, platform) {
                        l.version + " (bottle updated)"@
                    } else {
                        l.version
                    },
                    is_cask: false,
                    install_mode: Some(i.install_mode),
                },
            )
        } else {
            None
        },
        None => None,
    }
}

pub open spec fn package_entries(v: Seq<crate::table::Entry<InstalledPackage>>) -> Seq<
    (Seq<char>, InstalledView),
> {
    Seq::new(v.len(), |i: int| (v[i].name@, v[i].value@))
}

pub open spec fn cask_entries(v: Seq<crate::table::Entry<InstalledCask>>) -> Seq<
    (Seq<char>, InstalledCaskView),
> {
    Seq::new(v.len(), |i: int| (v[i].name@, v[i].value@))
}

/// The outdated formulae among the installed ones.
pub open spec fn outdated_formulae(
    e: Seq<(Seq<char>, InstalledView)>,
    f: Seq<FormulaView>,
    l: Seq<LatestView>,
    platform: Seq<char>,
) -> Seq<OutdatedView>
    decreases e.len(),
{
    if e.len() == 0 {
        Seq::empty()
    } else {
        let before = outdated_formulae(e.drop_last(), f, l.drop_last(), platform);
        match outdated(e.last().0, e.last().1, api::first_named(f, e.last().0), l.last(), platform) {
            Some(o) => before.push(o),
            None => before,
        }
    }
}

/// An installed cask is outdated where the index knows it, its details could be
/// had, and its version is older.
pub open spec fn outdated_cask(
    name: Seq<char>,
    i: InstalledCaskView,
    c: Seq<CaskView>,
    l: Option<LatestView>,
) -> Option<OutdatedView> {
    match l {
        Some(l) => if api::cask_known(c, name) && !l.current {
            Some(
                OutdatedView {
                    name,
                    installed_version: i.version,
                    latest_version: l.version,
                    is_cask: true,
                    install_mode: None,
                },
            )
        } else {
            None
        },
        None => None,
    }
}

pub open spec fn opt_latest(l: Option<Latest>) -> Option<LatestView> {
    match l {
        Some(x) => Some(x@),
        None => None,
    }
}

pub open spec fn opt_latest_views(v: Seq<Option<Latest>>) -> Seq<Option<LatestView>> {
    Seq::new(v.len(), |i: int| opt_latest(v[i]))
}

pub open spec fn outdated_casks(
    e: Seq<(Seq<char>, InstalledCaskView)>,
    c: Seq<CaskView>,
    l: Seq<Option<LatestView>>,
) -> Seq<OutdatedView>
    decreases e.len(),
{
    if e.len() == 0 {
        Seq::empty()
    } else {
        let before = outdated_casks(e.drop_last(), c, l.drop_last());
        match outdated_cask(e.last().0, e.last().1, c, l.last()) {
            Some(o) => before.push(o),
            None => before,
        }
    }
}

pub open spec fn outdated_views(v: Seq<OutdatedPackage>) -> Seq<OutdatedView> {
    Seq::new(v.len(), |i: int| v[i]@)
}

/// How a package is outdated, if it is.
pub fn check_package(
    name: &str,
    installed: &InstalledPackage,
    formula: &Formula,
    latest: &Latest,
    platform: &str,
) -> (r: Option<OutdatedPackage>)
    requires
        formula.wf(),
    ensures
        match r {
            Some(o) => outdated(name@, installed@, Some(formula@), latest@, platform@) == Some(o@),
            None => outdated(name@, installed@, Some(formula@), latest@, platform@) is None,
        },
{
    if installed.pinned {
        return None;
    }
    let rebuild: u32 = formula.bottle_rebuild();
    let is_rebuilt = latest.current && same_str(
        installed.version.as_str(),
        latest.version.as_str(),
    ) && installed.bottle_rebuild < rebuild;
    let is_replaced = latest.current && !is_rebuilt && match &installed.bottle_sha256 {
        Some(have) => match formula.bottle_file(platform) {
            Some(b) => !same_str(have.as_str(), b.sha256.as_str()),
            None => false,
        },
        None => false,
    };
    if latest.current && !is_rebuilt && !is_replaced {
        return None;
    }
    let mut version = latest.version.clone();
    if is_rebuilt {
        version.append(" (rebuild ");
        version.append(number(rebuild as u128).as_str());
        version.append(")");
    } else if is_replaced {
        version.append(" (bottle updated)");
    }
    Some(
        OutdatedPackage {
            name: String::from_str(name),
            installed_version: installed.version.clone(),
            latest_version: version,
            is_cask: false,
            install_mode: Some(installed.install_mode),
        },
    )
}

fn check_packages(
    installed: &Table<InstalledPackage>,
    formulae: &Vec<Formula>,
    latest: &Vec<Latest>,
    platform: &str,
) -> (r: Vec<OutdatedPackage>)
    requires
        api::formulae_wf(formulae@),
        latest@.len() == installed.entries@.len(),
    ensures
        outdated_views(r@) == outdated_formulae(
            package_entries(installed.entries@),
            api::formula_views(formulae@),
            latest_views(latest@),
            platform@,
        ),
{
    let ghost e = package_entries(installed.entries@);
    let ghost f = api::formula_views(formulae@);
    let ghost l = latest_views(latest@);
    let mut out: Vec<OutdatedPackage> = Vec::new();
    proof {
        assert(outdated_views(out@) =~= outdated_formulae(e.take(0), f, l.take(0), platform@));
    }
    for i in 0..installed.entries.len()
        invariant
            api::formulae_wf(formulae@),
            latest@.len() == installed.entries@.len(),
            e == package_entries(installed.entries@),
            f == api::formula_views(formulae@),
            l == latest_views(latest@),
            outdated_views(out@) == outdated_formulae(
                e.take(i as int),
                f,
                l.take(i as int),
                platform@,
            ),
    {
        let x = &installed.entries[i];
        let ghost before = outdated_views(out@);
        proof {
            assert(e.take(i + 1).drop_last() =~= e.take(i as int));
            assert(e.take(i + 1).last() == (x.name@, x.value@));
            assert(l.take(i + 1).drop_last() =~= l.take(i as int));
            assert(l.take(i + 1).last() == latest@[i as int]@);
        }
        match api::find_first(formulae, x.name.as_str()) {
            Some(formula) => match check_package(
                x.name.as_str(),
                &x.value,
                formula,
                &latest[i],
                platform,
            ) {
                Some(o) => {
                    out.push(o);
                    proof {
                        assert(outdated_views(out@) =~= before.push(o@));
                    }
                },
                None => {},
            },
            None => {},
        }
    }
    proof {
        assert(e.take(e.len() as int) =~= e);
        assert(l.take(l.len() as int) =~= l);
    }
    out
}

fn check_casks(
    installed: &Table<InstalledCask>,
    casks: &Vec<Cask>,
    latest: &Vec<Option<Latest>>,
    out: &mut Vec<OutdatedPackage>,
)
    requires
        latest@.len() == installed.entries@.len(),
    ensures
        outdated_views(final(out)@) == outdated_views(old(out)@) + outdated_casks(
            cask_entries(installed.entries@),
            api::cask_views(casks@),
            opt_latest_views(latest@),
        ),
{
    let ghost start = outdated_views(out@);
    let ghost e = cask_entries(installed.entries@);
    let ghost c = api::cask_views(casks@);
    let ghost l = opt_latest_views(latest@);
    proof {
        assert(start + outdated_casks(e.take(0), c, l.take(0)) =~= start);
    }
    for i in 0..installed.entries.len()
        invariant
            latest@.len() == installed.entries@.len(),
            e == cask_entries(installed.entries@),
            c == api::cask_views(casks@),
            l == opt_latest_views(latest@),
            outdated_views(out@) == start + outdated_casks(e.take(i as int), c, l.take(i as int)),
    {
        let x = &installed.entries[i];
        let ghost before = outdated_views(out@);
        let ghost so_far = outdated_casks(e.take(i as int), c, l.take(i as int));
        proof {
            assert(e.take(i + 1).drop_last() =~= e.take(i as int));
            assert(e.take(i + 1).last() == (x.name@, x.value@));
            assert(l.take(i + 1).drop_last() =~= l.take(i as int));
            assert(l.take(i + 1).last() == opt_latest(latest@[i as int]));
        }
        match &latest[i] {
            Some(v) => {
                if !v.current && api::has_cask(casks, x.name.as_str()) {
                    let o = OutdatedPackage {
                        name: x.name.clone(),
                        installed_version: x.value.version.clone(),
                        latest_version: v.version.clone(),
                        is_cask: true,
                        install_mode: None,
                    };
                    let ghost shown = o@;
                    out.push(o);
                    proof {
                        assert(outdated_views(out@) =~= before.push(shown));
                        assert(start + so_far.push(shown) =~= before.push(shown));
                    }
                }
            },
            None => {},
        }
    }
    proof {
        assert(e.take(e.len() as int) =~= e);
        assert(l.take(l.len() as int) =~= l);
    }
}

/// The outdated formulae and casks among the installed ones, by name. The latest
/// versions are given in the order of the records; a cask has none where its
/// details could not be had.
pub fn get_outdated_packages(
    installed: &Table<InstalledPackage>,
    formulae: &Vec<Formula>,
    latest: &Vec<Latest>,
    installed_casks: &Table<InstalledCask>,
    casks: &Vec<Cask>,
    latest_casks: &Vec<Option<Latest>>,
    platform: &str,
) -> (r: Vec<OutdatedPackage>)
    requires
        api::formulae_wf(formulae@),
        latest@.len() == installed.entries@.len(),
        latest_casks@.len() == installed_casks.entries@.len(),
    ensures
        outdated_views(r@) == order::sort(
            outdated_formulae(
                package_entries(installed.entries@),
                api::formula_views(formulae@),
                latest_views(latest@),
                platform@,
            ) + outdated_casks(
                cask_entries(installed_casks.entries@),
                api::cask_views(casks@),
                opt_latest_views(latest_casks@),
            ),
        ),
{
    let mut out = check_packages(installed, formulae, latest, platform);
    check_casks(installed_casks, casks, latest_casks, &mut out);
    let ghost all = out@;
    proof {
        assert(order::shown_all(all) =~= outdated_views(all));
    }
    sort_by_key(&mut out);
    proof {
        assert(order::shown_all(out@) =~= outdated_views(out@));
    }
    out
}

/// A pinned package is never outdated.
pub proof fn pinned_is_never_outdated(
    name: Seq<char>,
    i: InstalledView,
    f: Option<FormulaView>,
    l: LatestView,
    platform: Seq<char>,
)
    requires
        i.pinned,
    ensures
        outdated(name, i, f, l, platform) is None,
{
}

/// A package whose version is the latest, with the bottle of that version, is not
/// outdated.
pub proof fn current_is_not_outdated(
    name: Seq<char>,
    i: InstalledView,
    f: FormulaView,
    l: LatestView,
    platform: Seq<char>,
)
    requires
        l.current,
        i.bottle_rebuild == f.rebuild(),
        f.file_for(platform) matches Some(b) ==> i.bottle_sha256 == Some(b.sha256),
    ensures
        outdated(name, i, Some(f), l, platform) is None,
{
}

// ---------------------------------------------------------------------------
// The plan of an upgrade

pub open spec fn outdated_names(o: Seq<OutdatedView>) -> Seq<Seq<char>> {
    Seq::new(o.len(), |i: int| o[i].name)
}

/// The names of `more` that are neither outdated nor listed already, added.
pub open spec fn with_dependents(
    names: Seq<Seq<char>>,
    more: Seq<Seq<char>>,
    outdated: Seq<Seq<char>>,
) -> Seq<Seq<char>>
    decreases more.len(),
{
    if more.len() == 0 {
        names
    } else {
        let before = with_dependents(names, more.drop_last(), outdated);
        let d = more.last();
        if outdated.contains(d) || before.contains(d) {
            before
        } else {
            before.push(d)
        }
    }
}

pub open spec fn name_lists(v: Seq<Vec<String>>) -> Seq<Seq<Seq<char>>> {
    Seq::new(v.len(), |i: int| text::views(v[i]@))
}

/// The installed packages that depend on an outdated formula and are not outdated
/// themselves, each once.
pub open spec fn dependents_of(
    o: Seq<OutdatedView>,
    reverse: Seq<Seq<Seq<char>>>,
    outdated: Seq<Seq<char>>,
) -> Seq<Seq<char>>
    decreases o.len(),
{
    if o.len() == 0 {
        Seq::empty()
    } else {
        let before = dependents_of(o.drop_last(), reverse.drop_last(), outdated);
        if o.last().is_cask {
            before
        } else {
            with_dependents(before, reverse.last(), outdated)
        }
    }
}

fn names_of(o: &Vec<OutdatedPackage>) -> (r: Vec<String>)
    ensures
        text::views(r@) == outdated_names(outdated_views(o@)),
{
    let mut out: Vec<String> = Vec::new();
    for i in 0..o.len()
        invariant
            out@.len() == i,
            forall|j: int| 0 <= j < i ==> (#[trigger] out@[j])@ == o@[j].name@,
    {
        out.push(o[i].name.clone());
    }
    proof {
        assert(text::views(out@) =~= outdated_names(outdated_views(o@)));
    }
    out
}

fn add_dependents(names: &mut Vec<String>, more: &Vec<String>, outdated: &Vec<String>)
    ensures
        text::views(final(names)@) == with_dependents(
            text::views(old(names)@),
            text::views(more@),
            text::views(outdated@),
        ),
{
    let ghost start = text::views(names@);
    let ghost m = text::views(more@);
    for i in 0..more.len()
        invariant
            m == text::views(more@),
            text::views(names@) == with_dependents(start, m.take(i as int), text::views(outdated@)),
    {
        let ghost before = text::views(names@);
        proof {
            assert(m.take(i + 1).drop_last() =~= m.take(i as int));
            assert(m.take(i + 1).last() == more@[i as int]@);
        }
        let name = more[i].as_str();
        if !listed(outdated, name) && !listed(names, name) {
            names.push(more[i].clone());
            proof {
                assert(text::views(names@) =~= before.push(more@[i as int]@));
            }
        }
    }
    proof {
        assert(m.take(m.len() as int) =~= m);
    }
}

/// The installed packages that have to be installed again after an upgrade, given
/// for each outdated package those that depend on it.
pub fn dependents_to_reinstall(outdated: &Vec<OutdatedPackage>, reverse: &Vec<Vec<String>>) -> (r: Vec<
    String,
>)
    requires
        reverse@.len() == outdated@.len(),
    ensures
        text::views(r@) == dependents_of(
            outdated_views(outdated@),
            name_lists(reverse@),
            outdated_names(outdated_views(outdated@)),
        ),
{
    let names = names_of(outdated);
    let ghost n = text::views(names@);
    let ghost o = outdated_views(outdated@);
    let ghost v = name_lists(reverse@);
    let mut out: Vec<String> = Vec::new();
    proof {
        assert(text::views(out@) =~= dependents_of(o.take(0), v.take(0), n));
    }
    for i in 0..outdated.len()
        invariant
            reverse@.len() == outdated@.len(),
            n == text::views(names@),
            o == outdated_views(outdated@),
            v == name_lists(reverse@),
            text::views(out@) == dependents_of(o.take(i as int), v.take(i as int), n),
    {
        proof {
            assert(o.take(i + 1).drop_last() =~= o.take(i as int));
            assert(o.take(i + 1).last() == outdated@[i as int]@);
            assert(v.take(i + 1).drop_last() =~= v.take(i as int));
            assert(v.take(i + 1).last() == text::views(reverse@[i as int]@));
        }
        if !outdated[i].is_cask {
            add_dependents(&mut out, &reverse[i], &names);
        }
    }
    proof {
        assert(o.take(o.len() as int) =~= o);
        assert(v.take(v.len() as int) =~= v);
    }
    out
}

/// No package is both upgraded and installed again, and none is installed again
/// twice.
pub proof fn dependents_are_separate(
    o: Seq<OutdatedView>,
    reverse: Seq<Seq<Seq<char>>>,
    outdated: Seq<Seq<char>>,
)
    ensures
        dependents_of(o, reverse, outdated).no_duplicates(),
        forall|i: int|
            0 <= i < dependents_of(o, reverse, outdated).len() ==> !outdated.contains(
                #[trigger] dependents_of(o, reverse, outdated)[i],
            ),
    decreases o.len(),
{
    if o.len() > 0 {
        dependents_are_separate(o.drop_last(), reverse.drop_last(), outdated);
        if !o.last().is_cask {
            adding_keeps_separate(
                dependents_of(o.drop_last(), reverse.drop_last(), outdated),
                reverse.last(),
                outdated,
            );
        }
    }
}

proof fn adding_keeps_separate(
    names: Seq<Seq<char>>,
    more: Seq<Seq<char>>,
    outdated: Seq<Seq<char>>,
)
    requires
        names.no_duplicates(),
        forall|i: int| 0 <= i < names.len() ==> !outdated.contains(#[trigger] names[i]),
    ensures
        with_dependents(names, more, outdated).no_duplicates(),
        forall|i: int|
            0 <= i < with_dependents(names, more, outdated).len() ==> !outdated.contains(
                #[trigger] with_dependents(names, more, outdated)[i],
            ),
    decreases more.len(),
{
    if more.len() > 0 {
        adding_keeps_separate(names, more.drop_last(), outdated);
        let before = with_dependents(names, more.drop_last(), outdated);
        let after = with_dependents(names, more, outdated);
        if !outdated.contains(more.last()) && !before.contains(more.last()) {
            assert forall|i: int, j: int| 0 <= i < j < after.len() implies after[i] != after[j] by {
                if j == before.len() {
                    assert(before.contains(before[i]));
                }
            }
        }
    }
}

/// The names in a plan, casks marked as such.
pub open spec fn plan_names(o: Seq<OutdatedView>) -> Seq<Seq<char>> {
    Seq::new(
        o.len(),
        |i: int|
            if o[i].is_cask {
                o[i].name + " (cask)"@
            } else {
                o[i].name
            },
    )
}

/// What an upgrade says that it upgrades.
pub fn plan_text(outdated: &Vec<OutdatedPackage>) -> (r: String)
    ensures
        r@ == "upgrading "@ + text::join(plan_names(outdated_views(outdated@)), ", "@),
{
    let mut names: Vec<String> = Vec::new();
    for i in 0..outdated.len()
        invariant
            names@.len() == i,
            forall|j: int|
                0 <= j < i ==> (#[trigger] names@[j])@ == plan_names(outdated_views(outdated@))[j],
    {
        let mut n = outdated[i].name.clone();
        if outdated[i].is_cask {
            n.append(" (cask)");
        }
        names.push(n);
    }
    proof {
        assert(text::views(names@) =~= plan_names(outdated_views(outdated@)));
    }
    let mut m = String::from_str("upgrading ");
    m.append(joined(&names, ", ").as_str());
    m
}

/// A word's ending for a number of things.
pub open spec fn plural(n: nat) -> Seq<char> {
    if n == 1 {
        ""@
    } else {
        "s"@
    }
}

fn ending(n: usize) -> (r: &'static str)
    ensures
        r@ == plural(n as nat),
{
    if n == 1 {
        ""
    } else {
        "s"
    }
}

/// What an upgrade says that it installs again, if anything.
pub fn dependents_text(dependents: &Vec<String>) -> (r: Option<String>)
    ensures
        text::opt_view(r) == if dependents@.len() == 0 {
            None
        } else {
            Some(
                "will reinstall "@ + text::decimal(dependents@.len()) + " dependent"@ + plural(
                    dependents@.len(),
                ) + " after: "@ + text::join(text::views(dependents@), ", "@),
            )
        },
{
    let n: usize = dependents.len();
    if n == 0 {
        return None;
    }
    let mut m = String::from_str("will reinstall ");
    m.append(number(n as u128).as_str());
    m.append(" dependent");
    m.append(ending(n));
    m.append(" after: ");
    m.append(joined(dependents, ", ").as_str());
    Some(m)
}

/// The outdated formulae that come as a bottle, with the address of each.
pub open spec fn upgrade_urls_of(
    o: Seq<OutdatedView>,
    f: Seq<FormulaView>,
    platform: Seq<char>,
) -> Seq<(Seq<char>, Seq<char>)>
    decreases o.len(),
{
    if o.len() == 0 {
        Seq::empty()
    } else {
        let before = upgrade_urls_of(o.drop_last(), f, platform);
        match install::last_named(f, o.last().name) {
            Some(k) => match f[k].file_for(platform) {
                Some(b) => if o.last().is_cask {
                    before
                } else {
                    before.push((o.last().name, b.url))
                },
                None => before,
            },
            None => before,
        }
    }
}

/// The addresses of the bottles that an upgrade fetches.
pub fn upgrade_urls(outdated: &Vec<OutdatedPackage>, formulae: &Vec<Formula>, platform: &str) -> (r: Vec<
    (String, String),
>)
    requires
        api::formulae_wf(formulae@),
    ensures
        outside::pair_views(r@) == upgrade_urls_of(
            outdated_views(outdated@),
            api::formula_views(formulae@),
            platform@,
        ),
{
    let ghost o = outdated_views(outdated@);
    let ghost f = api::formula_views(formulae@);
    let mut out: Vec<(String, String)> = Vec::new();
    proof {
        assert(outside::pair_views(out@) =~= upgrade_urls_of(o.take(0), f, platform@));
    }
    for i in 0..outdated.len()
        invariant
            api::formulae_wf(formulae@),
            o == outdated_views(outdated@),
            f == api::formula_views(formulae@),
            outside::pair_views(out@) == upgrade_urls_of(o.take(i as int), f, platform@),
    {
        let ghost before = outside::pair_views(out@);
        proof {
            assert(o.take(i + 1).drop_last() =~= o.take(i as int));
            assert(o.take(i + 1).last() == outdated@[i as int]@);
        }
        match install::find_named(formulae, outdated[i].name.as_str()) {
            Some(k) => {
                let formula = &formulae[k];
                proof {
                    assert(formulae@[k as int].wf());
                }
                match formula.bottle_file(platform) {
                    Some(b) => {
                        if !outdated[i].is_cask {
                            out.push((outdated[i].name.clone(), b.url.clone()));
                            proof {
                                assert(outside::pair_views(out@) =~= before.push(
                                    (outdated@[i as int].name@, b.url@),
                                ));
                            }
                        }
                    },
                    None => {},
                }
            },
            None => {},
        }
    }
    proof {
        assert(o.take(o.len() as int) =~= o);
    }
    out
}

/// How many bottles are fetched at once: all of them, but no more than 32.
pub fn concurrent_limit(bottles: usize) -> (r: usize)
    ensures
        r == if bottles == 0 {
            1
        } else if bottles > 32 {
            32
        } else {
            bottles as int
        },
{
    if bottles == 0 {
        1
    } else if bottles > 32 {
        32
    } else {
        bottles
    }
}

/// The fewest connections for a bottle: two where the pool allows it.
pub fn min_connections(pool: usize, bottles: usize) -> (r: usize)
    ensures
        r == if pool as int / (if bottles == 0 {
            1
        } else {
            bottles as int
        }) >= 2 {
            2int
        } else {
            1int
        },
{
    let n: usize = if bottles == 0 {
        1
    } else {
        bottles
    };
    if pool / n >= 2 {
        2
    } else {
        1
    }
}

/// How the new version of a package is installed.
#[derive(Debug, Clone, Copy, PartialEq, Eq, Structural)]
pub enum UpgradeVia {
    Cask,
    /// From the bottle that was fetched, in this mode.
    Bottle(InstallMode),
    /// As if it was asked for, with these flags.
    Install { user: bool, global: bool },
}

/// How the new version of a package is installed.
pub fn upgrade_via(pkg: &OutdatedPackage, fetched: bool, detected: InstallMode) -> (r: UpgradeVia)
    ensures
        r == if pkg.is_cask {
            UpgradeVia::Cask
        } else if fetched {
            UpgradeVia::Bottle(
                match pkg.install_mode {
                    Some(m) => m,
                    None => detected,
                },
            )
        } else {
            UpgradeVia::Install {
                user: pkg.install_mode == Some(InstallMode::User),
                global: pkg.install_mode == Some(InstallMode::Global),
            }
        },
{
    if pkg.is_cask {
        UpgradeVia::Cask
    } else if fetched {
        match pkg.install_mode {
            Some(m) => UpgradeVia::Bottle(m),
            None => UpgradeVia::Bottle(detected),
        }
    } else {
        let (user, global) = InstallMode::flags(pkg.install_mode);
        UpgradeVia::Install { user, global }
    }
}

/// What a package is called while it is upgraded.
pub fn progress_label(index: usize, total: usize, name: &str) -> (r: String)
    requires
        index < usize::MAX,
    ensures
        r@ == "("@ + text::decimal((index + 1) as nat) + "/"@ + text::decimal(total as nat) + ") "@
            + name@,
{
    let mut m = String::from_str("(");
    m.append(number(index as u128 + 1).as_str());
    m.append("/");
    m.append(number(total as u128).as_str());
    m.append(") ");
    m.append(name);
    m
}

/// The last line of an upgrade of all packages.
pub fn upgrade_summary(succeeded: usize, failed: usize, ms: u128) -> (r: String)
    ensures
        r@ == if failed > 0 {
            text::decimal(succeeded as nat) + " upgraded, "@ + text::decimal(failed as nat)
                + " failed ["@ + text::decimal(ms as nat) + "ms]"@
        } else {
            text::decimal(succeeded as nat) + " package"@ + plural(succeeded as nat)
                + " upgraded ["@ + text::decimal(ms as nat) + "ms]"@
        },
{
    let mut m = number(succeeded as u128);
    if failed > 0 {
        m.append(" upgraded, ");
        m.append(number(failed as u128).as_str());
        m.append(" failed [");
    } else {
        m.append(" package");
        m.append(ending(succeeded));
        m.append(" upgraded [");
    }
    m.append(number(ms).as_str());
    m.append("ms]");
    m
}

/// What is said of the packages that could not be upgraded, if any.
pub fn failures_text(failed: &Vec<String>) -> (r: Option<String>)
    ensures
        text::opt_view(r) == if failed@.len() == 0 {
            None
        } else {
            Some(
                text::decimal(failed@.len()) + " package"@ + plural(failed@.len())
                    + " failed to upgrade: "@ + text::join(text::views(failed@), ", "@),
            )
        },
{
    let n: usize = failed.len();
    if n == 0 {
        return None;
    }
    let mut m = number(n as u128);
    m.append(" package");
    m.append(ending(n));
    m.append(" failed to upgrade: ");
    m.append(joined(failed, ", ").as_str());
    Some(m)
}

// ---------------------------------------------------------------------------
// One package

/// What an upgrade of one package does.
#[derive(Debug, Clone, Copy, PartialEq, Eq, Structural)]
pub enum SingleUpgrade {
    Pinned,
    UpToDate,
    DryRun,
    Upgrade,
}

/// What an upgrade of one formula does.
pub fn upgrade_single(
    name: &str,
    installed: Option<&InstalledPackage>,
    formula_found: bool,
    current: bool,
    dry_run: bool,
) -> (r: Result<SingleUpgrade>)
    ensures
        match installed {
            None => r matches Err(WaxError::NotInstalled(n)) && n@ == name@,
            Some(i) => if i.pinned {
                r == Ok::<SingleUpgrade, WaxError>(SingleUpgrade::Pinned)
            } else if !formula_found {
                r matches Err(WaxError::FormulaNotFound(n)) && n@ == name@
            } else if current {
                r == Ok::<SingleUpgrade, WaxError>(SingleUpgrade::UpToDate)
            } else if dry_run {
                r == Ok::<SingleUpgrade, WaxError>(SingleUpgrade::DryRun)
            } else {
                r == Ok::<SingleUpgrade, WaxError>(SingleUpgrade::Upgrade)
            },
        },
{
    match installed {
        None => Err(WaxError::NotInstalled(String::from_str(name))),
        Some(i) => if i.pinned {
            Ok(SingleUpgrade::Pinned)
        } else if !formula_found {
            Err(WaxError::FormulaNotFound(String::from_str(name)))
        } else if current {
            Ok(SingleUpgrade::UpToDate)
        } else if dry_run {
            Ok(SingleUpgrade::DryRun)
        } else {
            Ok(SingleUpgrade::Upgrade)
        },
    }
}

/// What an upgrade of one cask does.
pub fn upgrade_cask_single(
    name: &str,
    installed: bool,
    known: bool,
    current: bool,
    dry_run: bool,
) -> (r: Result<SingleUpgrade>)
    ensures
        if !installed {
            r matches Err(WaxError::NotInstalled(n)) && n@ == name@
        } else if !known {
            r matches Err(WaxError::CaskNotFound(n)) && n@ == name@
        } else if current {
            r == Ok::<SingleUpgrade, WaxError>(SingleUpgrade::UpToDate)
        } else if dry_run {
            r == Ok::<SingleUpgrade, WaxError>(SingleUpgrade::DryRun)
        } else {
            r == Ok::<SingleUpgrade, WaxError>(SingleUpgrade::Upgrade)
        },
{
    if !installed {
        Err(WaxError::NotInstalled(String::from_str(name)))
    } else if !known {
        Err(WaxError::CaskNotFound(String::from_str(name)))
    } else if current {
        Ok(SingleUpgrade::UpToDate)
    } else if dry_run {
        Ok(SingleUpgrade::DryRun)
    } else {
        Ok(SingleUpgrade::Upgrade)
    }
}

// ---------------------------------------------------------------------------
// Laws of what is outdated

/// A package is reported with the version that is installed, and with a text that
/// begins with the version that is the latest.
pub proof fn outdated_tells_both_versions(
    name: Seq<char>,
    i: InstalledView,
    f: Option<FormulaView>,
    l: LatestView,
    platform: Seq<char>,
)
    ensures
        outdated(name, i, f, l, platform) matches Some(o) ==> {
            &&& o.name == name
            &&& o.installed_version == i.version
            &&& text::starts_with(o.latest_version, l.version)
            &&& !l.current ==> o.latest_version == l.version
            &&& !o.is_cask
            &&& o.install_mode == Some(i.install_mode)
            &&& f is Some
            &&& !i.pinned
        },
{
    let rebuild = " (rebuild "@;
    if f is Some {
        let d = text::decimal(f->0.rebuild());
        assert((l.version + rebuild + d + ")"@).subrange(0, l.version.len() as int) =~= l.version);
        assert((l.version + " (bottle updated)"@).subrange(0, l.version.len() as int)
            =~= l.version);
        assert(l.version.subrange(0, l.version.len() as int) =~= l.version);
    }
}

/// A package of the index that is not pinned is outdated whenever its version is not
/// the latest; and where it is, whenever the bottle of that version was rebuilt
/// since, or is another than the one that was installed.
pub proof fn older_is_outdated(
    name: Seq<char>,
    i: InstalledView,
    f: FormulaView,
    l: LatestView,
    platform: Seq<char>,
)
    requires
        !i.pinned,
    ensures
        !l.current ==> outdated(name, i, Some(f), l, platform) is Some,
        l.current && i.version == l.version && i.bottle_rebuild < f.rebuild() ==> (outdated(
            name,
            i,
            Some(f),
            l,
            platform,
        ) matches Some(o) && o.latest_version == l.version + " (rebuild "@ + text::decimal(
            f.rebuild(),
        ) + ")"@),
        l.current && i.bottle_rebuild >= f.rebuild() && i.bottle_sha256 is Some && (f.file_for(
            platform,
        ) matches Some(b) && i.bottle_sha256 != Some(b.sha256)) ==> (outdated(
            name,
            i,
            Some(f),
            l,
            platform,
        ) matches Some(o) && o.latest_version == l.version + " (bottle updated)"@),
        l.current && i.bottle_sha256 is None && i.bottle_rebuild >= f.rebuild() ==> outdated(
            name,
            i,
            Some(f),
            l,
            platform,
        ) is None,
        l.current && i.version != l.version && i.bottle_sha256 is None ==> outdated(
            name,
            i,
            Some(f),
            l,
            platform,
        ) is None,
{
}

/// What is not in the index is not outdated.
pub proof fn unknown_is_not_outdated(
    name: Seq<char>,
    i: InstalledView,
    l: LatestView,
    platform: Seq<char>,
)
    ensures
        outdated(name, i, None, l, platform) is None,
{
}

/// Every formula that is reported outdated is one of those installed: it is reported
/// with the version in its record, and with a text that begins with the latest version
/// given for that record.
pub proof fn reported_formulae_are_installed(
    e: Seq<(Seq<char>, InstalledView)>,
    f: Seq<FormulaView>,
    l: Seq<LatestView>,
    platform: Seq<char>,
    n: int,
) -> (k: int)
    requires
        e.len() == l.len(),
        0 <= n < outdated_formulae(e, f, l, platform).len(),
    ensures
        0 <= k < e.len(),
        ({
            let o = outdated_formulae(e, f, l, platform)[n];
            &&& o.name == e[k].0
            &&& o.installed_version == e[k].1.version
            &&& text::starts_with(o.latest_version, l[k].version)
            &&& !o.is_cask
            &&& o.install_mode == Some(e[k].1.install_mode)
            &&& !e[k].1.pinned
        }),
    decreases e.len(),
{
    let before = outdated_formulae(e.drop_last(), f, l.drop_last(), platform);
    if n < before.len() {
        let k = reported_formulae_are_installed(e.drop_last(), f, l.drop_last(), platform, n);
        assert(e.drop_last()[k] == e[k]);
        assert(l.drop_last()[k] == l[k]);
        k
    } else {
        outdated_tells_both_versions(
            e.last().0,
            e.last().1,
            api::first_named(f, e.last().0),
            l.last(),
            platform,
        );
        e.len() - 1
    }
}

/// Every installed formula that the index has, that is not pinned and whose version
/// is not the latest is reported.
pub proof fn older_formulae_are_reported(
    e: Seq<(Seq<char>, InstalledView)>,
    f: Seq<FormulaView>,
    l: Seq<LatestView>,
    platform: Seq<char>,
    k: int,
)
    requires
        e.len() == l.len(),
        0 <= k < e.len(),
        !e[k].1.pinned,
        !l[k].current,
        exists|j: int| 0 <= j < f.len() && (#[trigger] f[j]).name == e[k].0,
    ensures
        outdated_formulae(e, f, l, platform).contains(
            OutdatedView {
                name: e[k].0,
                installed_version: e[k].1.version,
                latest_version: l[k].version,
                is_cask: false,
                install_mode: Some(e[k].1.install_mode),
            },
        ),
    decreases e.len(),
{
    let before = outdated_formulae(e.drop_last(), f, l.drop_last(), platform);
    let now = outdated_formulae(e, f, l, platform);
    let o = OutdatedView {
        name: e[k].0,
        installed_version: e[k].1.version,
        latest_version: l[k].version,
        is_cask: false,
        install_mode: Some(e[k].1.install_mode),
    };
    if k < e.len() - 1 {
        assert(e.drop_last()[k] == e[k]);
        assert(l.drop_last()[k] == l[k]);
        older_formulae_are_reported(e.drop_last(), f, l.drop_last(), platform, k);
        let i = choose|i: int| 0 <= i < before.len() && before[i] == o;
        assert(now[i] == o);
    } else {
        named_is_found(f, e[k].0);
        assert(now[before.len() as int] == o);
    }
}

proof fn named_is_found(f: Seq<FormulaView>, name: Seq<char>)
    requires
        exists|j: int| 0 <= j < f.len() && (#[trigger] f[j]).name == name,
    ensures
        api::first_named(f, name) is Some,
    decreases f.len(),
{
    let j = choose|j: int| 0 <= j < f.len() && (#[trigger] f[j]).name == name;
    if f[0].name != name {
        assert(f.skip(1)[j - 1] == f[j]);
        named_is_found(f.skip(1), name);
    }
}

/// Every cask that is reported outdated is one of those installed: it is reported with
/// the version in its record, and with the latest version given for that record, which
/// is not current.
pub proof fn reported_casks_are_installed(
    e: Seq<(Seq<char>, InstalledCaskView)>,
    c: Seq<CaskView>,
    l: Seq<Option<LatestView>>,
    n: int,
) -> (k: int)
    requires
        e.len() == l.len(),
        0 <= n < outdated_casks(e, c, l).len(),
    ensures
        0 <= k < e.len(),
        l[k] is Some,
        ({
            let o = outdated_casks(e, c, l)[n];
            &&& o.name == e[k].0
            &&& o.installed_version == e[k].1.version
            &&& o.latest_version == l[k]->0.version
            &&& !l[k]->0.current
            &&& o.is_cask
            &&& o.install_mode is None
            &&& api::cask_known(c, o.name)
        }),
    decreases e.len(),
{
    let before = outdated_casks(e.drop_last(), c, l.drop_last());
    if n < before.len() {
        let k = reported_casks_are_installed(e.drop_last(), c, l.drop_last(), n);
        assert(e.drop_last()[k] == e[k]);
        assert(l.drop_last()[k] == l[k]);
        k
    } else {
        e.len() - 1
    }
}

/// Every installed cask that the index knows, and whose version is not the latest, is
/// reported.
pub proof fn older_casks_are_reported(
    e: Seq<(Seq<char>, InstalledCaskView)>,
    c: Seq<CaskView>,
    l: Seq<Option<LatestView>>,
    k: int,
    j: int,
)
    requires
        e.len() == l.len(),
        0 <= k < e.len(),
        l[k] is Some,
        !l[k]->0.current,
        0 <= j < c.len(),
        c[j].token == e[k].0 || c[j].full_token == e[k].0,
    ensures
        outdated_casks(e, c, l).contains(
            OutdatedView {
                name: e[k].0,
                installed_version: e[k].1.version,
                latest_version: l[k]->0.version,
                is_cask: true,
                install_mode: None,
            },
        ),
    decreases e.len(),
{
    let before = outdated_casks(e.drop_last(), c, l.drop_last());
    let now = outdated_casks(e, c, l);
    let o = OutdatedView {
        name: e[k].0,
        installed_version: e[k].1.version,
        latest_version: l[k]->0.version,
        is_cask: true,
        install_mode: None,
    };
    if k < e.len() - 1 {
        assert(e.drop_last()[k] == e[k]);
        assert(l.drop_last()[k] == l[k]);
        older_casks_are_reported(e.drop_last(), c, l.drop_last(), k, j);
        let i = choose|i: int| 0 <= i < before.len() && before[i] == o;
        assert(now[i] == o);
    } else {
        api::casks_are_known_by_both_names(c, e[k].0);
        assert(api::goes_by(c[j], e[k].0));
        assert(now[before.len() as int] == o);
    }
}

proof fn dependents_are_added(
    names: Seq<Seq<char>>,
    more: Seq<Seq<char>>,
    outdated: Seq<Seq<char>>,
    d: Seq<char>,
)
    ensures
        with_dependents(names, more, outdated).contains(d) <==> names.contains(d) || (more.contains(
            d,
        ) && !outdated.contains(d)),
    decreases more.len(),
{
    let now = with_dependents(names, more, outdated);
    if more.len() > 0 {
        let rest = more.drop_last();
        let last = more.last();
        let before = with_dependents(names, rest, outdated);
        dependents_are_added(names, rest, outdated, d);
        assert(more[more.len() - 1] == last);
        if rest.contains(d) {
            let i = choose|i: int| 0 <= i < rest.len() && rest[i] == d;
            assert(more[i] == d);
        }
        if more.contains(d) && d != last {
            let i = choose|i: int| 0 <= i < more.len() && more[i] == d;
            assert(rest[i] == d);
        }
        if !(outdated.contains(last) || before.contains(last)) {
            assert(now == before.push(last));
            assert(now[before.len() as int] == last);
            if before.contains(d) {
                let i = choose|i: int| 0 <= i < before.len() && before[i] == d;
                assert(now[i] == d);
            }
            if now.contains(d) && d != last {
                let i = choose|i: int| 0 <= i < now.len() && now[i] == d;
                assert(before[i] == d);
            }
        }
    }
}

/// A package is installed again exactly when it is not upgraded itself and depends on
/// a formula that is.
pub proof fn dependents_of_upgraded_are_reinstalled(
    o: Seq<OutdatedView>,
    reverse: Seq<Seq<Seq<char>>>,
    upgraded: Seq<Seq<char>>,
    d: Seq<char>,
)
    requires
        o.len() == reverse.len(),
    ensures
        dependents_of(o, reverse, upgraded).contains(d) <==> !upgraded.contains(d) && exists|k: int|
            0 <= k < o.len() && !o[k].is_cask && (#[trigger] reverse[k]).contains(d),
    decreases o.len(),
{
    if o.len() > 0 {
        let last = o.len() - 1;
        dependents_of_upgraded_are_reinstalled(o.drop_last(), reverse.drop_last(), upgraded, d);
        let before = dependents_of(o.drop_last(), reverse.drop_last(), upgraded);
        if !o.last().is_cask {
            dependents_are_added(before, reverse.last(), upgraded, d);
        }
        assert(reverse[last] == reverse.last() && o[last] == o.last());
        if exists|k: int|
            0 <= k < o.len() && !o[k].is_cask && (#[trigger] reverse[k]).contains(d) {
            let k = choose|k: int|
                0 <= k < o.len() && !o[k].is_cask && (#[trigger] reverse[k]).contains(d);
            if k < last {
                assert(reverse.drop_last()[k] == reverse[k]);
                assert(o.drop_last()[k] == o[k]);
            }
        }
        if exists|k: int|
            0 <= k < last && !o.drop_last()[k].is_cask && (#[trigger] reverse.drop_last()[k]).contains(
                d,
            ) {
            let k = choose|k: int|
                0 <= k < last && !o.drop_last()[k].is_cask && (
                #[trigger] reverse.drop_last()[k]).contains(d);
            assert(reverse[k].contains(d) && !o[k].is_cask);
        }
    }
}

/// In the text of a plan every package goes by its name, and a cask is told apart.
pub proof fn plans_name_packages(o: Seq<OutdatedView>, k: int)
    requires
        0 <= k < o.len(),
    ensures
        plan_names(o).len() == o.len(),
        text::starts_with(plan_names(o)[k], o[k].name),
        o[k].is_cask <==> plan_names(o)[k] != o[k].name,
        o[k].is_cask ==> text::ends_with(plan_names(o)[k], " (cask)"@),
{
    reveal_strlit(" (cask)");
    let name = o[k].name;
    assert((name + " (cask)"@).subrange(0, name.len() as int) =~= name);
    assert(name.subrange(0, name.len() as int) =~= name);
    assert((name + " (cask)"@).len() != name.len());
    text::stripping_undoes_prefixing(" (cask)"@, name);
}

/// Only one thing is told of without an ending.
pub proof fn one_has_no_ending(n: nat)
    ensures
        n == 1 <==> plural(n) == Seq::<char>::empty(),
        n != 1 ==> plural(n) == seq!['s'],
{
    reveal_strlit("");
    reveal_strlit("s");
    assert(""@ =~= Seq::<char>::empty());
    assert("s"@ =~= seq!['s']);
    assert("s"@.len() == 1);
}

/// Every bottle that is fetched is that of an outdated formula for the platform.
pub proof fn fetched_bottles_are_outdated(
    o: Seq<OutdatedView>,
    f: Seq<FormulaView>,
    platform: Seq<char>,
    n: int,
) -> (r: (int, int))
    requires
        0 <= n < upgrade_urls_of(o, f, platform).len(),
    ensures
        0 <= r.0 < o.len(),
        !o[r.0].is_cask,
        upgrade_urls_of(o, f, platform)[n].0 == o[r.0].name,
        install::last_named(f, o[r.0].name) == Some(r.1),
        f[r.1].file_for(platform) matches Some(b) && upgrade_urls_of(o, f, platform)[n].1 == b.url,
    decreases o.len(),
{
    let before = upgrade_urls_of(o.drop_last(), f, platform);
    if n < before.len() {
        let r = fetched_bottles_are_outdated(o.drop_last(), f, platform, n);
        assert(o.drop_last()[r.0] == o[r.0]);
        r
    } else {
        (o.len() - 1, install::last_named(f, o.last().name)->0)
    }
}

/// The bottle of every outdated formula that has one for the platform is fetched.
pub proof fn outdated_bottles_are_fetched(
    o: Seq<OutdatedView>,
    f: Seq<FormulaView>,
    platform: Seq<char>,
    k: int,
)
    requires
        0 <= k < o.len(),
        !o[k].is_cask,
        install::last_named(f, o[k].name) matches Some(j) && f[j].file_for(platform) is Some,
    ensures
        upgrade_urls_of(o, f, platform).contains(
            (o[k].name, f[install::last_named(f, o[k].name)->0].file_for(platform)->0.url),
        ),
    decreases o.len(),
{
    let before = upgrade_urls_of(o.drop_last(), f, platform);
    let now = upgrade_urls_of(o, f, platform);
    let x = (o[k].name, f[install::last_named(f, o[k].name)->0].file_for(platform)->0.url);
    if k < o.len() - 1 {
        assert(o.drop_last()[k] == o[k]);
        outdated_bottles_are_fetched(o.drop_last(), f, platform, k);
        let i = choose|i: int| 0 <= i < before.len() && before[i] == x;
        assert(now[i] == x);
    } else {
        assert(now[before.len() as int] == x);
    }
}

}
