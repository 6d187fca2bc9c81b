//! What the system manager decides: which packages are tracked, which are to be
//! installed or removed, and what each step is called.
use crate::{order, table, text};
use crate::error::{ErrorView, Result, WaxError};
use crate::order::{Keyed, Listed, ListedView, dedup_by_key, sort_by_key};
use crate::system::state;
use crate::system::registry::holds;
use crate::system::state::{InstalledPackage, InstalledView, StateView, SystemState};
use crate::table::Table;
use crate::text::{copied, joined, number, same_str};
use vstd::prelude::*;

verus! {

/// The platform's name: macOS, or the distribution with its version if it has
/// one, or else the operating system.
pub fn platform_label(macos: bool, distro: Option<(String, String)>, os: &str) -> (r: String)
    ensures
        r@ == if macos {
            "macOS"@
        } else {
            match distro {
                Some((name, version)) => if version@.len() == 0 {
                    name@
                } else {
                    name@ + " "@ + version@
                },
                None => os@,
            }
        },
{
    if macos {
        return String::from_str("macOS");
    }
    match distro {
        Some((name, version)) => if version.as_str().is_empty() {
            name
        } else {
            let mut label = name;
            label.append(" ");
            label.append(version.as_str());
            label
        },
        None => String::from_str(os),
    }
}

/// The words of a generation's reason: what was done, and to which packages.
pub open spec fn reason(verb: Seq<char>, packages: Seq<Seq<char>>) -> Seq<char> {
    verb + " "@ + text::join(packages, " "@)
}

pub open spec fn install_verb(declare: bool) -> Seq<char> {
    if declare {
        "add"@
    } else {
        "install"@
    }
}

fn reason_for(verb: &str, packages: &Vec<String>) -> (r: String)
    ensures
        r@ == reason(verb@, text::views(packages@)),
{
    let mut m = String::from_str(verb);
    m.append(" ");
    m.append(joined(packages, " ").as_str());
    m
}

/// The reason of the generation made after an installation.
pub fn install_reason(packages: &Vec<String>, declare: bool) -> (r: String)
    ensures
        r@ == reason(install_verb(declare), text::views(packages@)),
{
    if declare {
        reason_for("add", packages)
    } else {
        reason_for("install", packages)
    }
}

/// The reason of the generation made before an installation.
pub fn pre_install_reason(packages: &Vec<String>, declare: bool) -> (r: String)
    ensures
        r@ == "pre-"@ + reason(install_verb(declare), text::views(packages@)),
{
    let mut m = String::from_str("pre-");
    m.append(install_reason(packages, declare).as_str());
    m
}

/// The reason of the generation made after a removal.
pub fn remove_reason(packages: &Vec<String>) -> (r: String)
    ensures
        r@ == reason("remove"@, text::views(packages@)),
{
    reason_for("remove", packages)
}

/// The reason of the generation made before a removal.
pub fn pre_remove_reason(packages: &Vec<String>) -> (r: String)
    ensures
        r@ == reason("pre-remove"@, text::views(packages@)),
{
    reason_for("pre-remove", packages)
}

// ---------------------------------------------------------------------------
// What is live

/// The list with the first entry of that name given the version, or with a new
/// entry at its end.
pub open spec fn overlay(l: Seq<ListedView>, name: Seq<char>, version: Seq<char>) -> Seq<ListedView>
    decreases l.len(),
{
    if l.len() == 0 {
        seq![(name, Some(version))]
    } else if l[0].0 == name {
        seq![(name, Some(version))] + l.skip(1)
    } else {
        seq![l[0]] + overlay(l.skip(1), name, version)
    }
}

/// The list with the versions of all manifests laid over it.
pub open spec fn overlay_all(
    l: Seq<ListedView>,
    manifests: Seq<(Seq<char>, Seq<char>)>,
) -> Seq<ListedView>
    decreases manifests.len(),
{
    if manifests.len() == 0 {
        l
    } else {
        overlay(overlay_all(l, manifests.drop_last()), manifests.last().0, manifests.last().1)
    }
}

/// What the package manager lists and what the manifests say, by name, each name once.
pub open spec fn live(
    listed: Seq<ListedView>,
    manifests: Seq<(Seq<char>, Seq<char>)>,
) -> Seq<ListedView> {
    order::dedup(order::sort(overlay_all(listed, manifests)))
}

proof fn overlay_at(l: Seq<ListedView>, name: Seq<char>, version: Seq<char>, i: int)
    requires
        0 <= i < l.len(),
        l[i].0 == name,
        forall|j: int| 0 <= j < i ==> (#[trigger] l[j]).0 != name,
    ensures
        overlay(l, name, version) == l.update(i, (name, Some(version))),
    decreases l.len(),
{
    if i > 0 {
        assert forall|j: int| 0 <= j < i - 1 implies (#[trigger] l.skip(1)[j]).0 != name by {
            assert(l[j + 1].0 != name);
        }
        assert(l[0].0 != name);
        overlay_at(l.skip(1), name, version, i - 1);
    }
    assert(overlay(l, name, version) =~= l.update(i, (name, Some(version))));
}

proof fn overlay_absent(l: Seq<ListedView>, name: Seq<char>, version: Seq<char>)
    requires
        forall|j: int| 0 <= j < l.len() ==> (#[trigger] l[j]).0 != name,
    ensures
        overlay(l, name, version) == l.push((name, Some(version))),
    decreases l.len(),
{
    if l.len() > 0 {
        assert(l[0].0 != name);
        assert forall|j: int| 0 <= j < l.skip(1).len() implies (#[trigger] l.skip(1)[j]).0
            != name by {
            assert(l[j + 1].0 != name);
        }
        overlay_absent(l.skip(1), name, version);
    }
    assert(overlay(l, name, version) =~= l.push((name, Some(version))));
}

fn lay_over(list: &mut Vec<Listed>, name: &String, version: &String)
    ensures
        order::shown_all(final(list)@) == overlay(order::shown_all(old(list)@), name@, version@),
{
    let ghost l = order::shown_all(list@);
    let n: usize = list.len();
    for i in 0..n
        invariant
            l == order::shown_all(list@),
            n == list@.len(),
            *list == *old(list),
            forall|j: int| 0 <= j < i ==> (#[trigger] l[j]).0 != name@,
    {
        if same_str(list[i].0.as_str(), name.as_str()) {
            let entry = (name.clone(), Some(version.clone()));
            proof {
                assert(l[i as int].0 == name@);
                overlay_at(l, name@, version@, i as int);
            }
            let ghost shown = entry.shown();
            list.set(i, entry);
            proof {
                assert(order::shown_all(list@) =~= l.update(i as int, shown));
            }
            return;
        }
        proof {
            assert(l[i as int].0 != name@);
        }
    }
    let entry = (name.clone(), Some(version.clone()));
    let ghost shown = entry.shown();
    list.push(entry);
    proof {
        overlay_absent(l, name@, version@);
        assert(order::shown_all(list@) =~= l.push(shown));
    }
}

/// The names and versions of the manifests.
pub open spec fn manifest_views(v: Seq<(String, String)>) -> Seq<(Seq<char>, Seq<char>)> {
    Seq::new(v.len(), |i: int| (v[i].0@, v[i].1@))
}

/// What is installed: the package manager's list with the manifests' versions.
pub fn live_packages(listed: Vec<Listed>, manifests: &Vec<(String, String)>) -> (r: Vec<Listed>)
    ensures
        order::shown_all(r@) == live(order::shown_all(listed@), manifest_views(manifests@)),
{
    let ghost l = order::shown_all(listed@);
    let ghost m = manifest_views(manifests@);
    let mut out = listed;
    for i in 0..manifests.len()
        invariant
            m == manifest_views(manifests@),
            order::shown_all(out@) == overlay_all(l, m.take(i as int)),
    {
        proof {
            assert(m.take(i + 1).drop_last() =~= m.take(i as int));
            assert(m.take(i + 1).last() == (manifests@[i as int].0@, manifests@[i as int].1@));
        }
        lay_over(&mut out, &manifests[i].0, &manifests[i].1);
    }
    proof {
        assert(m.take(m.len() as int) =~= m);
    }
    sort_by_key(&mut out);
    dedup_by_key(&mut out);
    out
}

/// In what is live every name stands once, in order.
pub proof fn live_names_are_distinct(
    listed: Seq<ListedView>,
    manifests: Seq<(Seq<char>, Seq<char>)>,
    i: int,
    j: int,
)
    requires
        0 <= i < j < live(listed, manifests).len(),
    ensures
        crate::order::less(live(listed, manifests)[i].0, live(listed, manifests)[j].0),
        live(listed, manifests)[i].0 != live(listed, manifests)[j].0,
{
    let s = order::sort(overlay_all(listed, manifests));
    crate::order::sort_orders(overlay_all(listed, manifests));
    crate::order::dedup_of_ordered_is_strict(s);
    let r = live(listed, manifests);
    assert(crate::order::less(crate::order::HasKey::key(&r[i]), crate::order::HasKey::key(&r[j])));
    crate::order::less_is_irreflexive(r[i].0);
}

// ---------------------------------------------------------------------------
// What is tracked

/// The version under which `name` is live; the last entry counts.
pub open spec fn live_version(l: Seq<ListedView>, name: Seq<char>) -> Option<Option<Seq<char>>>
    decreases l.len(),
{
    if l.len() == 0 {
        None
    } else if l.last().0 == name {
        Some(l.last().1)
    } else {
        live_version(l.drop_last(), name)
    }
}

fn find_live(l: &Vec<Listed>, name: &str) -> (r: Option<Option<String>>)
    ensures
        match live_version(order::shown_all(l@), name@) {
            Some(v) => r matches Some(w) && text::opt_view(w) == v,
            None => r is None,
        },
{
    let ghost s = order::shown_all(l@);
    let mut n: usize = l.len();
    proof {
        assert(s.take(n as int) =~= s);
    }
    while n > 0
        invariant
            n <= l@.len(),
            s == order::shown_all(l@),
            live_version(s, name@) == live_version(s.take(n as int), name@),
        decreases n,
    {
        proof {
            assert(s.take(n as int).last() == l@[n - 1].shown());
            assert(s.take(n as int).drop_last() =~= s.take(n - 1));
        }
        if same_str(l[n - 1].0.as_str(), name) {
            return Some(l[n - 1].1.clone());
        }
        n -= 1;
    }
    None
}

/// The record of a package that is live.
pub open spec fn live_record(s: StateView, l: Seq<ListedView>, now: int, name: Seq<char>) -> InstalledView {
    InstalledView {
        name,
        version: live_version(l, name)->0,
        installed_at: now,
        declared: s.declared.contains(name),
    }
}

/// After a refresh exactly those packages are tracked that are live and were
/// tracked or declared.
pub open spec fn refreshed(s: StateView, l: Seq<ListedView>, now: int) -> StateView {
    StateView {
        installed: Map::new(
            |n: Seq<char>|
                live_version(l, n) is Some && (s.installed.contains_key(n) || s.declared.contains(
                    n,
                )),
            |n: Seq<char>| live_record(s, l, now, n),
        ),
        declared: s.declared,
    }
}

fn tracked_names(t: &Table<InstalledPackage>) -> (r: Vec<String>)
    ensures
        text::views(r@) == Seq::new(t.entries@.len(), |i: int| t.entries@[i].name@),
{
    let mut out: Vec<String> = Vec::new();
    for i in 0..t.entries.len()
        invariant
            out@.len() == i,
            forall|j: int| 0 <= j < i ==> #[trigger] out@[j]@ == t.entries@[j].name@,
    {
        out.push(t.entries[i].name.clone());
    }
    proof {
        assert(text::views(out@) =~= Seq::new(t.entries@.len(), |i: int| t.entries@[i].name@));
    }
    out
}

/// Brings the tracked packages in line with what is live.
pub fn refresh_tracked_state(state: &mut SystemState, live: &Vec<Listed>, now: i64)
    requires
        old(state).wf(),
    ensures
        final(state).wf(),
        final(state)@ == refreshed(old(state)@, order::shown_all(live@), now as int),
{
    let ghost s = state@;
    let ghost l = order::shown_all(live@);
    let names = tracked_names(&state.installed);
    let ghost w = text::views(names@);
    proof {
        assert forall|n: Seq<char>| #[trigger] s.installed.contains_key(n) <==> w.contains(n) by {
            if s.installed.contains_key(n) {
                let i = choose|i: int| table::named_at(state.installed.entries@, n, i);
                assert(w[i] == n);
            }
            if w.contains(n) {
                let i = choose|i: int| 0 <= i < w.len() && w[i] == n;
                assert(table::named_at(state.installed.entries@, n, i));
            }
        }
    }
    for i in 0..names.len()
        invariant
            w == text::views(names@),
            l == order::shown_all(live@),
            state.wf(),
            state@.declared == s.declared,
            forall|n: Seq<char>| #[trigger] s.installed.contains_key(n) <==> w.contains(n),
            forall|n: Seq<char>|
                w.take(i as int).contains(n) ==> (#[trigger] state@.installed.contains_key(n) <==> live_version(
                    l,
                    n,
                ) is Some),
            forall|n: Seq<char>|
                w.take(i as int).contains(n) && #[trigger] state@.installed.contains_key(n)
                    ==> state@.installed[n] == live_record(s, l, now as int, n),
            forall|n: Seq<char>|
                !w.take(i as int).contains(n) ==> (#[trigger] state@.installed.contains_key(n)
                    <==> s.installed.contains_key(n)),
    {
        let ghost before = state@;
        let name = &names[i];
        proof {
            assert(w[i as int] == name@);
            take_grows(w, i as int);
        }
        match find_live(live, name.as_str()) {
            Some(version) => {
                let declared = state.is_declared(name.as_str());
                state.mark_installed(name.as_str(), version, declared, now);
            },
            None => {
                state.mark_removed(name.as_str());
            },
        }
    }
    proof {
        assert(w.take(w.len() as int) =~= w);
    }
    let ghost mid = state@;
    let wanted = copied(&state.declared);
    let ghost d = text::views(wanted@);
    for i in 0..wanted.len()
        invariant
            l == order::shown_all(live@),
            d == text::views(wanted@),
            d == s.declared,
            state.wf(),
            state@.declared == s.declared,
            forall|n: Seq<char>|
                #[trigger] mid.installed.contains_key(n) <==> (s.installed.contains_key(n)
                    && live_version(l, n) is Some),
            forall|n: Seq<char>|
                #[trigger] state@.installed.contains_key(n) <==> (mid.installed.contains_key(n)
                    || (d.take(i as int).contains(n) && live_version(l, n) is Some)),
            forall|n: Seq<char>|
                #[trigger] state@.installed.contains_key(n) ==> state@.installed[n] == live_record(
                    s,
                    l,
                    now as int,
                    n,
                ),
    {
        let name = &wanted[i];
        proof {
            assert(d[i as int] == name@);
            take_grows(d, i as int);
        }
        match find_live(live, name.as_str()) {
            Some(version) => {
                state.mark_installed(name.as_str(), version, true, now);
            },
            None => {},
        }
    }
    proof {
        assert(d.take(d.len() as int) =~= d);
        assert(state@.installed =~= refreshed(s, l, now as int).installed);
    }
}

/// After a refresh every tracked package is live.
pub proof fn refresh_tracks_only_live(s: StateView, l: Seq<ListedView>, now: int, name: Seq<char>)
    requires
        refreshed(s, l, now).installed.contains_key(name),
    ensures
        live_version(l, name) is Some,
{
}

/// Every declared package that is live is tracked after a refresh, and marked.
pub proof fn refresh_tracks_declared(s: StateView, l: Seq<ListedView>, now: int, name: Seq<char>)
    requires
        s.declared.contains(name),
        live_version(l, name) is Some,
    ensures
        refreshed(s, l, now).installed.contains_key(name),
        refreshed(s, l, now).installed[name].declared,
{
}

/// Refreshing twice is refreshing once.
pub proof fn refresh_is_idempotent(s: StateView, l: Seq<ListedView>, now: int)
    ensures
        refreshed(refreshed(s, l, now), l, now) == refreshed(s, l, now),
{
    let r = refreshed(s, l, now);
    assert(refreshed(r, l, now).installed =~= r.installed);
}

// ---------------------------------------------------------------------------
// Installing and removing

/// The state with the requested packages declared.
pub open spec fn declare_all(s: StateView, names: Seq<Seq<char>>) -> StateView
    decreases names.len(),
{
    if names.len() == 0 {
        s
    } else {
        state::declare(declare_all(s, names.drop_last()), names.last())
    }
}

/// Declares the requested packages.
pub fn declare_requested(state: &mut SystemState, packages: &Vec<String>)
    requires
        old(state).wf(),
    ensures
        final(state).wf(),
        final(state)@ == declare_all(old(state)@, text::views(packages@)),
{
    let ghost s = state@;
    let ghost w = text::views(packages@);
    for i in 0..packages.len()
        invariant
            w == text::views(packages@),
            state.wf(),
            state@ == declare_all(s, w.take(i as int)),
    {
        proof {
            assert(w.take(i + 1).drop_last() =~= w.take(i as int));
            assert(w.take(i + 1).last() == packages@[i as int]@);
        }
        state.declare(packages[i].as_str());
    }
    proof {
        assert(w.take(w.len() as int) =~= w);
    }
}

/// A requested package is recorded with the version under which it is live, if
/// it is.
pub open spec fn installed_record(
    s: StateView,
    l: Seq<ListedView>,
    declared: bool,
    now: int,
    name: Seq<char>,
) -> InstalledView {
    InstalledView {
        name,
        version: match live_version(l, name) {
            Some(v) => v,
            None => None,
        },
        installed_at: now,
        declared: declared || s.declared.contains(name),
    }
}

/// The state with the requested packages recorded.
pub open spec fn record_all(
    s: StateView,
    names: Seq<Seq<char>>,
    l: Seq<ListedView>,
    declared: bool,
    now: int,
) -> StateView
    decreases names.len(),
{
    if names.len() == 0 {
        s
    } else {
        let t = record_all(s, names.drop_last(), l, declared, now);
        state::mark_installed(t, installed_record(t, l, declared, now, names.last()))
    }
}

/// Records the requested packages after they were installed.
pub fn record_installed(
    state: &mut SystemState,
    packages: &Vec<String>,
    live: &Vec<Listed>,
    declared: bool,
    now: i64,
)
    requires
        old(state).wf(),
    ensures
        final(state).wf(),
        final(state)@ == record_all(
            old(state)@,
            text::views(packages@),
            order::shown_all(live@),
            declared,
            now as int,
        ),
{
    let ghost s = state@;
    let ghost w = text::views(packages@);
    for i in 0..packages.len()
        invariant
            w == text::views(packages@),
            state.wf(),
            state@ == record_all(s, w.take(i as int), order::shown_all(live@), declared, now as int),
    {
        proof {
            assert(w.take(i + 1).drop_last() =~= w.take(i as int));
            assert(w.take(i + 1).last() == packages@[i as int]@);
        }
        let version = match find_live(live, packages[i].as_str()) {
            Some(v) => v,
            None => None,
        };
        let mark = declared || state.is_declared(packages[i].as_str());
        state.mark_installed(packages[i].as_str(), version, mark, now);
    }
    proof {
        assert(w.take(w.len() as int) =~= w);
    }
}

/// The state without the removed packages, which are no longer declared either.
pub open spec fn remove_all(s: StateView, names: Seq<Seq<char>>) -> StateView
    decreases names.len(),
{
    if names.len() == 0 {
        s
    } else {
        state::mark_removed(state::undeclare(remove_all(s, names.drop_last()), names.last()), names.last())
    }
}

/// Forgets the removed packages.
pub fn record_removed(state: &mut SystemState, packages: &Vec<String>)
    requires
        old(state).wf(),
    ensures
        final(state).wf(),
        final(state)@ == remove_all(old(state)@, text::views(packages@)),
{
    let ghost s = state@;
    let ghost w = text::views(packages@);
    for i in 0..packages.len()
        invariant
            w == text::views(packages@),
            state.wf(),
            state@ == remove_all(s, w.take(i as int)),
    {
        proof {
            assert(w.take(i + 1).drop_last() =~= w.take(i as int));
            assert(w.take(i + 1).last() == packages@[i as int]@);
        }
        state.undeclare(packages[i].as_str());
        state.mark_removed(packages[i].as_str());
    }
    proof {
        assert(w.take(w.len() as int) =~= w);
    }
}

/// The state without the packages, whose declarations stay.
pub open spec fn drop_all(s: StateView, names: Seq<Seq<char>>) -> StateView
    decreases names.len(),
{
    if names.len() == 0 {
        s
    } else {
        state::mark_removed(drop_all(s, names.drop_last()), names.last())
    }
}

/// Stops tracking the packages.
pub fn record_dropped(state: &mut SystemState, packages: &Vec<String>)
    requires
        old(state).wf(),
    ensures
        final(state).wf(),
        final(state)@ == drop_all(old(state)@, text::views(packages@)),
{
    let ghost s = state@;
    let ghost w = text::views(packages@);
    for i in 0..packages.len()
        invariant
            w == text::views(packages@),
            state.wf(),
            state@ == drop_all(s, w.take(i as int)),
    {
        proof {
            assert(w.take(i + 1).drop_last() =~= w.take(i as int));
            assert(w.take(i + 1).last() == packages@[i as int]@);
        }
        state.mark_removed(packages[i].as_str());
    }
    proof {
        assert(w.take(w.len() as int) =~= w);
    }
}

/// The state with the packages of an earlier generation recorded.
pub open spec fn restore_all(s: StateView, records: Seq<ListedView>, now: int) -> StateView
    decreases records.len(),
{
    if records.len() == 0 {
        s
    } else {
        state::mark_installed(
            restore_all(s, records.drop_last(), now),
            InstalledView {
                name: records.last().0,
                version: records.last().1,
                installed_at: now,
                declared: s.declared.contains(records.last().0),
            },
        )
    }
}

proof fn restore_keeps_declared(s: StateView, records: Seq<ListedView>, now: int)
    ensures
        restore_all(s, records, now).declared == s.declared,
    decreases records.len(),
{
    if records.len() > 0 {
        restore_keeps_declared(s, records.drop_last(), now);
    }
}

/// Records the packages that a rollback installed.
pub fn record_restored(state: &mut SystemState, records: &Vec<Listed>, now: i64)
    requires
        old(state).wf(),
    ensures
        final(state).wf(),
        final(state)@ == restore_all(old(state)@, order::shown_all(records@), now as int),
{
    let ghost s = state@;
    let ghost w = order::shown_all(records@);
    for i in 0..records.len()
        invariant
            w == order::shown_all(records@),
            state.wf(),
            state@ == restore_all(s, w.take(i as int), now as int),
    {
        proof {
            assert(w.take(i + 1).drop_last() =~= w.take(i as int));
            assert(w.take(i + 1).last() == records@[i as int].shown());
            restore_keeps_declared(s, w.take(i as int), now as int);
        }
        let mark = state.is_declared(records[i].0.as_str());
        state.mark_installed(records[i].0.as_str(), records[i].1.clone(), mark, now);
    }
    proof {
        assert(w.take(w.len() as int) =~= w);
    }
}

// ---------------------------------------------------------------------------
// Converging to what is declared

/// The list holds exactly the names of which `p` holds, each once.
pub open spec fn holds_exactly(list: Seq<Seq<char>>, p: spec_fn(Seq<char>) -> bool) -> bool {
    &&& list.no_duplicates()
    &&& forall|n: Seq<char>| #[trigger] list.contains(n) <==> p(n)
}

/// What it takes to converge: the declared packages that are not installed, and
/// the installed ones that are not declared. The order of either list is open.
pub struct SyncPlan {
    pub to_install: Vec<String>,
    pub to_remove: Vec<String>,
}

proof fn last_or_before(names: Seq<Seq<char>>, n: Seq<char>)
    requires
        names.len() > 0,
    ensures
        names.contains(n) <==> names.drop_last().contains(n) || n == names.last(),
{
    if names.contains(n) {
        let i = choose|i: int| 0 <= i < names.len() && names[i] == n;
        if i < names.len() - 1 {
            assert(names.drop_last()[i] == n);
        }
    }
    if names.drop_last().contains(n) {
        let i = choose|i: int| 0 <= i < names.drop_last().len() && names.drop_last()[i] == n;
        assert(names[i] == n);
    }
}

/// Dropping takes the names away and leaves the rest.
proof fn drop_takes(s: StateView, names: Seq<Seq<char>>, n: Seq<char>)
    ensures
        drop_all(s, names).declared == s.declared,
        drop_all(s, names).installed.contains_key(n) <==> s.installed.contains_key(n)
            && !names.contains(n),
        drop_all(s, names).installed.contains_key(n) ==> drop_all(s, names).installed[n]
            == s.installed[n],
    decreases names.len(),
{
    if names.len() > 0 {
        drop_takes(s, names.drop_last(), n);
        last_or_before(names, n);
    }
}

/// Recording adds the names and leaves the declarations.
proof fn record_adds(
    s: StateView,
    names: Seq<Seq<char>>,
    l: Seq<ListedView>,
    declared: bool,
    now: int,
    n: Seq<char>,
)
    ensures
        record_all(s, names, l, declared, now).declared == s.declared,
        record_all(s, names, l, declared, now).installed.contains_key(n)
            <==> s.installed.contains_key(n) || names.contains(n),
    decreases names.len(),
{
    if names.len() > 0 {
        record_adds(s, names.drop_last(), l, declared, now, n);
        last_or_before(names, n);
    }
}

/// Declaring what is declared changes no name: neither the declared ones nor the
/// installed ones.
proof fn declaring_again_keeps_names(s: StateView, names: Seq<Seq<char>>, n: Seq<char>)
    requires
        forall|i: int| 0 <= i < names.len() ==> s.declared.contains(#[trigger] names[i]),
    ensures
        declare_all(s, names).declared == s.declared,
        declare_all(s, names).installed.contains_key(n) <==> s.installed.contains_key(n),
    decreases names.len(),
{
    if names.len() > 0 {
        assert forall|i: int| 0 <= i < names.drop_last().len() implies s.declared.contains(
            #[trigger] names.drop_last()[i],
        ) by {
            assert(names.drop_last()[i] == names[i]);
        }
        declaring_again_keeps_names(s, names.drop_last(), n);
        assert(s.declared.contains(names[names.len() - 1]));
    }
}

/// A sync converges: once what it removes is dropped and what it installs is
/// recorded, the packages that are tracked are exactly the declared ones, and
/// the declarations are as they were.
pub proof fn syncing_converges(
    s: StateView,
    to_remove: Seq<Seq<char>>,
    to_install: Seq<Seq<char>>,
    live: Seq<ListedView>,
    now: int,
    n: Seq<char>,
)
    requires
        holds_exactly(
            to_install,
            |n: Seq<char>| s.declared.contains(n) && !s.installed.contains_key(n),
        ),
        holds_exactly(
            to_remove,
            |n: Seq<char>| s.installed.contains_key(n) && !s.declared.contains(n),
        ),
    ensures
        ({
            let t = record_all(
                declare_all(drop_all(s, to_remove), to_install),
                to_install,
                live,
                true,
                now,
            );
            &&& t.declared == s.declared
            &&& t.installed.contains_key(n) <==> s.declared.contains(n)
        }),
{
    let d = drop_all(s, to_remove);
    drop_takes(s, to_remove, n);
    assert forall|i: int| 0 <= i < to_install.len() implies d.declared.contains(
        #[trigger] to_install[i],
    ) by {
        assert(to_install.contains(to_install[i]));
    }
    declaring_again_keeps_names(d, to_install, n);
    record_adds(declare_all(d, to_install), to_install, live, true, now, n);
    assert(to_install.contains(n) <==> s.declared.contains(n) && !s.installed.contains_key(n));
    assert(to_remove.contains(n) <==> s.installed.contains_key(n) && !s.declared.contains(n));
}

/// What it takes for the installed packages to be the declared ones; nothing
/// when no package is declared.
pub fn sync_declared(state: &SystemState) -> (r: Option<SyncPlan>)
    requires
        state.wf(),
    ensures
        match r {
            None => state@.declared.len() == 0,
            Some(plan) => {
                &&& state@.declared.len() > 0
                &&& holds_exactly(
                    text::views(plan.to_install@),
                    |n: Seq<char>|
                        state@.declared.contains(n) && !state@.installed.contains_key(n),
                )
                &&& holds_exactly(
                    text::views(plan.to_remove@),
                    |n: Seq<char>|
                        state@.installed.contains_key(n) && !state@.declared.contains(n),
                )
            },
        },
{
    if state.declared.len() == 0 {
        return None;
    }
    let ghost d = state@.declared;
    let mut to_install: Vec<String> = Vec::new();
    for i in 0..state.declared.len()
        invariant
            d == text::views(state.declared@),
            state@.declared == d,
            text::views(to_install@).no_duplicates(),
            forall|n: Seq<char>|
                #[trigger] text::views(to_install@).contains(n) <==> (d.take(i as int).contains(n)
                    && !state@.installed.contains_key(n)),
    {
        let name = &state.declared[i];
        let ghost before = text::views(to_install@);
        proof {
            assert(d[i as int] == name@);
            take_grows(d, i as int);
        }
        if !state.installed.contains_key(name.as_str()) && !holds(&to_install, name.as_str()) {
            to_install.push(name.clone());
            proof {
                pushed(before, name@);
                assert(text::views(to_install@) =~= before.push(name@));
            }
        }
    }
    proof {
        assert(d.take(d.len() as int) =~= d);
    }
    let names = tracked_names(&state.installed);
    let ghost w = text::views(names@);
    let mut to_remove: Vec<String> = Vec::new();
    proof {
        assert(w.no_duplicates()) by {
            assert forall|a: int, b: int| 0 <= a < w.len() && 0 <= b < w.len() && a != b implies w[a]
                != w[b] by {
                if a < b {
                    assert(state.installed.entries@[a].name@ != state.installed.entries@[b].name@);
                } else {
                    assert(state.installed.entries@[b].name@ != state.installed.entries@[a].name@);
                }
            }
        }
        assert forall|n: Seq<char>| #[trigger] state@.installed.contains_key(n) <==> w.contains(
            n,
        ) by {
            if state@.installed.contains_key(n) {
                let i = choose|i: int| table::named_at(state.installed.entries@, n, i);
                assert(w[i] == n);
            }
            if w.contains(n) {
                let i = choose|i: int| 0 <= i < w.len() && w[i] == n;
                assert(table::named_at(state.installed.entries@, n, i));
            }
        }
    }
    for i in 0..names.len()
        invariant
            w == text::views(names@),
            state@.declared == d,
            text::views(to_remove@).no_duplicates(),
            forall|n: Seq<char>|
                #[trigger] text::views(to_remove@).contains(n) <==> (w.take(i as int).contains(n)
                    && !d.contains(n)),
    {
        let name = &names[i];
        let ghost before = text::views(to_remove@);
        proof {
            assert(w[i as int] == name@);
            take_grows(w, i as int);
        }
        if !state.is_declared(name.as_str()) && !holds(&to_remove, name.as_str()) {
            to_remove.push(name.clone());
            proof {
                pushed(before, name@);
                assert(text::views(to_remove@) =~= before.push(name@));
            }
        }
    }
    proof {
        assert(w.take(w.len() as int) =~= w);
        let p = |n: Seq<char>| d.contains(n) && !state@.installed.contains_key(n);
        assert(holds_exactly(text::views(to_install@), p));
        let q = |n: Seq<char>| state@.installed.contains_key(n) && !d.contains(n);
        assert forall|n: Seq<char>| #[trigger] text::views(to_remove@).contains(n) <==> q(n) by {}
        assert(holds_exactly(text::views(to_remove@), q));
    }
    Some(SyncPlan { to_install, to_remove })
}

proof fn take_grows(s: Seq<Seq<char>>, i: int)
    requires
        0 <= i < s.len(),
    ensures
        forall|n: Seq<char>|
            #[trigger] s.take(i + 1).contains(n) <==> s.take(i).contains(n) || n == s[i],
{
    assert(s.take(i + 1) =~= s.take(i).push(s[i]));
    pushed(s.take(i), s[i]);
}

proof fn pushed(before: Seq<Seq<char>>, x: Seq<char>)
    ensures
        forall|n: Seq<char>| #[trigger] before.push(x).contains(n) <==> before.contains(n) || n == x,
        before.no_duplicates() && !before.contains(x) ==> before.push(x).no_duplicates(),
{
    let s = before.push(x);
    assert forall|n: Seq<char>| #[trigger] s.contains(n) <==> before.contains(n) || n == x by {
        if before.contains(n) {
            let j = choose|j: int| 0 <= j < before.len() && before[j] == n;
            assert(s[j] == n);
        }
        assert(s[before.len() as int] == x);
        if s.contains(n) {
            let j = choose|j: int| 0 <= j < s.len() && s[j] == n;
            if j < before.len() {
                assert(before[j] == n);
            }
        }
    }
}

// ---------------------------------------------------------------------------
// Removing what a manifest lists

/// The directories with the deepest first; directories of one depth keep their order.
pub open spec fn deepest_first(s: Seq<(Seq<char>, nat)>) -> Seq<(Seq<char>, nat)>
    decreases s.len(),
{
    if s.len() == 0 {
        s
    } else {
        sink(deepest_first(s.drop_last()), s.last())
    }
}

/// `s` with `x` put before the directories at its end that are less deep.
pub open spec fn sink(s: Seq<(Seq<char>, nat)>, x: (Seq<char>, nat)) -> Seq<(Seq<char>, nat)>
    decreases s.len(),
{
    if s.len() > 0 && s.last().1 < x.1 {
        sink(s.drop_last(), x).push(s.last())
    } else {
        s.push(x)
    }
}

pub open spec fn dir_views(v: Seq<(String, usize)>) -> Seq<(Seq<char>, nat)> {
    Seq::new(v.len(), |i: int| (v[i].0@, v[i].1 as nat))
}

proof fn sink_orders(s: Seq<(Seq<char>, nat)>, x: (Seq<char>, nat))
    requires
        forall|i: int, j: int| 0 <= i < j < s.len() ==> (#[trigger] s[i]).1 >= (#[trigger] s[j]).1,
    ensures
        sink(s, x).len() == s.len() + 1,
        forall|i: int, j: int|
            0 <= i < j < sink(s, x).len() ==> (#[trigger] sink(s, x)[i]).1 >= (#[trigger] sink(
                s,
                x,
            )[j]).1,
        forall|i: int|
            0 <= i < sink(s, x).len() ==> (#[trigger] sink(s, x)[i]).1 >= x.1 || (s.len() > 0
                && sink(s, x)[i].1 >= s.last().1),
    decreases s.len(),
{
    if s.len() > 0 && s.last().1 < x.1 {
        let t = s.drop_last();
        assert forall|i: int, j: int| 0 <= i < j < t.len() implies (#[trigger] t[i]).1
            >= (#[trigger] t[j]).1 by {
            assert(s[i].1 >= s[j].1);
        }
        sink_orders(t, x);
        let r = sink(s, x);
        assert forall|i: int, j: int| 0 <= i < j < r.len() implies (#[trigger] r[i]).1
            >= (#[trigger] r[j]).1 by {
            if j == r.len() - 1 {
                assert(r[i] == sink(t, x)[i]);
                if t.len() > 0 {
                    assert(t.last() == s[s.len() - 2]);
                    assert(s[s.len() - 2].1 >= s[s.len() - 1].1);
                }
            } else {
                assert(r[i] == sink(t, x)[i] && r[j] == sink(t, x)[j]);
            }
        }
    }
}

/// No directory comes before one that is deeper, so each is emptied of its
/// subdirectories first.
pub proof fn deeper_directories_come_first(s: Seq<(Seq<char>, nat)>)
    ensures
        deepest_first(s).len() == s.len(),
        forall|i: int, j: int|
            0 <= i < j < deepest_first(s).len() ==> (#[trigger] deepest_first(s)[i]).1 >= (
            #[trigger] deepest_first(s)[j]).1,
    decreases s.len(),
{
    if s.len() > 0 {
        deeper_directories_come_first(s.drop_last());
        sink_orders(deepest_first(s.drop_last()), s.last());
    }
}

/// The directories of a manifest in the order in which they are removed; each
/// stands with the number of its path's components.
pub fn removal_order(dirs: Vec<(String, usize)>) -> (r: Vec<(String, usize)>)
    ensures
        dir_views(r@) == deepest_first(dir_views(dirs@)),
{
    let ghost orig = dir_views(dirs@);
    let mut v = dirs;
    let n: usize = v.len();
    for i in 0..n
        invariant
            n == orig.len(),
            v@.len() == n,
            dir_views(v@).take(i as int) == deepest_first(orig.take(i as int)),
            dir_views(v@).skip(i as int) == orig.skip(i as int),
    {
        let ghost all = dir_views(v@);
        let ghost done = all.take(i as int);
        let ghost x = all[i as int];
        proof {
            assert(all.skip(i as int)[0] == orig.skip(i as int)[0]);
            assert(orig.take(i + 1).drop_last() =~= orig.take(i as int));
            assert(orig.take(i + 1).last() == x);
            assert(done.take(i as int) =~= done);
            assert(done.skip(i as int) =~= Seq::<(Seq<char>, nat)>::empty());
            assert(sink(done, x) =~= sink(done, x) + Seq::<(Seq<char>, nat)>::empty());
        }
        let mut p: usize = i;
        while p > 0 && v[p - 1].1 < v[i].1
            invariant
                p <= i < n == v@.len(),
                all == dir_views(v@),
                x == all[i as int],
                done == all.take(i as int),
                sink(done, x) == sink(done.take(p as int), x) + done.skip(p as int),
            decreases p,
        {
            proof {
                let t = done.take(p as int);
                assert(t.last() == all[p - 1]);
                assert(t.drop_last() =~= done.take(p - 1));
                assert(sink(done.take(p - 1), x).push(t.last()) + done.skip(p as int) =~= sink(
                    done.take(p - 1),
                    x,
                ) + done.skip(p - 1));
            }
            p -= 1;
        }
        proof {
            let t = done.take(p as int);
            if p > 0 {
                assert(t.last() == all[p - 1]);
            }
            assert(sink(t, x) == t.push(x));
        }
        let item = v.remove(i);
        v.insert(p, item);
        proof {
            let now = dir_views(v@);
            assert(now.take(i + 1) =~= done.take(p as int).push(x) + done.skip(p as int));
            assert(now.skip(i + 1) =~= all.skip(i as int).skip(1));
            assert(orig.skip(i + 1) =~= orig.skip(i as int).skip(1));
        }
    }
    proof {
        assert(dir_views(v@).take(n as int) =~= dir_views(v@));
        assert(orig.take(n as int) =~= orig);
    }
    v
}

// ---------------------------------------------------------------------------
// Rolling back

/// The generation that is rolled back to: the one that is asked for, or else the
/// previous one.
pub fn rollback_target(id: Option<u32>, previous: Option<u32>) -> (r: Result<u32>)
    ensures
        match (id, previous) {
            (Some(i), _) => r matches Ok(t) && t == i,
            (None, Some(p)) => r matches Ok(t) && t == p,
            (None, None) => r matches Err(e) && e@ == ErrorView::InstallError(
                "no previous generation to roll back to"@,
            ),
        },
{
    match id {
        Some(i) => Ok(i),
        None => match previous {
            Some(p) => Ok(p),
            None => Err(
                WaxError::InstallError(String::from_str("no previous generation to roll back to")),
            ),
        },
    }
}

/// The generation that is rolled back to has to be there.
pub fn check_generation(id: u32, there: bool) -> (r: Result<()>)
    ensures
        if there {
            r is Ok
        } else {
            r matches Err(e) && e@ == ErrorView::InstallError(
                "generation "@ + text::decimal(id as nat) + " not found"@,
            )
        },
{
    if there {
        return Ok(());
    }
    let mut m = String::from_str("generation ");
    m.append(number(id as u128).as_str());
    m.append(" not found");
    Err(WaxError::InstallError(m))
}

/// The reason of the generation made after rolling back.
pub fn rollback_reason(id: u32) -> (r: String)
    ensures
        r@ == "rollback to gen-"@ + text::decimal(id as nat),
{
    let mut m = String::from_str("rollback to gen-");
    m.append(number(id as u128).as_str());
    m
}

/// The packages without files of their own on record are left to the package
/// manager.
pub open spec fn left_to_manager(packages: Seq<Seq<char>>, recorded: Seq<bool>) -> Seq<Seq<char>>
    decreases packages.len(),
{
    if packages.len() == 0 {
        Seq::empty()
    } else if recorded[packages.len() - 1] {
        left_to_manager(packages.drop_last(), recorded)
    } else {
        left_to_manager(packages.drop_last(), recorded).push(packages.last())
    }
}

/// The packages that the package manager removes, given which of them have files
/// of their own on record.
pub fn remove_managed_packages(packages: &Vec<String>, recorded: &Vec<bool>) -> (r: Vec<String>)
    requires
        packages@.len() == recorded@.len(),
    ensures
        text::views(r@) == left_to_manager(text::views(packages@), recorded@),
{
    let ghost s = text::views(packages@);
    let mut out: Vec<String> = Vec::new();
    proof {
        assert(text::views(out@) =~= left_to_manager(s.take(0), recorded@));
    }
    for i in 0..packages.len()
        invariant
            s == text::views(packages@),
            packages@.len() == recorded@.len(),
            text::views(out@) == left_to_manager(s.take(i as int), recorded@),
    {
        let ghost before = text::views(out@);
        proof {
            assert(s.take(i + 1).drop_last() =~= s.take(i as int));
            assert(s.take(i + 1).last() == packages@[i as int]@);
        }
        if !recorded[i] {
            out.push(packages[i].clone());
            proof {
                assert(text::views(out@) =~= before.push(s[i as int]));
            }
        }
    }
    proof {
        assert(s.take(s.len() as int) =~= s);
    }
    out
}

// ---------------------------------------------------------------------------
// Status

/// The declared packages, each with whether it is installed.
pub fn declared_status(state: &SystemState) -> (r: Vec<(String, bool)>)
    ensures
        r@.len() == state@.declared.len(),
        forall|i: int|
            0 <= i < r@.len() ==> (#[trigger] r@[i]).0@ == state@.declared[i] && r@[i].1
                == state@.installed.contains_key(state@.declared[i]),
{
    let mut out: Vec<(String, bool)> = Vec::new();
    for i in 0..state.declared.len()
        invariant
            out@.len() == i,
            forall|j: int|
                0 <= j < i ==> (#[trigger] out@[j]).0@ == state@.declared[j] && out@[j].1
                    == state@.installed.contains_key(state@.declared[j]),
    {
        let name = &state.declared[i];
        let there = state.installed.contains_key(name.as_str());
        out.push((name.clone(), there));
    }
    out
}

// ---------------------------------------------------------------------------
// Laws of what is recorded

/// A manifest's version takes the place of the one that is listed for its package, or
/// is listed itself where there is none; every other package stays where it is.
pub proof fn manifests_win(l: Seq<ListedView>, name: Seq<char>, version: Seq<char>, i: int)
    ensures
        0 <= i < l.len() && l[i].0 == name && (forall|j: int| 0 <= j < i ==> (#[trigger] l[j]).0
            != name) ==> overlay(l, name, version) == l.update(i, (name, Some(version))),
        (forall|j: int| 0 <= j < l.len() ==> (#[trigger] l[j]).0 != name) ==> overlay(
            l,
            name,
            version,
        ) == l.push((name, Some(version))),
    decreases l.len(),
{
    if l.len() == 0 {
        assert(overlay(l, name, version) =~= l.push((name, Some(version))));
    } else {
        let t = l.skip(1);
        manifests_win(t, name, version, i - 1);
        assert(forall|j: int| 0 <= j < t.len() ==> #[trigger] t[j] == l[j + 1]);
        if l[0].0 == name {
            assert(overlay(l, name, version) =~= l.update(0, (name, Some(version))));
        } else {
            if 0 <= i < l.len() && l[i].0 == name && (forall|j: int|
                0 <= j < i ==> (#[trigger] l[j]).0 != name) {
                assert(t[i - 1] == l[i]);
                assert forall|j: int| 0 <= j < i - 1 implies (#[trigger] t[j]).0 != name by {
                    assert(l[j + 1].0 != name);
                }
                assert(overlay(l, name, version) =~= l.update(i, (name, Some(version))));
            }
            if forall|j: int| 0 <= j < l.len() ==> (#[trigger] l[j]).0 != name {
                assert forall|j: int| 0 <= j < t.len() implies (#[trigger] t[j]).0 != name by {
                    assert(l[j + 1].0 != name);
                }
                assert(overlay(l, name, version) =~= l.push((name, Some(version))));
            }
        }
    }
}

/// Manifests are laid over what is listed one after another.
pub proof fn manifests_are_laid_over(
    l: Seq<ListedView>,
    m: Seq<(Seq<char>, Seq<char>)>,
    name: Seq<char>,
    version: Seq<char>,
)
    ensures
        overlay_all(l, m.push((name, version))) == overlay(overlay_all(l, m), name, version),
        overlay_all(l, Seq::empty()) == l,
{
    assert(m.push((name, version)).drop_last() =~= m);
}

/// The version of a package is the one that it is listed with last; what is not listed
/// has none.
pub proof fn live_versions_are_listed(l: Seq<ListedView>, name: Seq<char>, version: Option<Seq<char>>, other: Seq<char>)
    ensures
        live_version(l.push((name, version)), name) == Some(version),
        other != name ==> live_version(l.push((name, version)), other) == live_version(l, other),
        live_version(Seq::empty(), name) is None,
{
    assert(l.push((name, version)).drop_last() =~= l);
}

/// What is tracked after a refresh has the live version and is marked exactly where it
/// is declared; nothing begins to be tracked that is not declared, and what is declared
/// stays so.
pub proof fn refreshed_records_are_live(s: StateView, l: Seq<ListedView>, now: int, name: Seq<char>, version: Option<Seq<char>>)
    ensures
        refreshed(s, l, now).declared == s.declared,
        !s.installed.contains_key(name) && !s.declared.contains(name) ==> !refreshed(
            s,
            l,
            now,
        ).installed.contains_key(name),
        live_version(l, name) == Some(version) && (s.installed.contains_key(name)
            || s.declared.contains(name)) ==> refreshed(s, l, now).installed.contains_key(name)
            && refreshed(s, l, now).installed[name] == (InstalledView {
            name,
            version,
            installed_at: now,
            declared: s.declared.contains(name),
        }),
{
}

/// Every package that was asked for is declared, and no other begins to be.
pub proof fn requested_are_declared(s: StateView, names: Seq<Seq<char>>, n: Seq<char>)
    ensures
        declare_all(s, names).declared.contains(n) <==> s.declared.contains(n) || names.contains(n),
        declare_all(s, names).installed.dom() == s.installed.dom(),
    decreases names.len(),
{
    if names.len() > 0 {
        let rest = names.drop_last();
        let last = names.last();
        requested_are_declared(s, rest, n);
        let t = declare_all(s, rest);
        state::declared_after_declare(t, last, n);
        state::declarations_leave_packages(t, last);
        assert(names[names.len() - 1] == last);
        if rest.contains(n) {
            let i = choose|i: int| 0 <= i < rest.len() && rest[i] == n;
            assert(names[i] == n);
        }
        if names.contains(n) && n != last {
            let i = choose|i: int| 0 <= i < names.len() && names[i] == n;
            assert(rest[i] == n);
        }
    }
}

/// Every package that was installed is recorded, with its live version and the time,
/// and marked where it is declared; every other record stays, and so do the
/// declarations.
pub proof fn installed_are_recorded(
    s: StateView,
    names: Seq<Seq<char>>,
    l: Seq<ListedView>,
    declared: bool,
    now: int,
    n: Seq<char>,
)
    ensures
        ({
            let t = record_all(s, names, l, declared, now);
            &&& t.declared == s.declared
            &&& names.contains(n) ==> t.installed.contains_key(n) && t.installed[n] == (
            InstalledView {
                name: n,
                version: match live_version(l, n) {
                    Some(v) => v,
                    None => None,
                },
                installed_at: now,
                declared: declared || s.declared.contains(n),
            })
            &&& !names.contains(n) ==> t.installed.contains_key(n) == s.installed.contains_key(n)
                && (s.installed.contains_key(n) ==> t.installed[n] == s.installed[n])
        }),
    decreases names.len(),
{
    if names.len() > 0 {
        let rest = names.drop_last();
        installed_are_recorded(s, rest, l, declared, now, n);
        assert(names[names.len() - 1] == names.last());
        if rest.contains(n) {
            let i = choose|i: int| 0 <= i < rest.len() && rest[i] == n;
            assert(names[i] == n);
        }
        if names.contains(n) && n != names.last() {
            let i = choose|i: int| 0 <= i < names.len() && names[i] == n;
            assert(rest[i] == n);
        }
    }
}

/// What was removed is neither recorded nor declared; what was dropped is not recorded,
/// and the declarations stay; every other package stays as it is.
pub proof fn removed_are_forgotten(s: StateView, names: Seq<Seq<char>>, n: Seq<char>)
    ensures
        names.contains(n) ==> !remove_all(s, names).installed.contains_key(n) && !remove_all(
            s,
            names,
        ).declared.contains(n) && !drop_all(s, names).installed.contains_key(n),
        !names.contains(n) ==> remove_all(s, names).installed.contains_key(n)
            == s.installed.contains_key(n) && remove_all(s, names).declared.contains(n)
            == s.declared.contains(n) && drop_all(s, names).installed.contains_key(n)
            == s.installed.contains_key(n),
        !names.contains(n) && s.installed.contains_key(n) ==> remove_all(s, names).installed[n]
            == s.installed[n] && drop_all(s, names).installed[n] == s.installed[n],
        drop_all(s, names).declared == s.declared,
    decreases names.len(),
{
    if names.len() > 0 {
        let rest = names.drop_last();
        let last = names.last();
        removed_are_forgotten(s, rest, n);
        let t = remove_all(s, rest);
        state::undeclared_after_undeclare(t, last, n);
        assert(names[names.len() - 1] == last);
        if rest.contains(n) {
            let i = choose|i: int| 0 <= i < rest.len() && rest[i] == n;
            assert(names[i] == n);
        }
        if names.contains(n) && n != last {
            let i = choose|i: int| 0 <= i < names.len() && names[i] == n;
            assert(rest[i] == n);
        }
    }
}

/// What a generation held is recorded again with the version that it had, and marked
/// where it is declared; the declarations stay.
pub proof fn restored_have_their_versions(
    s: StateView,
    records: Seq<ListedView>,
    name: Seq<char>,
    version: Option<Seq<char>>,
    other: Seq<char>,
    now: int,
)
    requires
        other != name,
    ensures
        ({
            let before = restore_all(s, records, now);
            let after = restore_all(s, records.push((name, version)), now);
            &&& after.installed.contains_key(name)
            &&& after.installed[name] == (InstalledView {
                name,
                version,
                installed_at: now,
                declared: s.declared.contains(name),
            })
            &&& after.declared == before.declared
            &&& after.installed.contains_key(other) == before.installed.contains_key(other)
            &&& before.installed.contains_key(other) ==> after.installed[other]
                == before.installed[other]
        }),
        restore_all(s, Seq::empty(), now) == s,
{
    assert(records.push((name, version)).drop_last() =~= records);
}

/// Removal is left to the package manager for exactly the packages without a manifest,
/// in their order.
pub proof fn unrecorded_are_left(packages: Seq<Seq<char>>, recorded: Seq<bool>, name: Seq<char>)
    requires
        packages.len() == recorded.len(),
    ensures
        left_to_manager(packages.push(name), recorded.push(true)) == left_to_manager(
            packages,
            recorded,
        ),
        left_to_manager(packages.push(name), recorded.push(false)) == left_to_manager(
            packages,
            recorded,
        ).push(name),
        left_to_manager(Seq::empty(), recorded).len() == 0,
{
    assert(packages.push(name).drop_last() =~= packages);
    only_own_records_count(packages, recorded, recorded.push(true));
    only_own_records_count(packages, recorded, recorded.push(false));
}

proof fn only_own_records_count(packages: Seq<Seq<char>>, a: Seq<bool>, b: Seq<bool>)
    requires
        forall|i: int| 0 <= i < packages.len() ==> a[i] == b[i],
    ensures
        left_to_manager(packages, a) == left_to_manager(packages, b),
    decreases packages.len(),
{
    if packages.len() > 0 {
        only_own_records_count(packages.drop_last(), a, b);
    }
}

/// No directory is lost, and none is added, where they are put in the order of their
/// removal.
pub proof fn ordering_keeps_directories(s: Seq<(Seq<char>, nat)>)
    ensures
        deepest_first(s).to_multiset() == s.to_multiset(),
    decreases s.len(),
{
    broadcast use vstd::seq_lib::group_to_multiset_ensures;

    if s.len() > 0 {
        ordering_keeps_directories(s.drop_last());
        sinking_keeps_directories(deepest_first(s.drop_last()), s.last());
        assert(s.drop_last().push(s.last()) =~= s);
    }
}

proof fn sinking_keeps_directories(s: Seq<(Seq<char>, nat)>, x: (Seq<char>, nat))
    ensures
        sink(s, x).to_multiset() == s.to_multiset().insert(x),
    decreases s.len(),
{
    broadcast use vstd::seq_lib::group_to_multiset_ensures;

    if s.len() > 0 && s.last().1 < x.1 {
        sinking_keeps_directories(s.drop_last(), x);
        assert(s.drop_last().push(s.last()) =~= s);
        assert(sink(s, x).to_multiset() =~= s.to_multiset().insert(x));
    }
}

/// The reason for a generation names what was done and each package that it was done
/// to; adding packages is told apart from installing them.
pub proof fn reasons_name_packages(verb: Seq<char>, packages: Seq<Seq<char>>)
    ensures
        text::strip_prefix(reason(verb, packages), verb + " "@) == Some(
            text::join(packages, " "@),
        ),
        install_verb(true) == "add"@,
        install_verb(false) == "install"@,
{
    text::stripping_undoes_prefixing(verb + " "@, text::join(packages, " "@));
}

}
