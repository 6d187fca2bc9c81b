//! The packages that a request brings with it, dependencies first.
use crate::text;
use crate::error::Result;
use crate::system::registry;
use crate::system::registry::{PackageIndex, PackageMetadata, PackageView, parse_dep_name};
use vstd::hash_set::StringHashSet;
use vstd::prelude::*;

verus! {

pub struct Resolver<'a> {
    pub index: &'a PackageIndex,
}

/// Where the package that answers to `name` stands.
pub open spec fn answer(v: Seq<PackageView>, name: Seq<char>) -> Option<int> {
    if exists|i: int| registry::found_at(v, name, i) {
        Some(choose|i: int| registry::found_at(v, name, i))
    } else {
        None
    }
}

/// A name is answered by one package.
pub proof fn answer_is(v: Seq<PackageView>, name: Seq<char>, i: int)
    requires
        registry::found_at(v, name, i),
    ensures
        answer(v, name) == Some(i),
        0 <= i < v.len(),
{
    let j = choose|j: int| registry::found_at(v, name, j);
    if j < i {
        assert(v[j].name != name || v[i].name != name);
    } else if i < j {
        assert(v[i].name != name || v[j].name != name);
    }
}

/// The names that the dependencies in a list ask for.
pub open spec fn asked_names(deps: Seq<Seq<char>>) -> Set<Seq<char>>
    decreases deps.len(),
{
    if deps.len() == 0 {
        Set::empty()
    } else {
        asked_names(deps.drop_last()).insert(registry::dep_name(deps.last()))
    }
}

/// The names that some dependency in the index asks for.
pub open spec fn all_asked(v: Seq<PackageView>) -> Set<Seq<char>>
    decreases v.len(),
{
    if v.len() == 0 {
        Set::empty()
    } else {
        all_asked(v.drop_last()).union(asked_names(v.last().depends))
    }
}

proof fn asked_names_finite(deps: Seq<Seq<char>>)
    ensures
        asked_names(deps).finite(),
        forall|i: int| 0 <= i < deps.len() ==> asked_names(deps).contains(registry::dep_name(#[trigger] deps[i])),
    decreases deps.len(),
{
    if deps.len() > 0 {
        asked_names_finite(deps.drop_last());
        assert forall|i: int| 0 <= i < deps.len() implies asked_names(deps).contains(
            registry::dep_name(#[trigger] deps[i]),
        ) by {
            if i < deps.len() - 1 {
                assert(deps.drop_last()[i] == deps[i]);
            }
        }
    }
}

pub proof fn all_asked_finite(v: Seq<PackageView>)
    ensures
        all_asked(v).finite(),
        forall|p: int, d: int|
            0 <= p < v.len() && 0 <= d < v[p].depends.len() ==> all_asked(v).contains(
                registry::dep_name(#[trigger] v[p].depends[d]),
            ),
    decreases v.len(),
{
    if v.len() > 0 {
        all_asked_finite(v.drop_last());
        asked_names_finite(v.last().depends);
        assert forall|p: int, d: int|
            0 <= p < v.len() && 0 <= d < v[p].depends.len() implies all_asked(v).contains(
            registry::dep_name(#[trigger] v[p].depends[d]),
        ) by {
            if p < v.len() - 1 {
                assert(v.drop_last()[p] == v[p]);
                assert(v.drop_last()[p].depends[d] == v[p].depends[d]);
            }
        }
    }
}

/// How many names can still be met for the first time.
pub open spec fn unmet(v: Seq<PackageView>, name: Seq<char>, met: Set<Seq<char>>) -> nat {
    all_asked(v).insert(name).difference(met).len()
}

pub open spec fn unmet_asked(v: Seq<PackageView>, met: Set<Seq<char>>) -> nat {
    all_asked(v).difference(met).len()
}

pub proof fn meeting_shrinks(v: Seq<PackageView>, name: Seq<char>, met: Set<Seq<char>>)
    requires
        !met.contains(name),
    ensures
        unmet_asked(v, met.insert(name)) < unmet(v, name, met),
{
    all_asked_finite(v);
    let a = all_asked(v).insert(name).difference(met);
    let b = all_asked(v).difference(met.insert(name));
    assert(a.finite());
    assert(b =~= a.remove(name));
    assert(a.contains(name));
}

pub proof fn meeting_more_shrinks(v: Seq<PackageView>, met: Set<Seq<char>>, more: Set<Seq<char>>)
    requires
        met.subset_of(more),
    ensures
        unmet_asked(v, more) <= unmet_asked(v, met),
{
    all_asked_finite(v);
    vstd::set_lib::lemma_len_subset(all_asked(v).difference(more), all_asked(v).difference(met));
}

pub proof fn asked_is_unmet(v: Seq<PackageView>, name: Seq<char>, met: Set<Seq<char>>)
    requires
        all_asked(v).contains(name),
    ensures
        unmet(v, name, met) == unmet_asked(v, met),
{
    assert(all_asked(v).insert(name) =~= all_asked(v));
}

/// How far a resolution has come: the names that were met, and where the
/// packages chosen so far stand in the index.
pub struct Progress {
    pub met: Set<Seq<char>>,
    pub chosen: Seq<int>,
}

/// What is chosen with the package at `i`; one that is chosen already stays where
/// it is.
pub open spec fn choosing(chosen: Seq<int>, i: int) -> Seq<int> {
    if chosen.contains(i) {
        chosen
    } else {
        chosen.push(i)
    }
}

/// Meeting a name for the first time brings in what its package depends on and
/// then the package itself. A name that nothing answers to is passed over.
pub open spec fn visit(v: Seq<PackageView>, name: Seq<char>, s: Progress) -> Progress
    decreases unmet(v, name, s.met), 0nat,
{
    if s.met.contains(name) {
        s
    } else {
        let met = s.met.insert(name);
        proof {
            meeting_shrinks(v, name, s.met);
        }
        match answer(v, name) {
            None => Progress { met, chosen: s.chosen },
            Some(i) => {
                let t = visit_all(v, v[i].depends, Progress { met, chosen: s.chosen });
                Progress { met: t.met, chosen: choosing(t.chosen, i) }
            },
        }
    }
}

/// The names that a list of dependencies asks for are met in their order; one
/// without a name is passed over.
pub open spec fn visit_all(v: Seq<PackageView>, deps: Seq<Seq<char>>, s: Progress) -> Progress
    decreases unmet_asked(v, s.met), deps.len() + 1,
{
    if deps.len() == 0 {
        s
    } else {
        let t = visit_all(v, deps.drop_last(), s);
        let name = registry::dep_name(deps.last());
        if name.len() == 0 || !s.met.subset_of(t.met) || !all_asked(v).contains(name) {
            t
        } else {
            proof {
                meeting_more_shrinks(v, s.met, t.met);
                asked_is_unmet(v, name, t.met);
            }
            visit(v, name, t)
        }
    }
}

/// The requests are met in their order.
pub open spec fn visit_requests(v: Seq<PackageView>, requests: Seq<Seq<char>>) -> Progress
    decreases requests.len(),
{
    if requests.len() == 0 {
        Progress { met: Set::empty(), chosen: Seq::empty() }
    } else {
        visit(v, registry::dep_name(requests.last()), visit_requests(v, requests.drop_last()))
    }
}

/// The packages that the requests bring in, by their place in the index.
pub open spec fn resolution(v: Seq<PackageView>, requests: Seq<Seq<char>>) -> Seq<int> {
    visit_requests(v, requests).chosen
}

/// Every dependency in `deps` is asked for somewhere in the index.
spec fn from_index(v: Seq<PackageView>, deps: Seq<Seq<char>>) -> bool {
    forall|i: int| 0 <= i < deps.len() ==> all_asked(v).contains(registry::dep_name(#[trigger] deps[i]))
}

proof fn package_deps_from_index(v: Seq<PackageView>, i: int)
    requires
        0 <= i < v.len(),
    ensures
        from_index(v, v[i].depends),
{
    all_asked_finite(v);
    assert forall|d: int| 0 <= d < v[i].depends.len() implies all_asked(v).contains(
        registry::dep_name(#[trigger] v[i].depends[d]),
    ) by {}
}

proof fn answer_in_range(v: Seq<PackageView>, name: Seq<char>)
    ensures
        answer(v, name) matches Some(i) ==> 0 <= i < v.len(),
{
    if exists|i: int| registry::found_at(v, name, i) {
        let i = choose|i: int| registry::found_at(v, name, i);
        answer_is(v, name, i);
    }
}

/// What was met stays met, and what was chosen stays where it is.
pub open spec fn extends(t: Progress, s: Progress) -> bool {
    s.met.subset_of(t.met) && s.chosen.is_prefix_of(t.chosen)
}

proof fn visit_extends(v: Seq<PackageView>, name: Seq<char>, s: Progress)
    ensures
        extends(visit(v, name, s), s),
        visit(v, name, s).met.contains(name),
    decreases unmet(v, name, s.met), 0nat,
{
    if !s.met.contains(name) {
        meeting_shrinks(v, name, s.met);
        match answer(v, name) {
            None => {},
            Some(i) => {
                visit_all_extends(v, v[i].depends, Progress { met: s.met.insert(name), chosen: s.chosen });
            },
        }
    }
}

proof fn visit_all_extends(v: Seq<PackageView>, deps: Seq<Seq<char>>, s: Progress)
    ensures
        extends(visit_all(v, deps, s), s),
    decreases unmet_asked(v, s.met), deps.len() + 1,
{
    if deps.len() > 0 {
        visit_all_extends(v, deps.drop_last(), s);
        let t = visit_all(v, deps.drop_last(), s);
        let name = registry::dep_name(deps.last());
        if name.len() > 0 && all_asked(v).contains(name) {
            meeting_more_shrinks(v, s.met, t.met);
            asked_is_unmet(v, name, t.met);
            visit_extends(v, name, t);
        }
    }
}

/// Meeting a name either changes nothing, or meets it and, when a package
/// answers, chooses the packages its dependencies bring in and then that package.
pub proof fn visit_unfolds(v: Seq<PackageView>, name: Seq<char>, s: Progress)
    ensures
        s.met.contains(name) ==> visit(v, name, s) == s,
        !s.met.contains(name) ==> visit(v, name, s) == match answer(v, name) {
            None => Progress { met: s.met.insert(name), chosen: s.chosen },
            Some(i) => {
                let t = visit_all(
                    v,
                    v[i].depends,
                    Progress { met: s.met.insert(name), chosen: s.chosen },
                );
                Progress { met: t.met, chosen: choosing(t.chosen, i) }
            },
        },
{
}

/// The dependencies of a package are met one after another.
pub proof fn visit_all_unfolds(v: Seq<PackageView>, p: int, n: int, s: Progress)
    requires
        0 <= p < v.len(),
        0 <= n < v[p].depends.len(),
    ensures
        visit_all(v, v[p].depends.take(0), s) == s,
        visit_all(v, v[p].depends.take(n + 1), s) == {
            let t = visit_all(v, v[p].depends.take(n), s);
            if registry::dep_name(v[p].depends[n]).len() == 0 {
                t
            } else {
                visit(v, registry::dep_name(v[p].depends[n]), t)
            }
        },
{
    let deps = v[p].depends;
    package_deps_from_index(v, p);
    assert(deps.take(n + 1).drop_last() =~= deps.take(n));
    assert(deps.take(n + 1).last() == deps[n]);
    assert(all_asked(v).contains(registry::dep_name(deps[n])));
    visit_all_extends(v, deps.take(n), s);
}

// ---------------------------------------------------------------------------
// Laws

/// The package that answers to `a` depends on `b`, which is a name.
pub open spec fn asks_for(v: Seq<PackageView>, a: Seq<char>, b: Seq<char>) -> bool {
    &&& b.len() > 0
    &&& answer(v, a) matches Some(i) && exists|d: int|
        0 <= d < v[i].depends.len() && registry::dep_name(#[trigger] v[i].depends[d]) == b
}

/// From `a` it takes `n` dependencies to get to `b`.
pub open spec fn leads_in(v: Seq<PackageView>, a: Seq<char>, b: Seq<char>, n: nat) -> bool
    decreases n,
{
    if n == 0 {
        a == b
    } else {
        exists|c: Seq<char>|
            leads_in(v, a, c, (n - 1) as nat) && #[trigger] asks_for(v, c, b)
    }
}

/// Some dependencies lead from `a` to `b`.
pub open spec fn leads_to(v: Seq<PackageView>, a: Seq<char>, b: Seq<char>) -> bool {
    exists|n: nat| leads_in(v, a, b, n)
}

/// The dependency `name` of the package at `i` leads back to that package.
pub open spec fn circular(v: Seq<PackageView>, name: Seq<char>, i: int) -> bool {
    exists|m: Seq<char>| #[trigger] answer(v, m) == Some(i) && leads_to(v, name, m)
}

/// The package that answers to each dependency of `chosen[k]` stands before it,
/// or the dependency leads back to `chosen[k]`.
spec fn deps_placed(v: Seq<PackageView>, chosen: Seq<int>, k: int) -> bool {
    forall|d: int|
        0 <= d < v[chosen[k]].depends.len() ==> dep_placed(
            v,
            chosen,
            k,
            registry::dep_name(#[trigger] v[chosen[k]].depends[d]),
        )
}

spec fn dep_placed(v: Seq<PackageView>, chosen: Seq<int>, k: int, name: Seq<char>) -> bool {
    name.len() > 0 ==> (answer(v, name) matches Some(i) ==> chosen.take(k).contains(i) || circular(
        v,
        name,
        chosen[k],
    ))
}

spec fn placed(v: Seq<PackageView>, chosen: Seq<int>) -> bool {
    forall|k: int| 0 <= k < chosen.len() ==> #[trigger] deps_placed(v, chosen, k)
}

/// Every name that was met, and that is not being worked on, has its package chosen.
spec fn settled(v: Seq<PackageView>, s: Progress, open: Set<Seq<char>>) -> bool {
    forall|n: Seq<char>|
        s.met.contains(n) && !open.contains(n) ==> (#[trigger] answer(v, n) matches Some(i)
            ==> s.chosen.contains(i))
}

/// Every name that is being worked on leads to `name`.
spec fn all_lead_to(v: Seq<PackageView>, open: Set<Seq<char>>, name: Seq<char>) -> bool {
    forall|n: Seq<char>| #[trigger] open.contains(n) ==> leads_to(v, n, name)
}

proof fn visit_settles(v: Seq<PackageView>, name: Seq<char>, s: Progress, open: Set<Seq<char>>)
    requires
        settled(v, s, open),
        open.subset_of(s.met),
    ensures
        settled(v, visit(v, name, s), open),
    decreases unmet(v, name, s.met), 0nat,
{
    if !s.met.contains(name) {
        meeting_shrinks(v, name, s.met);
        let s1 = Progress { met: s.met.insert(name), chosen: s.chosen };
        let r = visit(v, name, s);
        match answer(v, name) {
            None => {
                assert forall|n: Seq<char>| r.met.contains(n) && !open.contains(n) implies (
                #[trigger] answer(v, n) matches Some(i) ==> r.chosen.contains(i)) by {
                    if n != name {
                        assert(s.met.contains(n));
                    }
                }
            },
            Some(i) => {
                let open1 = open.insert(name);
                opening_settles(v, name, s, open);
                visit_all_settles(v, v[i].depends, s1, open1);
                let t = visit_all(v, v[i].depends, s1);
                assert forall|n: Seq<char>| r.met.contains(n) && !open.contains(n) implies (
                #[trigger] answer(v, n) matches Some(j) ==> r.chosen.contains(j)) by {
                    match answer(v, n) {
                        Some(j) => {
                            if n == name {
                                chosen_holds(t.chosen, i);
                            } else {
                                assert(!open1.contains(n));
                                assert(t.chosen.contains(j));
                                let k = choose|k: int| 0 <= k < t.chosen.len() && t.chosen[k] == j;
                                assert(r.chosen[k] == j);
                            }
                        },
                        None => {},
                    }
                }
            },
        }
    }
}

proof fn chosen_holds(chosen: Seq<int>, i: int)
    ensures
        choosing(chosen, i).contains(i),
{
    if !chosen.contains(i) {
        assert(chosen.push(i)[chosen.len() as int] == i);
    }
}

/// Beginning to work on a name that was not met leaves the others settled.
proof fn opening_settles(v: Seq<PackageView>, name: Seq<char>, s: Progress, open: Set<Seq<char>>)
    requires
        settled(v, s, open),
    ensures
        settled(
            v,
            Progress { met: s.met.insert(name), chosen: s.chosen },
            open.insert(name),
        ),
{
    let s1 = Progress { met: s.met.insert(name), chosen: s.chosen };
    let open1 = open.insert(name);
    assert forall|n: Seq<char>| s1.met.contains(n) && !open1.contains(n) implies (
    #[trigger] answer(v, n) matches Some(j) ==> s1.chosen.contains(j)) by {
        assert(s.met.contains(n) && !open.contains(n));
    }
}

proof fn visit_all_settles(
    v: Seq<PackageView>,
    deps: Seq<Seq<char>>,
    s: Progress,
    open: Set<Seq<char>>,
)
    requires
        settled(v, s, open),
        open.subset_of(s.met),
    ensures
        settled(v, visit_all(v, deps, s), open),
    decreases unmet_asked(v, s.met), deps.len() + 1,
{
    if deps.len() > 0 {
        visit_all_settles(v, deps.drop_last(), s, open);
        visit_all_extends(v, deps.drop_last(), s);
        let t = visit_all(v, deps.drop_last(), s);
        let name = registry::dep_name(deps.last());
        if name.len() > 0 && all_asked(v).contains(name) {
            meeting_more_shrinks(v, s.met, t.met);
            asked_is_unmet(v, name, t.met);
            visit_settles(v, name, t, open);
        }
    }
}

/// Every dependency with a name is met.
proof fn visit_all_meets(v: Seq<PackageView>, deps: Seq<Seq<char>>, s: Progress, d: int)
    requires
        from_index(v, deps),
        0 <= d < deps.len(),
        registry::dep_name(deps[d]).len() > 0,
    ensures
        visit_all(v, deps, s).met.contains(registry::dep_name(deps[d])),
    decreases deps.len(),
{
    let rest = deps.drop_last();
    let name = registry::dep_name(deps.last());
    let t = visit_all(v, rest, s);
    visit_all_extends(v, rest, s);
    assert(deps[deps.len() - 1] == deps.last());
    assert(all_asked(v).contains(name));
    visit_extends(v, name, t);
    if d < rest.len() {
        assert forall|i: int| 0 <= i < rest.len() implies all_asked(v).contains(
            registry::dep_name(#[trigger] rest[i]),
        ) by {
            assert(rest[i] == deps[i]);
        }
        assert(rest[d] == deps[d]);
        visit_all_meets(v, rest, s, d);
    }
}

proof fn placing_one_more(v: Seq<PackageView>, chosen: Seq<int>, i: int)
    requires
        placed(v, chosen),
        deps_placed(v, chosen.push(i), chosen.len() as int),
    ensures
        placed(v, chosen.push(i)),
{
    let c = chosen.push(i);
    assert forall|k: int| 0 <= k < c.len() implies #[trigger] deps_placed(v, c, k) by {
        if k < chosen.len() {
            assert(deps_placed(v, chosen, k));
            assert(c.take(k) =~= chosen.take(k));
            assert(c[k] == chosen[k]);
            assert forall|d: int| 0 <= d < v[c[k]].depends.len() implies dep_placed(
                v,
                c,
                k,
                registry::dep_name(#[trigger] v[c[k]].depends[d]),
            ) by {
                assert(dep_placed(v, chosen, k, registry::dep_name(v[chosen[k]].depends[d])));
            }
        }
    }
}

/// What leads to a name leads on to what the name asks for.
proof fn leading_on(v: Seq<PackageView>, a: Seq<char>, b: Seq<char>, c: Seq<char>)
    requires
        leads_to(v, a, b),
        asks_for(v, b, c),
    ensures
        leads_to(v, a, c),
{
    let n = choose|n: nat| leads_in(v, a, b, n);
    let m: nat = n + 1;
    assert((m - 1) as nat == n);
    assert(leads_in(v, a, c, m));
}

proof fn visit_is_placed(v: Seq<PackageView>, name: Seq<char>, s: Progress, open: Set<Seq<char>>)
    requires
        placed(v, s.chosen),
        settled(v, s, open),
        open.subset_of(s.met),
        all_lead_to(v, open, name),
    ensures
        placed(v, visit(v, name, s).chosen),
    decreases unmet(v, name, s.met), 0nat,
{
    if !s.met.contains(name) {
        meeting_shrinks(v, name, s.met);
        let s1 = Progress { met: s.met.insert(name), chosen: s.chosen };
        match answer(v, name) {
            None => {},
            Some(i) => {
                answer_in_range(v, name);
                let deps = v[i].depends;
                let open1 = open.insert(name);
                opening_settles(v, name, s, open);
                package_deps_from_index(v, i);
                assert(leads_in(v, name, name, 0));
                assert forall|d: int|
                    0 <= d < deps.len() && registry::dep_name(deps[d]).len() > 0 implies all_lead_to(
                    v,
                    open1,
                    registry::dep_name(#[trigger] deps[d]),
                ) by {
                    let dn = registry::dep_name(deps[d]);
                    assert(asks_for(v, name, dn));
                    assert forall|n: Seq<char>| #[trigger] open1.contains(n) implies leads_to(
                        v,
                        n,
                        dn,
                    ) by {
                        assert(leads_to(v, n, name));
                        leading_on(v, n, name, dn);
                    }
                }
                visit_all_is_placed(v, deps, s1, open1);
                visit_all_settles(v, deps, s1, open1);
                let t = visit_all(v, deps, s1);
                if !t.chosen.contains(i) {
                    let c = t.chosen.push(i);
                    let last = t.chosen.len() as int;
                    assert(c.take(last) =~= t.chosen);
                    assert(c[last] == i);
                    assert forall|d: int| 0 <= d < v[c[last]].depends.len() implies dep_placed(
                        v,
                        c,
                        last,
                        registry::dep_name(#[trigger] v[c[last]].depends[d]),
                    ) by {
                        let dn = registry::dep_name(deps[d]);
                        if dn.len() > 0 {
                            visit_all_meets(v, deps, s1, d);
                            if open1.contains(dn) {
                                assert(leads_to(v, dn, name));
                                assert(answer(v, name) == Some(i));
                                assert(circular(v, dn, i));
                            } else {
                                match answer(v, dn) {
                                    Some(j) => {
                                        assert(t.chosen.contains(j));
                                    },
                                    None => {},
                                }
                            }
                        }
                    }
                    assert(deps_placed(v, c, last));
                    placing_one_more(v, t.chosen, i);
                }
            },
        }
    }
}

proof fn visit_all_is_placed(
    v: Seq<PackageView>,
    deps: Seq<Seq<char>>,
    s: Progress,
    open: Set<Seq<char>>,
)
    requires
        placed(v, s.chosen),
        settled(v, s, open),
        open.subset_of(s.met),
        forall|d: int|
            0 <= d < deps.len() && registry::dep_name(deps[d]).len() > 0 ==> all_lead_to(
                v,
                open,
                registry::dep_name(#[trigger] deps[d]),
            ),
    ensures
        placed(v, visit_all(v, deps, s).chosen),
    decreases unmet_asked(v, s.met), deps.len() + 1,
{
    if deps.len() > 0 {
        let rest = deps.drop_last();
        assert forall|d: int|
            0 <= d < rest.len() && registry::dep_name(rest[d]).len() > 0 implies all_lead_to(
            v,
            open,
            registry::dep_name(#[trigger] rest[d]),
        ) by {
            assert(rest[d] == deps[d]);
        }
        visit_all_is_placed(v, rest, s, open);
        visit_all_settles(v, rest, s, open);
        visit_all_extends(v, rest, s);
        let t = visit_all(v, rest, s);
        let name = registry::dep_name(deps.last());
        assert(deps[deps.len() - 1] == deps.last());
        if name.len() > 0 && all_asked(v).contains(name) {
            meeting_more_shrinks(v, s.met, t.met);
            asked_is_unmet(v, name, t.met);
            visit_is_placed(v, name, t, open);
        }
    }
}

proof fn requests_are_placed(v: Seq<PackageView>, requests: Seq<Seq<char>>)
    ensures
        placed(v, visit_requests(v, requests).chosen),
        settled(v, visit_requests(v, requests), Set::empty()),
        forall|i: int|
            0 <= i < requests.len() ==> visit_requests(v, requests).met.contains(
                registry::dep_name(#[trigger] requests[i]),
            ),
    decreases requests.len(),
{
    if requests.len() > 0 {
        requests_are_placed(v, requests.drop_last());
        let s = visit_requests(v, requests.drop_last());
        let name = registry::dep_name(requests.last());
        visit_is_placed(v, name, s, Set::empty());
        visit_settles(v, name, s, Set::empty());
        visit_extends(v, name, s);
        assert forall|i: int| 0 <= i < requests.len() implies visit_requests(
            v,
            requests,
        ).met.contains(registry::dep_name(#[trigger] requests[i])) by {
            if i < requests.len() - 1 {
                assert(requests.drop_last()[i] == requests[i]);
                assert(s.met.contains(registry::dep_name(requests.drop_last()[i])));
            }
        }
    }
}

/// Every package comes after the packages that answer to its dependencies, save
/// those that depend on it in turn.
pub proof fn dependencies_come_first(
    v: Seq<PackageView>,
    requests: Seq<Seq<char>>,
    k: int,
    d: int,
)
    requires
        0 <= k < resolution(v, requests).len(),
        0 <= d < v[resolution(v, requests)[k]].depends.len(),
        registry::dep_name(v[resolution(v, requests)[k]].depends[d]).len() > 0,
        !circular(
            v,
            registry::dep_name(v[resolution(v, requests)[k]].depends[d]),
            resolution(v, requests)[k],
        ),
    ensures
        answer(v, registry::dep_name(v[resolution(v, requests)[k]].depends[d])) matches Some(i)
            ==> resolution(v, requests).take(k).contains(i),
{
    requests_are_placed(v, requests);
    let chosen = resolution(v, requests);
    assert(deps_placed(v, chosen, k));
    assert(dep_placed(v, chosen, k, registry::dep_name(v[chosen[k]].depends[d])));
}

/// The package that answers to a request is among those chosen, whatever depends
/// on what.
pub proof fn requests_are_answered(v: Seq<PackageView>, requests: Seq<Seq<char>>, i: int)
    requires
        0 <= i < requests.len(),
    ensures
        answer(v, registry::dep_name(requests[i])) matches Some(p) ==> resolution(
            v,
            requests,
        ).contains(p),
{
    requests_are_placed(v, requests);
}

/// Some request leads to `name`.
pub open spec fn wanted(v: Seq<PackageView>, requests: Seq<Seq<char>>, name: Seq<char>) -> bool {
    exists|r: int|
        0 <= r < requests.len() && leads_to(v, registry::dep_name(#[trigger] requests[r]), name)
}

/// Some request leads to a name that the package at `p` answers to.
pub open spec fn reached(v: Seq<PackageView>, requests: Seq<Seq<char>>, p: int) -> bool {
    exists|name: Seq<char>| #[trigger] answer(v, name) == Some(p) && wanted(v, requests, name)
}

/// Every dependency with a name, of every package chosen, was met.
spec fn deps_met(v: Seq<PackageView>, s: Progress) -> bool {
    forall|k: int, d: int|
        0 <= k < s.chosen.len() && 0 <= d < v[s.chosen[k]].depends.len() && registry::dep_name(
            v[s.chosen[k]].depends[d],
        ).len() > 0 ==> s.met.contains(registry::dep_name(#[trigger] v[s.chosen[k]].depends[d]))
}

/// Every name met is wanted, and every package chosen answers to a name met.
spec fn grounded(v: Seq<PackageView>, requests: Seq<Seq<char>>, s: Progress) -> bool {
    &&& forall|n: Seq<char>| #[trigger] s.met.contains(n) ==> wanted(v, requests, n)
    &&& forall|k: int|
        0 <= k < s.chosen.len() ==> exists|n: Seq<char>|
            s.met.contains(n) && answer(v, n) == Some(#[trigger] s.chosen[k])
}

proof fn visit_meets_deps(v: Seq<PackageView>, name: Seq<char>, s: Progress)
    requires
        deps_met(v, s),
    ensures
        deps_met(v, visit(v, name, s)),
    decreases unmet(v, name, s.met), 0nat,
{
    if !s.met.contains(name) {
        meeting_shrinks(v, name, s.met);
        let s1 = Progress { met: s.met.insert(name), chosen: s.chosen };
        assert(deps_met(v, s1));
        match answer(v, name) {
            None => {},
            Some(i) => {
                answer_in_range(v, name);
                package_deps_from_index(v, i);
                visit_all_meets_deps(v, v[i].depends, s1);
                let t = visit_all(v, v[i].depends, s1);
                let r = visit(v, name, s);
                assert forall|k: int, d: int|
                    0 <= k < r.chosen.len() && 0 <= d < v[r.chosen[k]].depends.len()
                        && registry::dep_name(v[r.chosen[k]].depends[d]).len()
                        > 0 implies r.met.contains(
                    registry::dep_name(#[trigger] v[r.chosen[k]].depends[d]),
                ) by {
                    if k < t.chosen.len() {
                        assert(r.chosen[k] == t.chosen[k]);
                        assert(t.met.contains(registry::dep_name(v[t.chosen[k]].depends[d])));
                    } else {
                        visit_all_meets(v, v[i].depends, s1, d);
                    }
                }
            },
        }
    }
}

proof fn visit_all_meets_deps(v: Seq<PackageView>, deps: Seq<Seq<char>>, s: Progress)
    requires
        deps_met(v, s),
    ensures
        deps_met(v, visit_all(v, deps, s)),
    decreases unmet_asked(v, s.met), deps.len() + 1,
{
    if deps.len() > 0 {
        visit_all_meets_deps(v, deps.drop_last(), s);
        visit_all_extends(v, deps.drop_last(), s);
        let t = visit_all(v, deps.drop_last(), s);
        let name = registry::dep_name(deps.last());
        if name.len() > 0 && all_asked(v).contains(name) {
            meeting_more_shrinks(v, s.met, t.met);
            asked_is_unmet(v, name, t.met);
            visit_meets_deps(v, name, t);
        }
    }
}

/// What a wanted name asks for is wanted.
proof fn wanting_on(
    v: Seq<PackageView>,
    requests: Seq<Seq<char>>,
    a: Seq<char>,
    b: Seq<char>,
)
    requires
        wanted(v, requests, a),
        asks_for(v, a, b),
    ensures
        wanted(v, requests, b),
{
    let r = choose|r: int|
        0 <= r < requests.len() && leads_to(v, registry::dep_name(#[trigger] requests[r]), a);
    leading_on(v, registry::dep_name(requests[r]), a, b);
}

proof fn visit_is_grounded(
    v: Seq<PackageView>,
    requests: Seq<Seq<char>>,
    name: Seq<char>,
    s: Progress,
)
    requires
        grounded(v, requests, s),
        wanted(v, requests, name),
    ensures
        grounded(v, requests, visit(v, name, s)),
    decreases unmet(v, name, s.met), 0nat,
{
    if !s.met.contains(name) {
        meeting_shrinks(v, name, s.met);
        let s1 = Progress { met: s.met.insert(name), chosen: s.chosen };
        assert forall|k: int| 0 <= k < s1.chosen.len() implies exists|n: Seq<char>|
            s1.met.contains(n) && answer(v, n) == Some(#[trigger] s1.chosen[k]) by {
            let n = choose|n: Seq<char>| s.met.contains(n) && answer(v, n) == Some(s.chosen[k]);
            assert(s1.met.contains(n));
        }
        match answer(v, name) {
            None => {},
            Some(i) => {
                let deps = v[i].depends;
                assert forall|d: int|
                    0 <= d < deps.len() && registry::dep_name(deps[d]).len() > 0 implies wanted(
                    v,
                    requests,
                    registry::dep_name(#[trigger] deps[d]),
                ) by {
                    assert(asks_for(v, name, registry::dep_name(deps[d])));
                    wanting_on(v, requests, name, registry::dep_name(deps[d]));
                }
                visit_all_is_grounded(v, requests, deps, s1);
                visit_all_extends(v, deps, s1);
                let t = visit_all(v, deps, s1);
                let r = visit(v, name, s);
                assert(r.met.contains(name));
                assert forall|k: int| 0 <= k < r.chosen.len() implies exists|n: Seq<char>|
                    r.met.contains(n) && answer(v, n) == Some(#[trigger] r.chosen[k]) by {
                    if k < t.chosen.len() {
                        assert(r.chosen[k] == t.chosen[k]);
                    }
                }
            },
        }
    }
}

proof fn visit_all_is_grounded(
    v: Seq<PackageView>,
    requests: Seq<Seq<char>>,
    deps: Seq<Seq<char>>,
    s: Progress,
)
    requires
        grounded(v, requests, s),
        forall|d: int|
            0 <= d < deps.len() && registry::dep_name(deps[d]).len() > 0 ==> wanted(
                v,
                requests,
                registry::dep_name(#[trigger] deps[d]),
            ),
    ensures
        grounded(v, requests, visit_all(v, deps, s)),
    decreases unmet_asked(v, s.met), deps.len() + 1,
{
    if deps.len() > 0 {
        let rest = deps.drop_last();
        assert forall|d: int|
            0 <= d < rest.len() && registry::dep_name(rest[d]).len() > 0 implies wanted(
            v,
            requests,
            registry::dep_name(#[trigger] rest[d]),
        ) by {
            assert(rest[d] == deps[d]);
        }
        visit_all_is_grounded(v, requests, rest, s);
        visit_all_extends(v, rest, s);
        let t = visit_all(v, rest, s);
        let name = registry::dep_name(deps.last());
        assert(deps[deps.len() - 1] == deps.last());
        if name.len() > 0 && all_asked(v).contains(name) {
            meeting_more_shrinks(v, s.met, t.met);
            asked_is_unmet(v, name, t.met);
            visit_is_grounded(v, requests, name, t);
        }
    }
}

proof fn requests_are_grounded(v: Seq<PackageView>, requests: Seq<Seq<char>>)
    ensures
        deps_met(v, visit_requests(v, requests)),
        grounded(v, requests, visit_requests(v, requests)),
    decreases requests.len(),
{
    if requests.len() > 0 {
        let rest = requests.drop_last();
        let last = requests.len() - 1;
        let s = visit_requests(v, rest);
        let name = registry::dep_name(requests.last());
        requests_are_grounded(v, rest);
        visit_meets_deps(v, name, s);
        assert forall|n: Seq<char>| #[trigger] s.met.contains(n) implies wanted(v, requests, n) by {
            let r = choose|r: int|
                0 <= r < rest.len() && leads_to(v, registry::dep_name(#[trigger] rest[r]), n);
            assert(rest[r] == requests[r]);
        }
        assert(leads_in(v, name, name, 0));
        assert(leads_to(v, registry::dep_name(requests[last]), name));
        visit_is_grounded(v, requests, name, s);
    }
}

/// What a request leads to in `n` steps was met.
proof fn led_to_is_met(
    v: Seq<PackageView>,
    requests: Seq<Seq<char>>,
    r: int,
    name: Seq<char>,
    n: nat,
)
    requires
        0 <= r < requests.len(),
        leads_in(v, registry::dep_name(requests[r]), name, n),
    ensures
        visit_requests(v, requests).met.contains(name),
    decreases n,
{
    let s = visit_requests(v, requests);
    requests_are_placed(v, requests);
    if n > 0 {
        let first = registry::dep_name(requests[r]);
        let c = choose|c: Seq<char>|
            leads_in(v, first, c, (n - 1) as nat) && #[trigger] asks_for(v, c, name);
        led_to_is_met(v, requests, r, c, (n - 1) as nat);
        requests_are_grounded(v, requests);
        let i = answer(v, c)->0;
        assert(s.chosen.contains(i));
        let k = choose|k: int| 0 <= k < s.chosen.len() && s.chosen[k] == i;
        let d = choose|d: int|
            0 <= d < v[i].depends.len() && registry::dep_name(#[trigger] v[i].depends[d]) == name;
        assert(s.met.contains(registry::dep_name(v[s.chosen[k]].depends[d])));
    }
}

/// The packages chosen are those that the requests lead to, and no others,
/// whatever depends on what.
pub proof fn resolution_is_what_is_reached(
    v: Seq<PackageView>,
    requests: Seq<Seq<char>>,
    p: int,
)
    ensures
        resolution(v, requests).contains(p) <==> reached(v, requests, p),
{
    let s = visit_requests(v, requests);
    requests_are_placed(v, requests);
    requests_are_grounded(v, requests);
    if s.chosen.contains(p) {
        let k = choose|k: int| 0 <= k < s.chosen.len() && s.chosen[k] == p;
        let name = choose|n: Seq<char>| s.met.contains(n) && answer(v, n) == Some(s.chosen[k]);
        assert(wanted(v, requests, name));
    }
    if reached(v, requests, p) {
        let name = choose|name: Seq<char>| #[trigger]
            answer(v, name) == Some(p) && wanted(v, requests, name);
        let r = choose|r: int|
            0 <= r < requests.len() && leads_to(
                v,
                registry::dep_name(#[trigger] requests[r]),
                name,
            );
        let n = choose|n: nat| leads_in(v, registry::dep_name(requests[r]), name, n);
        led_to_is_met(v, requests, r, name, n);
    }
}

/// The package that answers to a dependency of a package chosen is chosen too,
/// also where the two depend on each other.
pub proof fn dependencies_are_chosen(
    v: Seq<PackageView>,
    requests: Seq<Seq<char>>,
    k: int,
    d: int,
)
    requires
        0 <= k < resolution(v, requests).len(),
        0 <= d < v[resolution(v, requests)[k]].depends.len(),
        registry::dep_name(v[resolution(v, requests)[k]].depends[d]).len() > 0,
    ensures
        answer(v, registry::dep_name(v[resolution(v, requests)[k]].depends[d])) matches Some(i)
            ==> resolution(v, requests).contains(i),
{
    requests_are_placed(v, requests);
    requests_are_grounded(v, requests);
    let s = visit_requests(v, requests);
    assert(s.met.contains(registry::dep_name(v[s.chosen[k]].depends[d])));
}

proof fn visit_chooses_once(v: Seq<PackageView>, name: Seq<char>, s: Progress)
    requires
        s.chosen.no_duplicates(),
    ensures
        visit(v, name, s).chosen.no_duplicates(),
    decreases unmet(v, name, s.met), 0nat,
{
    if !s.met.contains(name) {
        meeting_shrinks(v, name, s.met);
        match answer(v, name) {
            None => {},
            Some(i) => {
                visit_all_chooses_once(
                    v,
                    v[i].depends,
                    Progress { met: s.met.insert(name), chosen: s.chosen },
                );
            },
        }
    }
}

proof fn visit_all_chooses_once(v: Seq<PackageView>, deps: Seq<Seq<char>>, s: Progress)
    requires
        s.chosen.no_duplicates(),
    ensures
        visit_all(v, deps, s).chosen.no_duplicates(),
    decreases unmet_asked(v, s.met), deps.len() + 1,
{
    if deps.len() > 0 {
        visit_all_chooses_once(v, deps.drop_last(), s);
        visit_all_extends(v, deps.drop_last(), s);
        let t = visit_all(v, deps.drop_last(), s);
        let name = registry::dep_name(deps.last());
        if name.len() > 0 && all_asked(v).contains(name) {
            meeting_more_shrinks(v, s.met, t.met);
            asked_is_unmet(v, name, t.met);
            visit_chooses_once(v, name, t);
        }
    }
}

/// No package is chosen twice, however often and under whatever names it is asked
/// for.
pub proof fn no_package_comes_twice(v: Seq<PackageView>, requests: Seq<Seq<char>>)
    ensures
        resolution(v, requests).no_duplicates(),
    decreases requests.len(),
{
    if requests.len() > 0 {
        no_package_comes_twice(v, requests.drop_last());
        visit_chooses_once(
            v,
            registry::dep_name(requests.last()),
            visit_requests(v, requests.drop_last()),
        );
    }
}

// ---------------------------------------------------------------------------

/// Where the chosen packages stand, as a sequence of integers.
spec fn places(chosen: Seq<usize>) -> Seq<int> {
    Seq::new(chosen.len(), |i: int| chosen[i] as int)
}

fn is_chosen(chosen: &Vec<usize>, i: usize) -> (r: bool)
    ensures
        r == places(chosen@).contains(i as int),
{
    for k in 0..chosen.len()
        invariant
            forall|j: int| 0 <= j < k ==> #[trigger] chosen@[j] != i,
    {
        if chosen[k] == i {
            proof {
                assert(places(chosen@)[k as int] == i as int);
            }
            return true;
        }
    }
    proof {
        if places(chosen@).contains(i as int) {
            let j = choose|j: int| 0 <= j < places(chosen@).len() && places(chosen@)[j] == i as int;
            assert(chosen@[j] == i);
        }
    }
    false
}

impl<'a> Resolver<'a> {
    pub fn new(index: &'a PackageIndex) -> (r: Self)
        ensures
            r.index == index,
    {
        Resolver { index }
    }

    /// The full install closure for the requested packages, each package once. Without
    /// circular dependencies, dependencies come before their dependents.
    pub fn resolve(&self, packages: &[String]) -> (r: Result<Vec<&'a PackageMetadata>>)
        ensures
            r matches Ok(list) && {
                let chosen = resolution(registry::package_views(self.index.packages@), text::views(packages@));
                &&& list@.len() == chosen.len()
                &&& forall|i: int|
                    0 <= i < chosen.len() ==> 0 <= #[trigger] chosen[i]
                        < self.index.packages@.len() && *list@[i]
                        == self.index.packages@[chosen[i]]
                &&& chosen.no_duplicates()
            },
    {
        let ghost v = registry::package_views(self.index.packages@);
        let mut met = StringHashSet::new();
        let mut chosen: Vec<usize> = Vec::new();
        let ghost w = text::views(packages@);
        proof {
            assert(places(chosen@) =~= Seq::<int>::empty());
        }
        for i in 0..packages.len()
            invariant
                v == registry::package_views(self.index.packages@),
                w == text::views(packages@),
                visit_requests(v, w.take(i as int)) == (Progress {
                    met: met@,
                    chosen: places(chosen@),
                }),
                forall|k: int| 0 <= k < chosen@.len() ==> #[trigger] chosen@[k] < v.len(),
        {
            proof {
                assert(w.take(i + 1).drop_last() =~= w.take(i as int));
                assert(w.take(i + 1).last() == packages@[i as int]@);
            }
            let name = parse_dep_name(packages[i].as_str());
            self.visit_name(name.as_str(), &mut met, &mut chosen);
        }
        proof {
            assert(w.take(w.len() as int) =~= w);
            no_package_comes_twice(v, w);
        }
        let mut list: Vec<&'a PackageMetadata> = Vec::new();
        for i in 0..chosen.len()
            invariant
                v == registry::package_views(self.index.packages@),
                forall|k: int| 0 <= k < chosen@.len() ==> #[trigger] chosen@[k] < v.len(),
                list@.len() == i,
                forall|k: int|
                    0 <= k < i ==> *(#[trigger] list@[k]) == self.index.packages@[chosen@[k] as int],
        {
            assert(chosen@[i as int] < v.len());
            list.push(&self.index.packages[chosen[i]]);
        }
        Ok(list)
    }

    fn visit_name(&self, name: &str, met: &mut StringHashSet, chosen: &mut Vec<usize>)
        requires
            forall|k: int|
                0 <= k < old(chosen)@.len() ==> #[trigger] old(chosen)@[k]
                    < self.index.packages@.len(),
        ensures
            (Progress { met: final(met)@, chosen: places(final(chosen)@) }) == visit(
                registry::package_views(self.index.packages@),
                name@,
                (Progress { met: old(met)@, chosen: places(old(chosen)@) }),
            ),
            forall|k: int|
                0 <= k < final(chosen)@.len() ==> #[trigger] final(chosen)@[k]
                    < self.index.packages@.len(),
        decreases unmet(registry::package_views(self.index.packages@), name@, old(met)@), 0nat,
    {
        let ghost v = registry::package_views(self.index.packages@);
        let ghost s = Progress { met: met@, chosen: places(chosen@) };
        proof {
            visit_unfolds(v, name@, s);
            if !s.met.contains(name@) {
                meeting_shrinks(v, name@, s.met);
            }
        }
        if !met.insert(String::from_str(name)) {
            proof {
                assert(met@ =~= s.met);
            }
            return;
        }
        match self.index.find_position(name) {
            None => {
                proof {
                    if exists|i: int| registry::found_at(v, name@, i) {
                        let i = choose|i: int| registry::found_at(v, name@, i);
                        assert(false);
                    }
                }
            },
            Some(i) => {
                proof {
                    answer_is(v, name@, i as int);
                }
                let deps = &self.index.packages[i].depends;
                let ghost d = v[i as int].depends;
                let ghost s1 = Progress { met: met@, chosen: places(chosen@) };
                proof {
                    if d.len() > 0 {
                        visit_all_unfolds(v, i as int, 0, s1);
                    } else {
                        assert(d.take(0) =~= Seq::<Seq<char>>::empty());
                    }
                }
                for k in 0..deps.len()
                    invariant
                        v == registry::package_views(self.index.packages@),
                        i < v.len(),
                        d == v[i as int].depends,
                        d == text::views(deps@),
                        s1.met == s.met.insert(name@),
                        !s.met.contains(name@),
                        s.met == old(met)@,
                        visit_all(v, d.take(k as int), s1) == (Progress {
                            met: met@,
                            chosen: places(chosen@),
                        }),
                        forall|k: int|
                            0 <= k < chosen@.len() ==> #[trigger] chosen@[k]
                                < self.index.packages@.len(),
                        unmet_asked(v, s1.met) < unmet(v, name@, s.met),
                {
                    let dep = parse_dep_name(deps[k].as_str());
                    proof {
                        assert(d[k as int] == deps@[k as int]@);
                        visit_all_unfolds(v, i as int, k as int, s1);
                        visit_all_extends(v, d.take(k as int), s1);
                        meeting_more_shrinks(v, s1.met, met@);
                        package_deps_from_index(v, i as int);
                        assert(all_asked(v).contains(registry::dep_name(d[k as int])));
                        asked_is_unmet(v, dep@, met@);
                    }
                    if !dep.as_str().is_empty() {
                        self.visit_name(dep.as_str(), met, chosen);
                    }
                }
                proof {
                    assert(d.take(d.len() as int) =~= d);
                }
                if !is_chosen(chosen, i) {
                    let ghost t = places(chosen@);
                    chosen.push(i);
                    proof {
                        assert(places(chosen@) =~= t.push(i as int));
                    }
                }
            },
        }
    }
}

}
