//! Showing what a formula depends on.
use crate::api::{find_first, Formula, FormulaView};
use crate::commands::info;
use crate::commands::info::find_going_by;
use crate::error::{Result, WaxError};
use crate::install::InstalledPackage;
use crate::table::Table;
use crate::text::copied;
use crate::{api, text};
use vstd::hash_set::StringHashSet;
use vstd::prelude::*;

verus! {

/// The names that are in a set.
pub open spec fn those_in(names: Seq<Seq<char>>, set: Set<Seq<char>>) -> Seq<Seq<char>>
    decreases names.len(),
{
    if names.len() == 0 {
        Seq::empty()
    } else if set.contains(names.last()) {
        those_in(names.drop_last(), set).push(names.last())
    } else {
        those_in(names.drop_last(), set)
    }
}

/// What a formula depends on.
pub open spec fn deps_of(f: FormulaView) -> Seq<Seq<char>> {
    match f.dependencies {
        Some(d) => d,
        None => Seq::empty(),
    }
}

/// What a formula depends on, or only what of that is installed.
pub fn deps(name: &str, formulae: &Vec<Formula>, installed: Option<&Table<InstalledPackage>>) -> (r:
    Result<Vec<String>>)
    ensures
        match info::first_going_by(api::formula_views(formulae@), name@) {
            None => r matches Err(WaxError::FormulaNotFound(m)) && m@ == name@,
            Some(i) => r matches Ok(v) && text::views(v@) == match installed {
                None => deps_of(formulae@[i]@),
                Some(t) => those_in(deps_of(formulae@[i]@), t@.dom()),
            },
        },
{
    let i: usize = match find_going_by(formulae, name) {
        Some(i) => i,
        None => {
            return Err(WaxError::FormulaNotFound(String::from_str(name)));
        },
    };
    let all = deps_list(&formulae[i]);
    match installed {
        None => Ok(all),
        Some(t) => {
            let ghost n = text::views(all@);
            let mut out: Vec<String> = Vec::new();
            proof {
                assert(text::views(out@) =~= those_in(n.take(0), t@.dom()));
            }
            for k in 0..all.len()
                invariant
                    n == text::views(all@),
                    text::views(out@) == those_in(n.take(k as int), t@.dom()),
            {
                let ghost before = text::views(out@);
                proof {
                    assert(n.take(k + 1).drop_last() =~= n.take(k as int));
                    assert(n.take(k + 1).last() == all@[k as int]@);
                }
                if t.contains_key(all[k].as_str()) {
                    out.push(all[k].clone());
                    proof {
                        assert(text::views(out@) =~= before.push(all@[k as int]@));
                    }
                }
            }
            proof {
                assert(n.take(n.len() as int) =~= n);
            }
            Ok(out)
        },
    }
}

fn deps_list(f: &Formula) -> (r: Vec<String>)
    ensures
        text::views(r@) == deps_of(f@),
{
    match &f.dependencies {
        Some(d) => copied(d),
        None => {
            let v: Vec<String> = Vec::new();
            proof {
                assert(text::views(v@) =~= Seq::empty());
            }
            v
        },
    }
}

// ---------------------------------------------------------------------------
// The tree

/// How many formulae have a name that was not shown yet.
pub open spec fn unshown(f: Seq<FormulaView>, shown: Set<Seq<char>>) -> nat
    decreases f.len(),
{
    if f.len() == 0 {
        0
    } else {
        unshown(f.drop_last(), shown) + if shown.contains(f.last().name) {
            0nat
        } else {
            1nat
        }
    }
}

/// The more is shown, the less is left.
pub proof fn showing_shrinks(f: Seq<FormulaView>, shown: Set<Seq<char>>, more: Set<Seq<char>>)
    requires
        shown.subset_of(more),
    ensures
        unshown(f, more) <= unshown(f, shown),
    decreases f.len(),
{
    if f.len() > 0 {
        showing_shrinks(f.drop_last(), shown, more);
    }
}

/// Showing the name of a formula for the first time leaves less.
pub proof fn first_showing_shrinks(f: Seq<FormulaView>, shown: Set<Seq<char>>, name: Seq<char>)
    requires
        !shown.contains(name),
        api::first_named(f, name) is Some,
    ensures
        unshown(f, shown.insert(name)) < unshown(f, shown),
    decreases f.len(),
{
    if f.len() > 0 {
        showing_shrinks(f.drop_last(), shown, shown.insert(name));
        if f.last().name != name {
            named_before_last(f, name);
            first_showing_shrinks(f.drop_last(), shown, name);
        }
    }
}

proof fn named_before_last(f: Seq<FormulaView>, name: Seq<char>)
    requires
        f.len() > 0,
        f.last().name != name,
        api::first_named(f, name) is Some,
    ensures
        api::first_named(f.drop_last(), name) is Some,
    decreases f.len(),
{
    if f.len() == 1 {
        assert(f.skip(1).len() == 0);
    } else if f[0].name != name {
        assert(f.skip(1).last() == f.last());
        named_before_last(f.skip(1), name);
        assert(f.drop_last().skip(1) =~= f.skip(1).drop_last());
    }
}

/// The names shown so far, and the lines.
pub struct Tree {
    pub shown: Set<Seq<char>>,
    pub lines: Seq<Seq<char>>,
}

/// What stands before a name: an angle before the last of its siblings, a branch
/// before the others.
pub open spec fn connector(last: bool) -> Seq<char> {
    if last {
        "└─ "@
    } else {
        "├─ "@
    }
}

/// What stands before the names below.
pub open spec fn extension(last: bool) -> Seq<char> {
    if last {
        "   "@
    } else {
        "│  "@
    }
}

/// The names from the `k`th on, each with what it depends on below it. What a name
/// depends on is shown only where the name is shown first.
pub open spec fn tree_from(
    f: Seq<FormulaView>,
    names: Seq<Seq<char>>,
    k: int,
    prefix: Seq<char>,
    s: Tree,
) -> Tree
    decreases unshown(f, s.shown), names.len() - k,
{
    if k < 0 || k >= names.len() {
        s
    } else {
        let name = names[k];
        let last = k == names.len() - 1;
        let head = prefix + connector(last) + name;
        if s.shown.contains(name) {
            tree_from(
                f,
                names,
                k + 1,
                prefix,
                Tree { shown: s.shown, lines: s.lines.push(head + " (already shown)"@) },
            )
        } else {
            let t = Tree { shown: s.shown.insert(name), lines: s.lines.push(head) };
            proof {
                showing_shrinks(f, s.shown, t.shown);
            }
            match api::first_named(f, name) {
                None => tree_from(f, names, k + 1, prefix, t),
                Some(formula) => {
                    proof {
                        first_showing_shrinks(f, s.shown, name);
                    }
                    let u = tree_from(f, deps_of(formula), 0, prefix + extension(last), t);
                    if s.shown.subset_of(u.shown) {
                        proof {
                            showing_shrinks(f, s.shown, u.shown);
                        }
                        tree_from(f, names, k + 1, prefix, u)
                    } else {
                        u
                    }
                },
            }
        }
    }
}

/// What was shown stays shown.
proof fn tree_extends(
    f: Seq<FormulaView>,
    names: Seq<Seq<char>>,
    k: int,
    prefix: Seq<char>,
    s: Tree,
)
    ensures
        s.shown.subset_of(tree_from(f, names, k, prefix, s).shown),
        s.lines.len() <= tree_from(f, names, k, prefix, s).lines.len(),
    decreases unshown(f, s.shown), names.len() - k,
{
    if 0 <= k < names.len() {
        let name = names[k];
        let last = k == names.len() - 1;
        let head = prefix + connector(last) + name;
        if s.shown.contains(name) {
            tree_extends(
                f,
                names,
                k + 1,
                prefix,
                Tree { shown: s.shown, lines: s.lines.push(head + " (already shown)"@) },
            );
        } else {
            let t = Tree { shown: s.shown.insert(name), lines: s.lines.push(head) };
            showing_shrinks(f, s.shown, t.shown);
            match api::first_named(f, name) {
                None => tree_extends(f, names, k + 1, prefix, t),
                Some(formula) => {
                    first_showing_shrinks(f, s.shown, name);
                    tree_extends(f, deps_of(formula), 0, prefix + extension(last), t);
                    let u = tree_from(f, deps_of(formula), 0, prefix + extension(last), t);
                    showing_shrinks(f, s.shown, u.shown);
                    tree_extends(f, names, k + 1, prefix, u);
                },
            }
        }
    }
}

/// Every name of a list is shown in its tree.
pub proof fn tree_shows_names(
    f: Seq<FormulaView>,
    names: Seq<Seq<char>>,
    k: int,
    prefix: Seq<char>,
    s: Tree,
    i: int,
)
    requires
        0 <= k <= i < names.len(),
    ensures
        tree_from(f, names, k, prefix, s).shown.contains(names[i]),
    decreases unshown(f, s.shown), names.len() - k,
{
    let name = names[k];
    let last = k == names.len() - 1;
    let head = prefix + connector(last) + name;
    if s.shown.contains(name) {
        let t = Tree { shown: s.shown, lines: s.lines.push(head + " (already shown)"@) };
        if i == k {
            tree_extends(f, names, k + 1, prefix, t);
        } else {
            tree_shows_names(f, names, k + 1, prefix, t, i);
        }
    } else {
        let t = Tree { shown: s.shown.insert(name), lines: s.lines.push(head) };
        showing_shrinks(f, s.shown, t.shown);
        match api::first_named(f, name) {
            None => {
                if i == k {
                    tree_extends(f, names, k + 1, prefix, t);
                } else {
                    tree_shows_names(f, names, k + 1, prefix, t, i);
                }
            },
            Some(formula) => {
                first_showing_shrinks(f, s.shown, name);
                tree_extends(f, deps_of(formula), 0, prefix + extension(last), t);
                let u = tree_from(f, deps_of(formula), 0, prefix + extension(last), t);
                showing_shrinks(f, s.shown, u.shown);
                if i == k {
                    tree_extends(f, names, k + 1, prefix, u);
                } else {
                    tree_shows_names(f, names, k + 1, prefix, u, i);
                }
            },
        }
    }
}

fn tree_lines(
    names: &Vec<String>,
    formulae: &Vec<Formula>,
    prefix: &str,
    shown: &mut StringHashSet,
    lines: &mut Vec<String>,
)
    requires
        api::formulae_wf(formulae@),
    ensures
        (Tree { shown: final(shown)@, lines: text::views(final(lines)@) }) == tree_from(
            api::formula_views(formulae@),
            text::views(names@),
            0,
            prefix@,
            (Tree { shown: old(shown)@, lines: text::views(old(lines)@) }),
        ),
    decreases unshown(api::formula_views(formulae@), old(shown)@),
{
    let ghost f = api::formula_views(formulae@);
    let ghost n = text::views(names@);
    let ghost start = Tree { shown: shown@, lines: text::views(lines@) };
    let total: usize = names.len();
    for k in 0..total
        invariant
            api::formulae_wf(formulae@),
            f == api::formula_views(formulae@),
            n == text::views(names@),
            total == names@.len(),
            start.shown == old(shown)@,
            start.shown.subset_of(shown@),
            tree_from(f, n, 0, prefix@, start) == tree_from(
                f,
                n,
                k as int,
                prefix@,
                (Tree { shown: shown@, lines: text::views(lines@) }),
            ),
    {
        let ghost s = Tree { shown: shown@, lines: text::views(lines@) };
        let name = &names[k];
        let last = k == total - 1;
        let mut head = String::from_str(prefix);
        if last {
            head.append("└─ ");
        } else {
            head.append("├─ ");
        }
        head.append(name.as_str());
        proof {
            assert(n[k as int] == name@);
            assert(head@ =~= prefix@ + connector(last) + name@);
        }
        if shown.contains(name.as_str()) {
            head.append(" (already shown)");
            let ghost line = head@;
            lines.push(head);
            proof {
                assert(text::views(lines@) =~= s.lines.push(line));
            }
        } else {
            let ghost line = head@;
            lines.push(head);
            shown.insert(name.clone());
            let ghost t = Tree { shown: s.shown.insert(name@), lines: s.lines.push(line) };
            proof {
                assert(text::views(lines@) =~= t.lines);
                assert(shown@ =~= t.shown);
            }
            match find_first(formulae, name.as_str()) {
                None => {},
                Some(formula) => {
                    let below = deps_list(formula);
                    let mut deeper = String::from_str(prefix);
                    if last {
                        deeper.append("   ");
                    } else {
                        deeper.append("│  ");
                    }
                    proof {
                        first_showing_shrinks(f, s.shown, name@);
                        showing_shrinks(f, start.shown, s.shown);
                        tree_extends(f, deps_of(formula@), 0, deeper@, t);
                    }
                    tree_lines(&below, formulae, deeper.as_str(), shown, lines);
                },
            }
        }
    }
}

/// The lines of the tree of what names depend on.
pub fn print_dep_tree(names: &Vec<String>, formulae: &Vec<Formula>) -> (r: Vec<String>)
    requires
        api::formulae_wf(formulae@),
    ensures
        text::views(r@) == tree_from(
            api::formula_views(formulae@),
            text::views(names@),
            0,
            ""@,
            (Tree { shown: Set::empty(), lines: Seq::empty() }),
        ).lines,
{
    let mut shown = StringHashSet::new();
    let mut lines: Vec<String> = Vec::new();
    proof {
        assert(text::views(lines@) =~= Seq::empty());
        assert(shown@ =~= Set::empty());
    }
    tree_lines(names, formulae, "", &mut shown, &mut lines);
    lines
}

/// Of some names those in a set stay, in their order.
pub proof fn those_in_a_set_stay(names: Seq<Seq<char>>, name: Seq<char>, set: Set<Seq<char>>)
    ensures
        set.contains(name) ==> those_in(names.push(name), set) == those_in(names, set).push(name),
        !set.contains(name) ==> those_in(names.push(name), set) == those_in(names, set),
        those_in(Seq::empty(), set).len() == 0,
{
    assert(names.push(name).drop_last() =~= names);
}

/// The dependencies of a formula are those that it lists.
pub proof fn dependencies_are_listed(f: FormulaView, d: Seq<Seq<char>>)
    ensures
        f.dependencies == Some(d) ==> deps_of(f) == d,
        f.dependencies is None ==> deps_of(f).len() == 0,
{
}

/// A last name stands behind an end, any other behind a branch; one that was shown is told
/// to be, and what it depends on is not shown again.
pub proof fn shown_names_are_told(
    f: Seq<FormulaView>,
    names: Seq<Seq<char>>,
    k: int,
    prefix: Seq<char>,
    s: Tree,
)
    requires
        0 <= k < names.len(),
        s.shown.contains(names[k]),
    ensures
        k == names.len() - 1 ==> tree_from(f, names, k, prefix, s) == (Tree {
            shown: s.shown,
            lines: s.lines.push(prefix + "└─ "@ + names[k] + " (already shown)"@),
        }),
        k < names.len() - 1 ==> tree_from(f, names, k, prefix, s) == tree_from(
            f,
            names,
            k + 1,
            prefix,
            (Tree {
                shown: s.shown,
                lines: s.lines.push(prefix + "├─ "@ + names[k] + " (already shown)"@),
            }),
        ),
{
    let n = names.len() as int;
    let t = Tree {
        shown: s.shown,
        lines: s.lines.push(prefix + "└─ "@ + names[k] + " (already shown)"@),
    };
    assert(tree_from(f, names, n, prefix, t) == t);
}

/// A name that was not shown is, and where it is no formula nothing is shown below it.
pub proof fn unknown_names_are_leaves(
    f: Seq<FormulaView>,
    names: Seq<Seq<char>>,
    k: int,
    prefix: Seq<char>,
    s: Tree,
)
    requires
        0 <= k < names.len(),
        !s.shown.contains(names[k]),
        api::first_named(f, names[k]) is None,
    ensures
        k == names.len() - 1 ==> tree_from(f, names, k, prefix, s) == (Tree {
            shown: s.shown.insert(names[k]),
            lines: s.lines.push(prefix + "└─ "@ + names[k]),
        }),
        k < names.len() - 1 ==> tree_from(f, names, k, prefix, s) == tree_from(
            f,
            names,
            k + 1,
            prefix,
            (Tree {
                shown: s.shown.insert(names[k]),
                lines: s.lines.push(prefix + "├─ "@ + names[k]),
            }),
        ),
{
    let n = names.len() as int;
    let t = Tree {
        shown: s.shown.insert(names[k]),
        lines: s.lines.push(prefix + "└─ "@ + names[k]),
    };
    assert(tree_from(f, names, n, prefix, t) == t);
}

/// What a formula depends on is shown below it, moved in: behind a bar where more names
/// follow, and behind nothing where none does.
pub proof fn dependencies_are_shown_below(
    f: Seq<FormulaView>,
    names: Seq<Seq<char>>,
    k: int,
    prefix: Seq<char>,
    s: Tree,
    x: FormulaView,
)
    requires
        0 <= k < names.len(),
        !s.shown.contains(names[k]),
        api::first_named(f, names[k]) == Some(x),
    ensures
        k == names.len() - 1 ==> tree_from(f, names, k, prefix, s) == tree_from(
            f,
            deps_of(x),
            0,
            prefix + "   "@,
            (Tree {
                shown: s.shown.insert(names[k]),
                lines: s.lines.push(prefix + "└─ "@ + names[k]),
            }),
        ),
        k < names.len() - 1 ==> tree_from(f, names, k, prefix, s) == tree_from(
            f,
            names,
            k + 1,
            prefix,
            tree_from(
                f,
                deps_of(x),
                0,
                prefix + "│  "@,
                (Tree {
                    shown: s.shown.insert(names[k]),
                    lines: s.lines.push(prefix + "├─ "@ + names[k]),
                }),
            ),
        ),
{
    let last = k == names.len() - 1;
    let t = Tree {
        shown: s.shown.insert(names[k]),
        lines: s.lines.push(prefix + connector(last) + names[k]),
    };
    tree_extends(f, deps_of(x), 0, prefix + extension(last), t);
    let u = tree_from(f, deps_of(x), 0, prefix + extension(last), t);
    assert(s.shown.subset_of(u.shown));
    let n = names.len() as int;
    assert(tree_from(f, names, n, prefix, u) == u);
}

}
