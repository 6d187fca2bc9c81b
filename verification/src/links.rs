//! The links of a package: which entries of its directories are linked into the
//! prefix, and which links are taken away again.
use crate::install;
use crate::install::{link_dirs, link_entry, opt_link, unlink_entry, LinkStep, UnlinkStep};
use crate::paths::{below, path_in};
use crate::ui::dirs;
use crate::ui::Standing;
use crate::{paths, text};
use vstd::prelude::*;

verus! {

/// An entry of a package's directory, with what stands at its place in the prefix.
#[derive(Debug)]
pub struct LinkNode {
    pub name: String,
    /// The entry itself is a directory.
    pub is_dir: bool,
    /// The entry is a directory or a link to one.
    pub leads_to_dir: bool,
    /// What stands at the entry's place in the prefix.
    pub place: Standing,
    /// Where the link at the entry's place leads, if it is one that can be read.
    pub place_leads_to: Option<String>,
    pub children: Vec<LinkNode>,
}

/// A link that is made.
#[derive(Debug)]
pub struct PlannedLink {
    pub source: String,
    pub target: String,
    pub remove: bool,
    pub create: bool,
}

pub struct PlannedView {
    pub source: Seq<char>,
    pub target: Seq<char>,
    pub remove: bool,
    pub create: bool,
}

impl View for PlannedLink {
    type V = PlannedView;

    open spec fn view(&self) -> PlannedView {
        PlannedView {
            source: self.source@,
            target: self.target@,
            remove: self.remove,
            create: self.create,
        }
    }
}

/// A `PlannedLink` is seen as what it holds.
pub proof fn planned_link_is_seen_as_it_is(x: PlannedLink)
    ensures
        x@.source == x.source@,
        x@.target == x.target@,
        x@.remove == x.remove,
        x@.create == x.create,
{
}

pub open spec fn planned_views(v: Seq<PlannedLink>) -> Seq<PlannedView> {
    v.map_values(|p: PlannedLink| p@)
}

/// The links that are made for the entries of a directory, those of directories
/// that exist on both sides included.
pub open spec fn planned(
    nodes: Seq<LinkNode>,
    source_dir: Seq<char>,
    target_dir: Seq<char>,
    dry_run: bool,
) -> Seq<PlannedView>
    decreases nodes,
{
    if nodes.len() == 0 {
        Seq::empty()
    } else {
        let n = nodes.last();
        let source = paths::path_join(source_dir, n.name@);
        let target = paths::path_join(target_dir, n.name@);
        planned(nodes.drop_last(), source_dir, target_dir, dry_run) + match install::link_step(
            n.is_dir,
            n.place,
            dry_run,
        ) {
            LinkStep::Descend => planned(n.children@, source, target, dry_run),
            LinkStep::Skip => Seq::empty(),
            LinkStep::Link { remove, create } => seq![
                PlannedView { source, target, remove, create },
            ],
        }
    }
}

/// The links that are made for the entries of a directory.
pub fn link_directory_recursive(
    nodes: &Vec<LinkNode>,
    source_dir: &str,
    target_dir: &str,
    dry_run: bool,
) -> (r: Vec<PlannedLink>)
    ensures
        planned_views(r@) == planned(nodes@, source_dir@, target_dir@, dry_run),
    decreases nodes,
{
    let ghost s = nodes@;
    let mut out: Vec<PlannedLink> = Vec::new();
    proof {
        assert(planned_views(out@) =~= planned(s.take(0), source_dir@, target_dir@, dry_run));
    }
    for i in 0..nodes.len()
        invariant
            s == nodes@,
            planned_views(out@) == planned(s.take(i as int), source_dir@, target_dir@, dry_run),
    {
        let ghost before = planned_views(out@);
        proof {
            assert(s.take(i + 1).drop_last() =~= s.take(i as int));
            assert(s.take(i + 1).last() == s[i as int]);
        }
        let n = &nodes[i];
        let source = below(source_dir, n.name.as_str());
        let target = below(target_dir, n.name.as_str());
        match link_entry(n.is_dir, n.place, dry_run) {
            LinkStep::Descend => {
                let mut inner = link_directory_recursive(
                    &n.children,
                    source.as_str(),
                    target.as_str(),
                    dry_run,
                );
                let ghost more = planned_views(inner@);
                out.append(&mut inner);
                proof {
                    assert(planned_views(out@) =~= before + more);
                }
            },
            LinkStep::Skip => {
                proof {
                    assert(before + Seq::<PlannedView>::empty() =~= before);
                }
            },
            LinkStep::Link { remove, create } => {
                let p = PlannedLink { source, target, remove, create };
                let ghost x = p@;
                out.push(p);
                proof {
                    assert(planned_views(out@) =~= before + seq![x]);
                }
            },
        }
    }
    proof {
        assert(s.take(s.len() as int) =~= s);
    }
    out
}

/// Where the link at an entry's place leads.
pub open spec fn leads_to(n: LinkNode) -> Option<Seq<char>> {
    text::opt_view(n.place_leads_to)
}

/// The links of a directory's entries that lead into the package, those in
/// directories that exist on both sides included.
pub open spec fn unlinked(
    nodes: Seq<LinkNode>,
    target_dir: Seq<char>,
    formula_path: Seq<char>,
    dry_run: bool,
) -> Seq<Seq<char>>
    decreases nodes,
{
    if nodes.len() == 0 {
        Seq::empty()
    } else {
        let n = nodes.last();
        let target = paths::path_join(target_dir, n.name@);
        unlinked(nodes.drop_last(), target_dir, formula_path, dry_run)
            + match install::unlink_step(n.leads_to_dir, n.place, leads_to(n), formula_path, dry_run) {
            UnlinkStep::Descend => unlinked(n.children@, target, formula_path, dry_run),
            UnlinkStep::Skip => Seq::empty(),
            UnlinkStep::Unlink { .. } => seq![target],
        }
    }
}

/// The links that are taken away for the entries of a directory.
pub fn unlink_directory_recursive(
    nodes: &Vec<LinkNode>,
    target_dir: &str,
    formula_path: &str,
    dry_run: bool,
) -> (r: Vec<String>)
    ensures
        text::views(r@) == unlinked(nodes@, target_dir@, formula_path@, dry_run),
    decreases nodes,
{
    let ghost s = nodes@;
    let mut out: Vec<String> = Vec::new();
    proof {
        assert(text::views(out@) =~= unlinked(s.take(0), target_dir@, formula_path@, dry_run));
    }
    for i in 0..nodes.len()
        invariant
            s == nodes@,
            text::views(out@) == unlinked(s.take(i as int), target_dir@, formula_path@, dry_run),
    {
        let ghost before = text::views(out@);
        proof {
            assert(s.take(i + 1).drop_last() =~= s.take(i as int));
            assert(s.take(i + 1).last() == s[i as int]);
        }
        let n = &nodes[i];
        let target = below(target_dir, n.name.as_str());
        let at = match &n.place_leads_to {
            Some(t) => Some(t.as_str()),
            None => None,
        };
        match unlink_entry(n.leads_to_dir, n.place, at, formula_path, dry_run) {
            UnlinkStep::Descend => {
                let mut inner = unlink_directory_recursive(
                    &n.children,
                    target.as_str(),
                    formula_path,
                    dry_run,
                );
                let ghost more = text::views(inner@);
                out.append(&mut inner);
                proof {
                    assert(text::views(out@) =~= before + more);
                }
            },
            UnlinkStep::Skip => {
                proof {
                    assert(before + Seq::<Seq<char>>::empty() =~= before);
                }
            },
            UnlinkStep::Unlink { .. } => {
                let ghost x = target@;
                out.push(target);
                proof {
                    assert(text::views(out@) =~= before + seq![x]);
                }
            },
        }
    }
    proof {
        assert(s.take(s.len() as int) =~= s);
    }
    out
}

/// The paths that count as linked.
pub open spec fn targets(p: Seq<PlannedView>) -> Seq<Seq<char>> {
    p.map_values(|x: PlannedView| x.target)
}

/// `after` is what `before` looks like once its links are made: each entry that is
/// linked has a link to itself at its place, and nothing else has changed.
pub open spec fn linked_tree(before: Seq<LinkNode>, after: Seq<LinkNode>, source_dir: Seq<char>) -> bool
    decreases before,
{
    &&& before.len() == after.len()
    &&& before.len() > 0 ==> {
        let b = before.last();
        let a = after.last();
        let source = paths::path_join(source_dir, b.name@);
        &&& linked_tree(before.drop_last(), after.drop_last(), source_dir)
        &&& a.name@ == b.name@
        &&& a.leads_to_dir == b.leads_to_dir
        &&& if b.is_dir && b.place == Standing::Dir {
            a.place == Standing::Dir && linked_tree(b.children@, a.children@, source)
        } else {
            a.place == Standing::Symlink && leads_to(a) == Some(source)
        }
    }
}

/// The entries are named as entries of a directory are, and a directory leads to
/// one.
pub open spec fn sound_tree(nodes: Seq<LinkNode>) -> bool
    decreases nodes,
{
    nodes.len() > 0 ==> {
        let n = nodes.last();
        &&& sound_tree(nodes.drop_last())
        &&& !paths::is_absolute(n.name@)
        &&& n.is_dir ==> n.leads_to_dir
        &&& sound_tree(n.children@)
    }
}

/// Unlinking undoes linking: once the links of a package are made, exactly those
/// that were made are taken away.
pub proof fn unlinking_undoes_linking(
    before: Seq<LinkNode>,
    after: Seq<LinkNode>,
    source_dir: Seq<char>,
    target_dir: Seq<char>,
    formula_path: Seq<char>,
)
    requires
        sound_tree(before),
        linked_tree(before, after, source_dir),
        paths::lies_in(source_dir, formula_path),
    ensures
        unlinked(after, target_dir, formula_path, false) == targets(
            planned(before, source_dir, target_dir, false),
        ),
    decreases before,
{
    if before.len() > 0 {
        let b = before.last();
        let a = after.last();
        let source = paths::path_join(source_dir, b.name@);
        let target = paths::path_join(target_dir, b.name@);
        unlinking_undoes_linking(
            before.drop_last(),
            after.drop_last(),
            source_dir,
            target_dir,
            formula_path,
        );
        paths::below_lies_in(source_dir, b.name@);
        paths::lying_in_is_transitive(source, source_dir, formula_path);
        let p = planned(before.drop_last(), source_dir, target_dir, false);
        if b.is_dir && b.place == Standing::Dir {
            unlinking_undoes_linking(b.children@, a.children@, source, target, formula_path);
            let q = planned(b.children@, source, target, false);
            assert(targets(p + q) =~= targets(p) + targets(q));
        } else {
            let x = PlannedView {
                source,
                target,
                remove: b.place != Standing::Nothing,
                create: true,
            };
            assert(targets(p + seq![x]) =~= targets(p) + seq![target]);
        }
    } else {
        assert(targets(planned(before, source_dir, target_dir, false)) =~= Seq::empty());
    }
}

// ---------------------------------------------------------------------------
// Whole packages

/// The entries of the directories of a package, for each one that is there.
pub open spec fn tree_views(trees: Seq<Option<Vec<LinkNode>>>) -> Seq<Option<Seq<LinkNode>>> {
    trees.map_values(
        |t: Option<Vec<LinkNode>>|
            match t {
                Some(v) => Some(v@),
                None => None,
            },
    )
}

/// The links of the first directories of a package.
pub open spec fn dirs_planned(
    trees: Seq<Option<Seq<LinkNode>>>,
    formula_path: Seq<char>,
    prefix: Seq<char>,
    dry_run: bool,
) -> Seq<PlannedView>
    decreases trees.len(),
{
    if trees.len() == 0 {
        Seq::empty()
    } else {
        let dir = install::linked_dirs()[trees.len() - 1];
        dirs_planned(trees.drop_last(), formula_path, prefix, dry_run) + match trees.last() {
            Some(nodes) => planned(
                nodes,
                paths::path_join(formula_path, dir),
                paths::path_join(prefix, dir),
                dry_run,
            ),
            None => Seq::empty(),
        }
    }
}

/// The link to the current version of a package.
pub open spec fn current_link(prefix: Seq<char>, name: Seq<char>) -> Seq<char> {
    paths::path_join(paths::path_join(prefix, "opt"@), name)
}

/// All links of a package: those of its directories and, but for a trial run, the
/// one to its current version.
pub open spec fn package_planned(
    trees: Seq<Option<Seq<LinkNode>>>,
    formula_path: Seq<char>,
    prefix: Seq<char>,
    name: Seq<char>,
    opt_at: Standing,
    dry_run: bool,
) -> Seq<PlannedView> {
    dirs_planned(trees, formula_path, prefix, dry_run) + if dry_run {
        Seq::empty()
    } else {
        seq![
            PlannedView {
                source: formula_path,
                target: current_link(prefix, name),
                remove: opt_at != Standing::Nothing,
                create: true,
            },
        ]
    }
}

/// The links of a package.
pub fn create_symlinks(
    trees: &Vec<Option<Vec<LinkNode>>>,
    formula_path: &str,
    prefix: &str,
    name: &str,
    opt_at: Standing,
    dry_run: bool,
) -> (r: Vec<PlannedLink>)
    requires
        trees@.len() == install::linked_dirs().len(),
    ensures
        planned_views(r@) == package_planned(
            tree_views(trees@),
            formula_path@,
            prefix@,
            name@,
            opt_at,
            dry_run,
        ),
{
    let places = link_dirs(formula_path, prefix);
    let ghost t = tree_views(trees@);
    let mut out: Vec<PlannedLink> = Vec::new();
    proof {
        assert(planned_views(out@) =~= dirs_planned(t.take(0), formula_path@, prefix@, dry_run));
    }
    for i in 0..trees.len()
        invariant
            t == tree_views(trees@),
            trees@.len() == install::linked_dirs().len(),
            places@.len() == install::linked_dirs().len(),
            forall|i: int|
                0 <= i < places@.len() ==> (#[trigger] places@[i]).0@ == paths::path_join(
                    formula_path@,
                    install::linked_dirs()[i],
                ) && places@[i].1@ == paths::path_join(prefix@, install::linked_dirs()[i]),
            planned_views(out@) == dirs_planned(t.take(i as int), formula_path@, prefix@, dry_run),
    {
        let ghost before = planned_views(out@);
        proof {
            assert(t.take(i + 1).drop_last() =~= t.take(i as int));
            assert(t.take(i + 1).last() == t[i as int]);
        }
        match &trees[i] {
            Some(nodes) => {
                let mut inner = link_directory_recursive(
                    nodes,
                    places[i].0.as_str(),
                    places[i].1.as_str(),
                    dry_run,
                );
                let ghost more = planned_views(inner@);
                out.append(&mut inner);
                proof {
                    assert(planned_views(out@) =~= before + more);
                }
            },
            None => {
                proof {
                    assert(before + Seq::<PlannedView>::empty() =~= before);
                }
            },
        }
    }
    let ghost all = planned_views(out@);
    proof {
        assert(t.take(t.len() as int) =~= t);
    }
    if !dry_run {
        let p = PlannedLink {
            source: String::from_str(formula_path),
            target: opt_link(prefix, name),
            remove: opt_at != Standing::Nothing,
            create: true,
        };
        let ghost x = p@;
        out.push(p);
        proof {
            assert(planned_views(out@) =~= all + seq![x]);
        }
    } else {
        proof {
            assert(all + Seq::<PlannedView>::empty() =~= all);
        }
    }
    out
}

/// The links in the first directories of the prefix that lead into a package.
pub open spec fn dirs_unlinked(
    trees: Seq<Option<Seq<LinkNode>>>,
    formula_path: Seq<char>,
    prefix: Seq<char>,
    dry_run: bool,
) -> Seq<Seq<char>>
    decreases trees.len(),
{
    if trees.len() == 0 {
        Seq::empty()
    } else {
        let dir = install::linked_dirs()[trees.len() - 1];
        dirs_unlinked(trees.drop_last(), formula_path, prefix, dry_run) + match trees.last() {
            Some(nodes) => unlinked(nodes, paths::path_join(prefix, dir), formula_path, dry_run),
            None => Seq::empty(),
        }
    }
}

/// All links that lead into a package.
pub open spec fn package_unlinked(
    trees: Seq<Option<Seq<LinkNode>>>,
    formula_path: Seq<char>,
    prefix: Seq<char>,
    name: Seq<char>,
    opt_at: Standing,
    opt_leads_to: Option<Seq<char>>,
    dry_run: bool,
) -> Seq<Seq<char>> {
    dirs_unlinked(trees, formula_path, prefix, dry_run) + if opt_at == Standing::Symlink
        && opt_leads_to is Some && paths::lies_in(opt_leads_to->0, formula_path) {
        seq![current_link(prefix, name)]
    } else {
        Seq::empty()
    }
}

/// The links that are taken away with a package.
pub fn remove_symlinks(
    trees: &Vec<Option<Vec<LinkNode>>>,
    formula_path: &str,
    prefix: &str,
    name: &str,
    opt_at: Standing,
    opt_leads_to: Option<&str>,
    dry_run: bool,
) -> (r: Vec<String>)
    requires
        trees@.len() == install::linked_dirs().len(),
    ensures
        text::views(r@) == package_unlinked(
            tree_views(trees@),
            formula_path@,
            prefix@,
            name@,
            opt_at,
            dirs::str_view(opt_leads_to),
            dry_run,
        ),
{
    let places = link_dirs(formula_path, prefix);
    let ghost t = tree_views(trees@);
    let mut out: Vec<String> = Vec::new();
    proof {
        assert(text::views(out@) =~= dirs_unlinked(t.take(0), formula_path@, prefix@, dry_run));
    }
    for i in 0..trees.len()
        invariant
            t == tree_views(trees@),
            trees@.len() == install::linked_dirs().len(),
            places@.len() == install::linked_dirs().len(),
            forall|i: int|
                0 <= i < places@.len() ==> (#[trigger] places@[i]).1@ == paths::path_join(
                    prefix@,
                    install::linked_dirs()[i],
                ),
            text::views(out@) == dirs_unlinked(t.take(i as int), formula_path@, prefix@, dry_run),
    {
        let ghost before = text::views(out@);
        proof {
            assert(t.take(i + 1).drop_last() =~= t.take(i as int));
            assert(t.take(i + 1).last() == t[i as int]);
        }
        match &trees[i] {
            Some(nodes) => {
                let mut inner = unlink_directory_recursive(
                    nodes,
                    places[i].1.as_str(),
                    formula_path,
                    dry_run,
                );
                let ghost more = text::views(inner@);
                out.append(&mut inner);
                proof {
                    assert(text::views(out@) =~= before + more);
                }
            },
            None => {
                proof {
                    assert(before + Seq::<Seq<char>>::empty() =~= before);
                }
            },
        }
    }
    let ghost all = text::views(out@);
    proof {
        assert(t.take(t.len() as int) =~= t);
        assert(all + Seq::<Seq<char>>::empty() =~= all);
    }
    if opt_at == Standing::Symlink {
        match opt_leads_to {
            Some(to) => if path_in(to, formula_path) {
                let link = opt_link(prefix, name);
                let ghost x = link@;
                out.push(link);
                proof {
                    assert(text::views(out@) =~= all + seq![x]);
                }
            },
            None => {},
        }
    }
    out
}

/// `after` is what `before` looks like once the links of a package are made.
pub open spec fn linked_package(
    before: Seq<Option<Seq<LinkNode>>>,
    after: Seq<Option<Seq<LinkNode>>>,
    formula_path: Seq<char>,
) -> bool
    decreases before.len(),
{
    &&& before.len() == after.len()
    &&& before.len() > 0 ==> {
        &&& linked_package(before.drop_last(), after.drop_last(), formula_path)
        &&& match (before.last(), after.last()) {
            (Some(b), Some(a)) => sound_tree(b) && linked_tree(
                b,
                a,
                paths::path_join(formula_path, install::linked_dirs()[before.len() - 1]),
            ),
            (None, None) => true,
            _ => false,
        }
    }
}

proof fn dirs_are_undone(
    before: Seq<Option<Seq<LinkNode>>>,
    after: Seq<Option<Seq<LinkNode>>>,
    formula_path: Seq<char>,
    prefix: Seq<char>,
)
    requires
        before.len() <= install::linked_dirs().len(),
        linked_package(before, after, formula_path),
    ensures
        dirs_unlinked(after, formula_path, prefix, false) == targets(
            dirs_planned(before, formula_path, prefix, false),
        ),
    decreases before.len(),
{
    if before.len() > 0 {
        dirs_are_undone(before.drop_last(), after.drop_last(), formula_path, prefix);
        let dir = install::linked_dirs()[before.len() - 1];
        let p = dirs_planned(before.drop_last(), formula_path, prefix, false);
        match (before.last(), after.last()) {
            (Some(b), Some(a)) => {
                let source = paths::path_join(formula_path, dir);
                let target = paths::path_join(prefix, dir);
                reveal_strlit("bin");
                reveal_strlit("lib");
                reveal_strlit("include");
                reveal_strlit("share");
                reveal_strlit("etc");
                reveal_strlit("sbin");
                assert(!paths::is_absolute(dir));
                paths::below_lies_in(formula_path, dir);
                unlinking_undoes_linking(b, a, source, target, formula_path);
                let q = planned(b, source, target, false);
                assert(targets(p + q) =~= targets(p) + targets(q));
            },
            _ => {
                assert(p + Seq::<PlannedView>::empty() =~= p);
                assert(targets(p) + Seq::<Seq<char>>::empty() =~= targets(p));
            },
        }
    } else {
        assert(targets(dirs_planned(before, formula_path, prefix, false)) =~= Seq::empty());
    }
}

/// Removing the links of a package undoes making them: once they are made, exactly
/// those that were made are taken away, the one to the current version with them.
pub proof fn removing_undoes_creating(
    before: Seq<Option<Seq<LinkNode>>>,
    after: Seq<Option<Seq<LinkNode>>>,
    formula_path: Seq<char>,
    prefix: Seq<char>,
    name: Seq<char>,
    opt_at: Standing,
)
    requires
        before.len() == install::linked_dirs().len(),
        linked_package(before, after, formula_path),
    ensures
        package_unlinked(
            after,
            formula_path,
            prefix,
            name,
            Standing::Symlink,
            Some(formula_path),
            false,
        ) == targets(package_planned(before, formula_path, prefix, name, opt_at, false)),
{
    dirs_are_undone(before, after, formula_path, prefix);
    assert(paths::components(formula_path).subrange(
        0,
        paths::components(formula_path).len() as int,
    ) =~= paths::components(formula_path));
    let p = dirs_planned(before, formula_path, prefix, false);
    let x = PlannedView {
        source: formula_path,
        target: current_link(prefix, name),
        remove: opt_at != Standing::Nothing,
        create: true,
    };
    assert(targets(p + seq![x]) =~= targets(p) + seq![current_link(prefix, name)]);
}

/// An entry of a package is linked at the same name below the target as it has below the
/// source; what is in a directory that is there already is linked inside it.
pub proof fn entries_are_linked_at_their_name(
    nodes: Seq<LinkNode>,
    n: LinkNode,
    source_dir: Seq<char>,
    target_dir: Seq<char>,
    dry_run: bool,
)
    ensures
        ({
            let before = planned(nodes, source_dir, target_dir, dry_run);
            let now = planned(nodes.push(n), source_dir, target_dir, dry_run);
            let source = paths::path_join(source_dir, n.name@);
            let target = paths::path_join(target_dir, n.name@);
            &&& n.is_dir && n.place == Standing::Dir ==> now == before + planned(
                n.children@,
                source,
                target,
                dry_run,
            )
            &&& !dry_run && !(n.is_dir && n.place == Standing::Dir) ==> now == before + seq![
                PlannedView { source, target, remove: n.place != Standing::Nothing, create: true },
            ]
        }),
        dry_run ==> forall|i: int|
            0 <= i < planned(nodes, source_dir, target_dir, dry_run).len() ==> !(
            #[trigger] planned(nodes, source_dir, target_dir, dry_run)[i]).remove && !planned(
                nodes,
                source_dir,
                target_dir,
                dry_run,
            )[i].create,
{
    assert(nodes.push(n).drop_last() =~= nodes);
    assert(nodes.push(n).last() == n);
    if dry_run {
        trials_link_nothing(nodes, source_dir, target_dir);
    }
}

proof fn trials_link_nothing(nodes: Seq<LinkNode>, source_dir: Seq<char>, target_dir: Seq<char>)
    ensures
        forall|i: int|
            0 <= i < planned(nodes, source_dir, target_dir, true).len() ==> !(#[trigger] planned(
                nodes,
                source_dir,
                target_dir,
                true,
            )[i]).remove && !planned(nodes, source_dir, target_dir, true)[i].create,
    decreases nodes,
{
    if nodes.len() > 0 {
        let n = nodes.last();
        let source = paths::path_join(source_dir, n.name@);
        let target = paths::path_join(target_dir, n.name@);
        trials_link_nothing(nodes.drop_last(), source_dir, target_dir);
        trials_link_nothing(n.children@, source, target);
        let before = planned(nodes.drop_last(), source_dir, target_dir, true);
        let inside = planned(n.children@, source, target, true);
        let now = planned(nodes, source_dir, target_dir, true);
        assert forall|i: int| 0 <= i < now.len() implies !(#[trigger] now[i]).remove
            && !now[i].create by {
            if i < before.len() {
                assert(now[i] == before[i]);
            } else if n.is_dir && n.place == Standing::Dir {
                assert(now[i] == inside[i - before.len()]);
            }
        }
    }
}

/// A link is removed at the name of the entry whose place it takes, where it leads into
/// the package; what is in a shared directory is removed inside it.
pub proof fn own_links_are_removed_at_their_name(
    nodes: Seq<LinkNode>,
    n: LinkNode,
    target_dir: Seq<char>,
    formula_path: Seq<char>,
    dry_run: bool,
)
    ensures
        ({
            let before = unlinked(nodes, target_dir, formula_path, dry_run);
            let now = unlinked(nodes.push(n), target_dir, formula_path, dry_run);
            let target = paths::path_join(target_dir, n.name@);
            &&& n.place == Standing::Symlink && (leads_to(n) matches Some(t) && paths::lies_in(
                t,
                formula_path,
            )) ==> now == before.push(target)
            &&& n.place == Standing::Dir && n.leads_to_dir ==> now == before + unlinked(
                n.children@,
                target,
                formula_path,
                dry_run,
            )
            &&& n.place == Standing::Nothing || n.place == Standing::Dir && !n.leads_to_dir
                ==> now == before
            &&& n.place == Standing::Symlink && (leads_to(n) matches Some(t) ==> !paths::lies_in(
                t,
                formula_path,
            )) ==> now == before
        }),
{
    assert(nodes.push(n).drop_last() =~= nodes);
    assert(nodes.push(n).last() == n);
    let before = unlinked(nodes, target_dir, formula_path, dry_run);
    let target = paths::path_join(target_dir, n.name@);
    assert(before + seq![target] =~= before.push(target));
    assert(before + Seq::<Seq<char>>::empty() =~= before);
}

/// The current version of a package is linked under its name in `opt`, in place of what
/// is there; a trial links none.
pub proof fn current_version_is_linked(
    trees: Seq<Option<Seq<LinkNode>>>,
    formula_path: Seq<char>,
    prefix: Seq<char>,
    name: Seq<char>,
    opt_at: Standing,
)
    ensures
        package_planned(trees, formula_path, prefix, name, opt_at, false).last() == (PlannedView {
            source: formula_path,
            target: paths::path_join(paths::path_join(prefix, "opt"@), name),
            remove: opt_at != Standing::Nothing,
            create: true,
        }),
        package_planned(trees, formula_path, prefix, name, opt_at, true) == dirs_planned(
            trees,
            formula_path,
            prefix,
            true,
        ),
{
    assert(dirs_planned(trees, formula_path, prefix, true) + Seq::<PlannedView>::empty()
        =~= dirs_planned(trees, formula_path, prefix, true));
}

/// The link in `opt` is removed only where it leads into the package.
pub proof fn current_link_is_removed_if_own(
    trees: Seq<Option<Seq<LinkNode>>>,
    formula_path: Seq<char>,
    prefix: Seq<char>,
    name: Seq<char>,
    target: Seq<char>,
    opt_at: Standing,
    dry_run: bool,
)
    ensures
        ({
            let dirs = dirs_unlinked(trees, formula_path, prefix, dry_run);
            &&& opt_at == Standing::Symlink && paths::lies_in(target, formula_path)
                ==> package_unlinked(
                trees,
                formula_path,
                prefix,
                name,
                opt_at,
                Some(target),
                dry_run,
            ) == dirs.push(paths::path_join(paths::path_join(prefix, "opt"@), name))
            &&& opt_at != Standing::Symlink || !paths::lies_in(target, formula_path)
                ==> package_unlinked(
                trees,
                formula_path,
                prefix,
                name,
                opt_at,
                Some(target),
                dry_run,
            ) == dirs
        }),
{
    let dirs = dirs_unlinked(trees, formula_path, prefix, dry_run);
    assert(dirs + Seq::<Seq<char>>::empty() =~= dirs);
    let link = paths::path_join(paths::path_join(prefix, "opt"@), name);
    assert(dirs + seq![link] =~= dirs.push(link));
}

/// Each directory of a package is linked into the directory of the same name in the
/// prefix, and unlinked from there; one that the package has not is passed over.
pub proof fn directories_are_linked_by_name(
    trees: Seq<Option<Seq<LinkNode>>>,
    nodes: Seq<LinkNode>,
    formula_path: Seq<char>,
    prefix: Seq<char>,
    dry_run: bool,
)
    requires
        trees.len() < 6,
    ensures
        ({
            let dir = seq!["bin"@, "lib"@, "include"@, "share"@, "etc"@, "sbin"@][trees.len() as int];
            &&& dirs_planned(trees.push(Some(nodes)), formula_path, prefix, dry_run)
                == dirs_planned(trees, formula_path, prefix, dry_run) + planned(
                nodes,
                paths::path_join(formula_path, dir),
                paths::path_join(prefix, dir),
                dry_run,
            )
            &&& dirs_unlinked(trees.push(Some(nodes)), formula_path, prefix, dry_run)
                == dirs_unlinked(trees, formula_path, prefix, dry_run) + unlinked(
                nodes,
                paths::path_join(prefix, dir),
                formula_path,
                dry_run,
            )
            &&& dirs_planned(trees.push(None), formula_path, prefix, dry_run) == dirs_planned(
                trees,
                formula_path,
                prefix,
                dry_run,
            )
            &&& dirs_unlinked(trees.push(None), formula_path, prefix, dry_run) == dirs_unlinked(
                trees,
                formula_path,
                prefix,
                dry_run,
            )
        }),
{
    assert(trees.push(Some(nodes)).drop_last() =~= trees);
    assert(trees.push(None).drop_last() =~= trees);
    let p = dirs_planned(trees, formula_path, prefix, dry_run);
    let u = dirs_unlinked(trees, formula_path, prefix, dry_run);
    assert(p + Seq::<PlannedView>::empty() =~= p);
    assert(u + Seq::<Seq<char>>::empty() =~= u);
}

}
