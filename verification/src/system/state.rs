//! Which system packages are installed, and which the user has asked for.
use crate::{table, text};
use crate::system::registry::holds;
use crate::table::Table;
use crate::text::same_str;
use vstd::prelude::*;

verus! {

#[derive(Debug)]
pub struct InstalledPackage {
    pub name: String,
    pub version: Option<String>,
    pub installed_at: i64,
    /// Whether the user asked for this package, or it came as a dependency.
    pub declared: bool,
}

/// The mathematical content of an `InstalledPackage`.
pub struct InstalledView {
    pub name: Seq<char>,
    pub version: Option<Seq<char>>,
    pub installed_at: int,
    pub declared: bool,
}

impl View for InstalledPackage {
    type V = InstalledView;

    open spec fn view(&self) -> InstalledView {
        InstalledView {
            name: self.name@,
            version: text::opt_view(self.version),
            installed_at: self.installed_at as int,
            declared: self.declared,
        }
    }
}

/// An `InstalledPackage` is seen as what it holds.
pub proof fn installed_package_is_seen_as_it_is(x: InstalledPackage)
    ensures
        x@.name == x.name@,
        x@.version == text::opt_view(x.version),
        x@.installed_at == x.installed_at as int,
        x@.declared == x.declared,
{
}

pub struct SystemState {
    /// Packages currently tracked as installed.
    pub installed: Table<InstalledPackage>,
    /// The packages the user asked for.
    pub declared: Vec<String>,
}

/// The mathematical content of a `SystemState`.
pub struct StateView {
    pub installed: Map<Seq<char>, InstalledView>,
    pub declared: Seq<Seq<char>>,
}

impl View for SystemState {
    type V = StateView;

    open spec fn view(&self) -> StateView {
        StateView { installed: table::contents(self.installed), declared: text::views(self.declared@) }
    }
}

/// A `SystemState` is seen as what it holds.
pub proof fn system_state_is_seen_as_it_is(x: SystemState)
    ensures
        x@.installed == table::contents(x.installed),
        x@.declared == text::views(x.declared@),
{
}

/// `s` with the mark of an installed package set to `mark`.
pub open spec fn with_mark(
    installed: Map<Seq<char>, InstalledView>,
    name: Seq<char>,
    mark: bool,
) -> Map<Seq<char>, InstalledView> {
    if installed.contains_key(name) {
        installed.insert(name, InstalledView { declared: mark, ..installed[name] })
    } else {
        installed
    }
}

/// A declared name joins the list unless it stands there, and its package, if
/// installed, is marked.
pub open spec fn declare(s: StateView, name: Seq<char>) -> StateView {
    StateView {
        installed: with_mark(s.installed, name, true),
        declared: if s.declared.contains(name) {
            s.declared
        } else {
            s.declared.push(name)
        },
    }
}

/// The list without every occurrence of `name`.
pub open spec fn without(list: Seq<Seq<char>>, name: Seq<char>) -> Seq<Seq<char>>
    decreases list.len(),
{
    if list.len() == 0 {
        list
    } else if list.last() == name {
        without(list.drop_last(), name)
    } else {
        without(list.drop_last(), name).push(list.last())
    }
}

/// An undeclared name leaves the list, and its package, if installed, loses its mark.
pub open spec fn undeclare(s: StateView, name: Seq<char>) -> StateView {
    StateView {
        installed: with_mark(s.installed, name, false),
        declared: without(s.declared, name),
    }
}

pub open spec fn mark_installed(s: StateView, p: InstalledView) -> StateView {
    StateView { installed: s.installed.insert(p.name, p), ..s }
}

pub open spec fn mark_removed(s: StateView, name: Seq<char>) -> StateView {
    StateView { installed: s.installed.remove(name), ..s }
}

impl SystemState {
    pub open spec fn wf(&self) -> bool {
        self.installed.wf()
    }

    pub fn new() -> (r: Self)
        ensures
            r.wf(),
            r@.installed == Map::<Seq<char>, InstalledView>::empty(),
            r@.declared.len() == 0,
    {
        let r = SystemState { installed: Table::new(), declared: Vec::new() };
        proof {
            assert(r@.installed =~= Map::<Seq<char>, InstalledView>::empty());
        }
        r
    }

    /// Records a package as installed at the time `now`.
    pub fn mark_installed(
        &mut self,
        name: &str,
        version: Option<String>,
        declared: bool,
        now: i64,
    )
        requires
            old(self).wf(),
        ensures
            final(self).wf(),
            final(self)@ == mark_installed(
                old(self)@,
                (InstalledView {
                    name: name@,
                    version: text::opt_view(version),
                    installed_at: now as int,
                    declared,
                }),
            ),
    {
        let ghost before = self@;
        let p = InstalledPackage {
            name: String::from_str(name),
            version,
            installed_at: now,
            declared,
        };
        let ghost shown = p@;
        self.installed.insert(String::from_str(name), p);
        proof {
            assert(self@.installed =~= before.installed.insert(name@, shown));
        }
    }

    pub fn mark_removed(&mut self, name: &str)
        requires
            old(self).wf(),
        ensures
            final(self).wf(),
            final(self)@ == mark_removed(old(self)@, name@),
    {
        let ghost before = self@;
        let _removed = self.installed.remove(name);
        proof {
            assert(self@.installed =~= before.installed.remove(name@));
        }
    }

    fn set_mark(&mut self, name: &str, mark: bool)
        requires
            old(self).wf(),
        ensures
            final(self).wf(),
            final(self)@ == (StateView {
                installed: with_mark(old(self)@.installed, name@, mark),
                ..old(self)@
            }),
    {
        let ghost before = self@;
        match self.installed.remove(name) {
            Some(p) => {
                let marked = InstalledPackage {
                    name: p.name,
                    version: p.version,
                    installed_at: p.installed_at,
                    declared: mark,
                };
                self.installed.insert(String::from_str(name), marked);
                proof {
                    assert(self@.installed =~= with_mark(before.installed, name@, mark));
                }
            },
            None => {
                proof {
                    assert(self@.installed =~= before.installed);
                }
            },
        }
    }

    pub fn declare(&mut self, name: &str)
        requires
            old(self).wf(),
        ensures
            final(self).wf(),
            final(self)@ == declare(old(self)@, name@),
    {
        let ghost before = self@;
        if !holds(&self.declared, name) {
            self.declared.push(String::from_str(name));
            proof {
                assert(self@.declared =~= before.declared.push(name@));
            }
        }
        self.set_mark(name, true);
    }

    pub fn undeclare(&mut self, name: &str)
        requires
            old(self).wf(),
        ensures
            final(self).wf(),
            final(self)@ == undeclare(old(self)@, name@),
    {
        let ghost before = self@;
        let mut kept: Vec<String> = Vec::new();
        proof {
            assert(text::views(kept@) =~= Seq::<Seq<char>>::empty());
        }
        for i in 0..self.declared.len()
            invariant
                before.declared == text::views(self.declared@),
                text::views(kept@) == without(before.declared.take(i as int), name@),
        {
            let ghost so_far = text::views(kept@);
            proof {
                assert(before.declared.take(i + 1).drop_last() =~= before.declared.take(i as int));
                assert(before.declared.take(i + 1).last() == self.declared@[i as int]@);
            }
            if !same_str(self.declared[i].as_str(), name) {
                kept.push(self.declared[i].clone());
                proof {
                    assert(text::views(kept@) =~= so_far.push(self.declared@[i as int]@));
                }
            }
        }
        proof {
            assert(before.declared.take(before.declared.len() as int) =~= before.declared);
        }
        self.declared = kept;
        self.set_mark(name, false);
    }

    pub fn is_declared(&self, name: &str) -> (r: bool)
        ensures
            r == self@.declared.contains(name@),
    {
        holds(&self.declared, name)
    }
}

// ---------------------------------------------------------------------------
// Laws

proof fn without_removes(list: Seq<Seq<char>>, name: Seq<char>)
    ensures
        !without(list, name).contains(name),
        forall|n: Seq<char>| n != name ==> (without(list, name).contains(n) <==> #[trigger] list.contains(n)),
    decreases list.len(),
{
    if list.len() > 0 {
        without_removes(list.drop_last(), name);
        let r = without(list, name);
        let b = without(list.drop_last(), name);
        assert(list =~= list.drop_last().push(list.last()));
        assert forall|n: Seq<char>| n != name implies (r.contains(n) <==> #[trigger] list.contains(n)) by {
            assert(b.contains(n) <==> list.drop_last().contains(n));
            if list.contains(n) {
                let i = choose|i: int| 0 <= i < list.len() && list[i] == n;
                if i < list.len() - 1 {
                    assert(list.drop_last()[i] == n);
                    let j = choose|j: int| 0 <= j < b.len() && b[j] == n;
                    assert(r[j] == n);
                } else {
                    assert(r[r.len() - 1] == n);
                }
            }
            if r.contains(n) {
                let i = choose|i: int| 0 <= i < r.len() && r[i] == n;
                if i < b.len() {
                    assert(b[i] == n);
                    let j = choose|j: int| 0 <= j < list.drop_last().len() && list.drop_last()[j] == n;
                    assert(list[j] == n);
                } else {
                    assert(list[list.len() - 1] == n);
                }
            }
        }
        if r.contains(name) {
            let i = choose|i: int| 0 <= i < r.len() && r[i] == name;
            if i < b.len() {
                assert(b[i] == name);
            }
        }
    }
}

proof fn without_absent(list: Seq<Seq<char>>, name: Seq<char>)
    requires
        !list.contains(name),
    ensures
        without(list, name) == list,
    decreases list.len(),
{
    if list.len() > 0 {
        assert(list[list.len() - 1] == list.last());
        assert forall|i: int| 0 <= i < list.drop_last().len() implies list.drop_last()[i] != name by {
            assert(list[i] != name);
        }
        without_absent(list.drop_last(), name);
        assert(list =~= list.drop_last().push(list.last()));
    }
}

/// A declared name is declared; every other name is declared as before.
pub proof fn declared_after_declare(s: StateView, name: Seq<char>, other: Seq<char>)
    ensures
        declare(s, name).declared.contains(name),
        other != name ==> (declare(s, name).declared.contains(other) <==> s.declared.contains(
            other,
        )),
{
    let r = declare(s, name).declared;
    if !s.declared.contains(name) {
        assert(r[r.len() - 1] == name);
        if other != name && s.declared.contains(other) {
            let i = choose|i: int| 0 <= i < s.declared.len() && s.declared[i] == other;
            assert(r[i] == other);
        }
    }
}

/// Declaring a name again changes nothing.
pub proof fn declare_is_idempotent(s: StateView, name: Seq<char>)
    ensures
        declare(declare(s, name), name) == declare(s, name),
{
    declared_after_declare(s, name, name);
    assert(declare(declare(s, name), name).installed =~= declare(s, name).installed);
}

/// No name is declared twice if none was.
pub proof fn declare_keeps_names_distinct(s: StateView, name: Seq<char>)
    requires
        s.declared.no_duplicates(),
    ensures
        declare(s, name).declared.no_duplicates(),
{
}

/// An undeclared name is not declared; every other name is declared as before.
pub proof fn undeclared_after_undeclare(s: StateView, name: Seq<char>, other: Seq<char>)
    ensures
        !undeclare(s, name).declared.contains(name),
        other != name ==> (undeclare(s, name).declared.contains(other) <==> s.declared.contains(
            other,
        )),
{
    without_removes(s.declared, name);
}

/// Undeclaring a name that was newly declared gives the list as it was, and the
/// whole state as it was unless a package of that name was marked as declared.
pub proof fn undeclare_undoes_declare(s: StateView, name: Seq<char>)
    requires
        !s.declared.contains(name),
    ensures
        undeclare(declare(s, name), name).declared == s.declared,
        (s.installed.contains_key(name) ==> !s.installed[name].declared) ==> undeclare(
            declare(s, name),
            name,
        ) == s,
{
    if s.installed.contains_key(name) ==> !s.installed[name].declared {
        assert(undeclare(declare(s, name), name).installed =~= s.installed);
    }
    let d = declare(s, name).declared;
    assert(d.drop_last() =~= s.declared);
    without_absent(s.declared, name);
}

/// Removing a package that was newly installed gives the state as it was.
pub proof fn remove_undoes_install(s: StateView, p: InstalledView)
    requires
        !s.installed.contains_key(p.name),
    ensures
        mark_removed(mark_installed(s, p), p.name) == s,
{
    assert(mark_removed(mark_installed(s, p), p.name).installed =~= s.installed);
}

/// Declaring and undeclaring neither install nor remove a package.
pub proof fn declarations_leave_packages(s: StateView, name: Seq<char>)
    ensures
        declare(s, name).installed.dom() == s.installed.dom(),
        undeclare(s, name).installed.dom() == s.installed.dom(),
{
    assert(declare(s, name).installed.dom() =~= s.installed.dom());
    assert(undeclare(s, name).installed.dom() =~= s.installed.dom());
}

/// Declaring marks the package of that name as declared and undeclaring takes the mark
/// away; nothing else of that package changes, and no other package.
pub proof fn declaring_marks_packages(s: StateView, name: Seq<char>, other: Seq<char>)
    requires
        other != name,
    ensures
        s.installed.contains_key(name) ==> declare(s, name).installed[name] == (InstalledView {
            declared: true,
            ..s.installed[name]
        }) && undeclare(s, name).installed[name] == (InstalledView {
            declared: false,
            ..s.installed[name]
        }),
        !s.installed.contains_key(name) ==> declare(s, name).installed == s.installed && undeclare(
            s,
            name,
        ).installed == s.installed,
        s.installed.contains_key(other) ==> declare(s, name).installed[other]
            == s.installed[other] && undeclare(s, name).installed[other] == s.installed[other],
{
}

/// A package that is marked as installed is recorded as it is given, one that is marked
/// as removed is not recorded, and neither changes another package or what is declared.
pub proof fn marks_are_recorded(s: StateView, p: InstalledView, other: Seq<char>)
    requires
        other != p.name,
    ensures
        mark_installed(s, p).installed.contains_key(p.name),
        mark_installed(s, p).installed[p.name] == p,
        !mark_removed(s, p.name).installed.contains_key(p.name),
        mark_installed(s, p).declared == s.declared,
        mark_removed(s, p.name).declared == s.declared,
        mark_installed(s, p).installed.contains_key(other) == s.installed.contains_key(other),
        mark_removed(s, p.name).installed.contains_key(other) == s.installed.contains_key(other),
        s.installed.contains_key(other) ==> mark_installed(s, p).installed[other]
            == s.installed[other] && mark_removed(s, p.name).installed[other]
            == s.installed[other],
{
}

/// Undeclaring keeps the order of the other names.
pub proof fn undeclaring_keeps_order(list: Seq<Seq<char>>, name: Seq<char>, last: Seq<char>)
    ensures
        last != name ==> without(list.push(last), name) == without(list, name).push(last),
        without(list.push(name), name) == without(list, name),
        without(Seq::empty(), name) == Seq::<Seq<char>>::empty(),
{
    assert(list.push(last).drop_last() =~= list);
    assert(list.push(name).drop_last() =~= list);
}

}
