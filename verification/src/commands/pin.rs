//! Pinning packages to their version.
use crate::commands::link;
use crate::error::{Result, WaxError};
use crate::install;
use crate::install::{InstallState, InstalledPackage, InstalledView};
use crate::table::Table;
use crate::{table, text};
use vstd::prelude::*;

verus! {

/// The record with the named packages pinned, or not pinned.
pub open spec fn all_pinned(
    m: Map<Seq<char>, InstalledView>,
    names: Seq<Seq<char>>,
    pinned: bool,
) -> Map<Seq<char>, InstalledView>
    decreases names.len(),
{
    if names.len() == 0 {
        m
    } else {
        install::with_pin(all_pinned(m, names.drop_last(), pinned), names.last(), pinned)
    }
}

/// Pinning adds and drops no record.
proof fn pinning_keeps_names(
    m: Map<Seq<char>, InstalledView>,
    names: Seq<Seq<char>>,
    pinned: bool,
)
    ensures
        all_pinned(m, names, pinned).dom() == m.dom(),
    decreases names.len(),
{
    if names.len() > 0 {
        pinning_keeps_names(m, names.drop_last(), pinned);
        assert(all_pinned(m, names, pinned).dom() =~= m.dom());
    }
}

/// A package that was pinned is pinned, and one that was not named stays as it
/// was.
pub proof fn pinned_are_pinned(
    m: Map<Seq<char>, InstalledView>,
    names: Seq<Seq<char>>,
    pinned: bool,
    name: Seq<char>,
)
    requires
        m.contains_key(name),
    ensures
        all_pinned(m, names, pinned).contains_key(name),
        names.contains(name) ==> all_pinned(m, names, pinned)[name] == (InstalledView {
            pinned,
            ..m[name]
        }),
        !names.contains(name) ==> all_pinned(m, names, pinned)[name] == m[name],
    decreases names.len(),
{
    if names.len() > 0 {
        let shorter = names.drop_last();
        pinned_are_pinned(m, shorter, pinned, name);
        if names.contains(name) && names.last() != name {
            let k = choose|k: int| 0 <= k < names.len() && names[k] == name;
            assert(shorter[k] == name);
        }
        if shorter.contains(name) {
            let k = choose|k: int| 0 <= k < shorter.len() && shorter[k] == name;
            assert(names[k] == name);
        }
        if names.last() == name {
            assert(names[names.len() - 1] == name);
        }
    }
}

/// Unpinning undoes pinning: the packages that are named are as if they had only
/// been unpinned, and all others as they were.
pub proof fn unpinning_undoes_pinning(m: Map<Seq<char>, InstalledView>, names: Seq<Seq<char>>)
    ensures
        all_pinned(all_pinned(m, names, true), names, false) == all_pinned(m, names, false),
        (forall|n: Seq<char>| m.contains_key(n) ==> !(#[trigger] m[n]).pinned) ==> all_pinned(
            all_pinned(m, names, true),
            names,
            false,
        ) == m,
{
    let on = all_pinned(m, names, true);
    let back = all_pinned(on, names, false);
    let off = all_pinned(m, names, false);
    pinning_keeps_names(m, names, true);
    pinning_keeps_names(on, names, false);
    pinning_keeps_names(m, names, false);
    assert forall|n: Seq<char>| m.contains_key(n) implies back[n] == off[n] && (!m[n].pinned
        ==> off[n] == m[n]) by {
        assert(on.dom().contains(n));
        pinned_are_pinned(m, names, true, n);
        pinned_are_pinned(on, names, false, n);
        pinned_are_pinned(m, names, false, n);
    }
    assert forall|n: Seq<char>| back.contains_key(n) == off.contains_key(n) && (back.contains_key(n)
        ==> back[n] == off[n]) by {
        assert(back.dom().contains(n) == m.dom().contains(n));
        assert(off.dom().contains(n) == m.dom().contains(n));
    }
    assert(back =~= off);
    if forall|n: Seq<char>| m.contains_key(n) ==> !(#[trigger] m[n]).pinned {
        assert forall|n: Seq<char>| off.contains_key(n) == m.contains_key(n) && (m.contains_key(n)
            ==> off[n] == m[n]) by {
            assert(off.dom().contains(n) == m.dom().contains(n));
        }
        assert(off =~= m);
    }
}

fn set_all(packages: &Vec<String>, pinned: bool, installed: &mut Table<InstalledPackage>) -> (r: Result<
    Vec<String>,
>)
    requires
        old(installed).wf(),
    ensures
        final(installed).wf(),
        if packages@.len() == 0 {
            (r matches Err(WaxError::InvalidInput(m)) && m@ == "No packages specified"@)
                && *final(installed) == *old(installed)
        } else {
            (r matches Ok(v) && text::views(v@) == link::unknown(
                text::views(packages@),
                table::contents(*old(installed)).dom(),
            )) && table::contents(*final(installed)) == all_pinned(
                table::contents(*old(installed)),
                text::views(packages@),
                pinned,
            )
        },
{
    if packages.len() == 0 {
        return Err(WaxError::InvalidInput(String::from_str("No packages specified")));
    }
    let ghost m = table::contents(*installed);
    let ghost p = text::views(packages@);
    let mut missing: Vec<String> = Vec::new();
    proof {
        assert(text::views(missing@) =~= link::unknown(p.take(0), m.dom()));
    }
    for i in 0..packages.len()
        invariant
            installed.wf(),
            p == text::views(packages@),
            table::contents(*installed) == all_pinned(m, p.take(i as int), pinned),
            text::views(missing@) == link::unknown(p.take(i as int), m.dom()),
    {
        let ghost lost = text::views(missing@);
        proof {
            assert(p.take(i + 1).drop_last() =~= p.take(i as int));
            assert(p.take(i + 1).last() == packages@[i as int]@);
            pinning_keeps_names(m, p.take(i as int), pinned);
            assert(m.contains_key(packages@[i as int]@) == m.dom().contains(packages@[i as int]@));
            assert(all_pinned(m, p.take(i as int), pinned).contains_key(packages@[i as int]@)
                == all_pinned(m, p.take(i as int), pinned).dom().contains(packages@[i as int]@));
        }
        if !InstallState::set_pinned(installed, packages[i].as_str(), pinned) {
            missing.push(packages[i].clone());
            proof {
                assert(text::views(missing@) =~= lost.push(packages@[i as int]@));
            }
        }
    }
    proof {
        assert(p.take(p.len() as int) =~= p);
    }
    Ok(missing)
}

/// Pins the named packages, and gives back those that are not installed.
pub fn pin(packages: &Vec<String>, installed: &mut Table<InstalledPackage>) -> (r: Result<Vec<String>>)
    requires
        old(installed).wf(),
    ensures
        final(installed).wf(),
        if packages@.len() == 0 {
            (r matches Err(WaxError::InvalidInput(m)) && m@ == "No packages specified"@)
                && *final(installed) == *old(installed)
        } else {
            (r matches Ok(v) && text::views(v@) == link::unknown(
                text::views(packages@),
                table::contents(*old(installed)).dom(),
            )) && table::contents(*final(installed)) == all_pinned(
                table::contents(*old(installed)),
                text::views(packages@),
                true,
            )
        },
{
    set_all(packages, true, installed)
}

/// Unpins the named packages, and gives back those that are not installed.
pub fn unpin(packages: &Vec<String>, installed: &mut Table<InstalledPackage>) -> (r: Result<Vec<String>>)
    requires
        old(installed).wf(),
    ensures
        final(installed).wf(),
        if packages@.len() == 0 {
            (r matches Err(WaxError::InvalidInput(m)) && m@ == "No packages specified"@)
                && *final(installed) == *old(installed)
        } else {
            (r matches Ok(v) && text::views(v@) == link::unknown(
                text::views(packages@),
                table::contents(*old(installed)).dom(),
            )) && table::contents(*final(installed)) == all_pinned(
                table::contents(*old(installed)),
                text::views(packages@),
                false,
            )
        },
{
    set_all(packages, false, installed)
}

}
