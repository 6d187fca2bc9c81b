//! Linking packages into the prefix.
use crate::error::{Result, WaxError};
use crate::install::InstalledPackage;
use crate::table::Table;
use crate::text;
use crate::text::number;
use vstd::prelude::*;

verus! {

/// The packages to be linked, by their place in the record, and the names that
/// are not installed.
#[derive(Debug)]
pub struct LinkSelection {
    pub found: Vec<usize>,
    pub missing: Vec<String>,
}

/// The names that are installed.
pub open spec fn known(names: Seq<Seq<char>>, installed: Set<Seq<char>>) -> Seq<Seq<char>>
    decreases names.len(),
{
    if names.len() == 0 {
        Seq::empty()
    } else if installed.contains(names.last()) {
        known(names.drop_last(), installed).push(names.last())
    } else {
        known(names.drop_last(), installed)
    }
}

/// The names that are not installed.
pub open spec fn unknown(names: Seq<Seq<char>>, installed: Set<Seq<char>>) -> Seq<Seq<char>>
    decreases names.len(),
{
    if names.len() == 0 {
        Seq::empty()
    } else if installed.contains(names.last()) {
        unknown(names.drop_last(), installed)
    } else {
        unknown(names.drop_last(), installed).push(names.last())
    }
}

/// The names at the places.
pub open spec fn names_at(places: Seq<usize>, e: Seq<crate::table::Entry<InstalledPackage>>) -> Seq<
    Seq<char>,
> {
    Seq::new(places.len(), |i: int| e[places[i] as int].name@)
}

/// The packages to be linked: all that are installed, or those that are named, of
/// which there has to be one. Where nothing is installed, nothing is linked, and no
/// name is looked at.
pub fn link(packages: &Vec<String>, all: bool, installed: &Table<InstalledPackage>) -> (r: Result<
    LinkSelection,
>)
    ensures
        if installed.entries@.len() == 0 {
            r matches Ok(s) && s.found@.len() == 0 && s.missing@.len() == 0
        } else if all {
            r matches Ok(s) && s.found@ =~= Seq::new(
                installed.entries@.len(),
                |i: int| i as usize,
            ) && s.missing@.len() == 0
        } else if packages@.len() == 0 {
            r matches Err(WaxError::InvalidInput(m)) && m@
                == "Specify package names or use --all to relink everything"@
        } else {
            r matches Ok(s) && (forall|i: int|
                0 <= i < s.found@.len() ==> (#[trigger] s.found@[i]) < installed.entries@.len())
                && names_at(s.found@, installed.entries@) == known(
                text::views(packages@),
                installed@.dom(),
            ) && text::views(s.missing@) == unknown(text::views(packages@), installed@.dom())
        },
{
    let mut found: Vec<usize> = Vec::new();
    let mut missing: Vec<String> = Vec::new();
    if installed.entries.len() == 0 {
        return Ok(LinkSelection { found, missing });
    }
    if all {
        for i in 0..installed.entries.len()
            invariant
                found@ =~= Seq::new(i as nat, |i: int| i as usize),
        {
            found.push(i);
        }
        return Ok(LinkSelection { found, missing });
    }
    if packages.len() == 0 {
        return Err(
            WaxError::InvalidInput(
                String::from_str("Specify package names or use --all to relink everything"),
            ),
        );
    }
    let ghost p = text::views(packages@);
    let ghost e = installed.entries@;
    let ghost dom = installed@.dom();
    proof {
        assert(names_at(found@, e) =~= known(p.take(0), dom));
        assert(text::views(missing@) =~= unknown(p.take(0), dom));
    }
    for i in 0..packages.len()
        invariant
            p == text::views(packages@),
            e == installed.entries@,
            dom == installed@.dom(),
            forall|i: int| 0 <= i < found@.len() ==> (#[trigger] found@[i]) < e.len(),
            names_at(found@, e) == known(p.take(i as int), dom),
            text::views(missing@) == unknown(p.take(i as int), dom),
    {
        let ghost before = names_at(found@, e);
        let ghost lost = text::views(missing@);
        proof {
            assert(p.take(i + 1).drop_last() =~= p.take(i as int));
            assert(p.take(i + 1).last() == packages@[i as int]@);
        }
        match installed.position(packages[i].as_str()) {
            Some(k) => {
                proof {
                    assert(crate::table::named_at(e, packages@[i as int]@, k as int));
                }
                found.push(k);
                proof {
                    assert(names_at(found@, e) =~= before.push(packages@[i as int]@));
                }
            },
            None => {
                missing.push(packages[i].clone());
                proof {
                    assert(text::views(missing@) =~= lost.push(packages@[i as int]@));
                }
            },
        }
    }
    proof {
        assert(p.take(p.len() as int) =~= p);
    }
    Ok(LinkSelection { found, missing })
}

/// The last line.
pub fn link_summary(linked: usize, errors: usize) -> (r: String)
    ensures
        r@ == if errors > 0 {
            text::decimal(linked as nat) + " linked, "@ + text::decimal(errors as nat)
                + " errors"@
        } else {
            text::decimal(linked as nat) + " packages linked"@
        },
{
    let mut m = number(linked as u128);
    if errors > 0 {
        m.append(" linked, ");
        m.append(number(errors as u128).as_str());
        m.append(" errors");
    } else {
        m.append(" packages linked");
    }
    m
}

/// A name that is asked for is known exactly where it is installed; each list keeps the
/// order of the names.
pub proof fn names_are_known_if_installed(
    names: Seq<Seq<char>>,
    name: Seq<char>,
    installed: Set<Seq<char>>,
)
    ensures
        installed.contains(name) ==> known(names.push(name), installed) == known(
            names,
            installed,
        ).push(name) && unknown(names.push(name), installed) == unknown(names, installed),
        !installed.contains(name) ==> known(names.push(name), installed) == known(names, installed)
            && unknown(names.push(name), installed) == unknown(names, installed).push(name),
        known(Seq::empty(), installed).len() == 0,
        unknown(Seq::empty(), installed).len() == 0,
{
    assert(names.push(name).drop_last() =~= names);
}

}
