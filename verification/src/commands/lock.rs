//! Locking what is installed.
use crate::cask::{InstalledCask, InstalledCaskView};
use crate::commands::install_casks;
use crate::commands::install_casks::add_discovered;
use crate::install::{InstalledPackage, InstalledView};
use crate::lockfile;
use crate::lockfile::Lockfile;
use crate::table::Table;
use crate::text::number;
use crate::{table, text};
use vstd::prelude::*;

verus! {

pub open spec fn package_records(v: Seq<InstalledPackage>) -> Seq<InstalledView> {
    Seq::new(v.len(), |i: int| v[i]@)
}

/// The record with the packages that were found without one; a record stands.
pub open spec fn with_packages(
    m: Map<Seq<char>, InstalledView>,
    found: Seq<InstalledView>,
) -> Map<Seq<char>, InstalledView>
    decreases found.len(),
{
    if found.len() == 0 {
        m
    } else {
        let before = with_packages(m, found.drop_last());
        if before.contains_key(found.last().name) {
            before
        } else {
            before.insert(found.last().name, found.last())
        }
    }
}

/// Adds the packages that were found without a record.
pub fn add_packages(installed: &mut Table<InstalledPackage>, found: Vec<InstalledPackage>)
    requires
        old(installed).wf(),
    ensures
        final(installed).wf(),
        table::contents(*final(installed)) == with_packages(
            table::contents(*old(installed)),
            package_records(found@),
        ),
{
    let ghost m = table::contents(*installed);
    let ghost f = package_records(found@);
    for p in it: found
        invariant
            installed.wf(),
            f == package_records(it.seq()),
            table::contents(*installed) == with_packages(m, f.take(it.index())),
    {
        let ghost so_far = table::contents(*installed);
        let ghost shown = p@;
        proof {
            assert(f.take(it.index() + 1).drop_last() =~= f.take(it.index()));
            assert(f.take(it.index() + 1).last() == shown);
        }
        let name = p.name.clone();
        installed.or_insert(name, p);
        proof {
            if !so_far.contains_key(shown.name) {
                assert(table::contents(*installed) =~= so_far.insert(shown.name, shown));
            }
        }
    }
    proof {
        assert(f.take(f.len() as int) =~= f);
    }
}

/// The lockfile for what is recorded and what was found besides.
pub fn lock(
    installed: Table<InstalledPackage>,
    found: Vec<InstalledPackage>,
    installed_casks: Table<InstalledCask>,
    found_casks: Vec<InstalledCask>,
) -> (r: Lockfile)
    requires
        installed.wf(),
        installed_casks.wf(),
    ensures
        r.wf(),
        table::contents(r.packages) == with_packages(
            table::contents(installed),
            package_records(found@),
        ).map_values(|p: InstalledView| lockfile::locked(p)),
        table::contents(r.casks) == install_casks::with_discovered(
            table::contents(installed_casks),
            install_casks::cask_records(found_casks@),
        ).map_values(|c: InstalledCaskView| c.version),
{
    let mut packages = installed;
    let mut casks = installed_casks;
    add_packages(&mut packages, found);
    add_discovered(&mut casks, found_casks);
    Lockfile::generate(&packages, &casks)
}

/// What is said of a lockfile: nothing is written where nothing is locked.
pub fn lock_summary(packages: usize, casks: usize) -> (r: Option<String>)
    ensures
        text::opt_view(r) == if packages == 0 && casks == 0 {
            None
        } else {
            Some(
                "locked "@ + text::decimal(packages as nat) + (if packages == 1 {
                    " package"@
                } else {
                    " packages"@
                }) + " and "@ + text::decimal(casks as nat) + (if casks == 1 {
                    " cask"@
                } else {
                    " casks"@
                }) + " in wax.lock"@,
            )
        },
{
    if packages == 0 && casks == 0 {
        return None;
    }
    let mut m = String::from_str("locked ");
    m.append(number(packages as u128).as_str());
    if packages == 1 {
        m.append(" package");
    } else {
        m.append(" packages");
    }
    m.append(" and ");
    m.append(number(casks as u128).as_str());
    if casks == 1 {
        m.append(" cask");
    } else {
        m.append(" casks");
    }
    m.append(" in wax.lock");
    Some(m)
}

/// A package that was found on the machine is locked as well; one that is recorded is
/// locked as its record says.
pub proof fn found_packages_are_added(
    m: Map<Seq<char>, InstalledView>,
    found: Seq<InstalledView>,
    p: InstalledView,
)
    ensures
        ({
            let before = with_packages(m, found);
            let now = with_packages(m, found.push(p));
            &&& before.contains_key(p.name) ==> now == before
            &&& !before.contains_key(p.name) ==> now == before.insert(p.name, p)
        }),
        with_packages(m, Seq::empty()) == m,
{
    assert(found.push(p).drop_last() =~= found);
}

}
