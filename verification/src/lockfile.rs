//! The lockfile: the versions that are installed, to be installed again.
use crate::cask::{InstalledCask, InstalledCaskView};
use crate::error::{Result, WaxError};
use crate::install::{InstalledPackage, InstalledView};
use crate::paths::below;
use crate::table::Table;
use crate::ui::dirs;
use crate::ui::dirs::wax_dir;
use crate::{paths, table};
use vstd::prelude::*;

verus! {

#[derive(Debug, Clone)]
pub struct LockfilePackage {
    pub version: String,
    pub bottle: String,
}

/// The mathematical content of a `LockfilePackage`.
pub struct LockedPackage {
    pub version: Seq<char>,
    pub bottle: Seq<char>,
}

impl View for LockfilePackage {
    type V = LockedPackage;

    open spec fn view(&self) -> LockedPackage {
        LockedPackage { version: self.version@, bottle: self.bottle@ }
    }
}

/// A `LockfilePackage` is seen as what it holds.
pub proof fn lockfile_package_is_seen_as_it_is(x: LockfilePackage)
    ensures
        x@.version == x.version@,
        x@.bottle == x.bottle@,
{
}

#[derive(Debug, Clone)]
pub struct LockfileCask {
    pub version: String,
}

impl View for LockfileCask {
    type V = Seq<char>;

    open spec fn view(&self) -> Seq<char> {
        self.version@
    }
}

pub struct Lockfile {
    pub packages: Table<LockfilePackage>,
    pub casks: Table<LockfileCask>,
}

/// What is locked of an installed package: its version, and the platform its
/// bottle is for.
pub open spec fn locked(p: InstalledView) -> LockedPackage {
    LockedPackage { version: p.version, bottle: p.platform }
}

impl Lockfile {
    pub open spec fn wf(&self) -> bool {
        self.packages.wf() && self.casks.wf()
    }

    pub fn new() -> (r: Self)
        ensures
            r.wf(),
            table::contents(r.packages) == Map::<Seq<char>, LockedPackage>::empty(),
            table::contents(r.casks) == Map::<Seq<char>, Seq<char>>::empty(),
    {
        let r = Lockfile { packages: Table::new(), casks: Table::new() };
        proof {
            assert(table::contents(r.packages) =~= Map::<Seq<char>, LockedPackage>::empty());
            assert(table::contents(r.casks) =~= Map::<Seq<char>, Seq<char>>::empty());
        }
        r
    }

    /// Locks the installed packages and casks, and nothing else, under the names
    /// that they are recorded by.
    pub fn generate(installed: &Table<InstalledPackage>, installed_casks: &Table<InstalledCask>) -> (r:
        Self)
        requires
            installed.wf(),
            installed_casks.wf(),
        ensures
            r.wf(),
            table::contents(r.packages) == table::contents(*installed).map_values(
                |p: InstalledView| locked(p),
            ),
            table::contents(r.casks) == table::contents(*installed_casks).map_values(
                |c: InstalledCaskView| c.version,
            ),
    {
        let packages = lock_packages(installed);
        let casks = lock_casks(installed_casks);
        Lockfile { packages, casks }
    }

    /// The lockfile lies in `locks` in wax's directory or, where there is no home,
    /// in a directory of that name below the current one.
    pub fn default_path(home: Option<&str>) -> (r: String)
        ensures
            r@ == paths::path_join(
                paths::path_join(
                    match dirs::str_view(home) {
                        Some(h) => paths::path_join(h, ".wax"@),
                        None => ".wax"@,
                    },
                    "locks"@,
                ),
                "wax.lock"@,
            ),
    {
        let dir = match wax_dir(home) {
            Ok(d) => d,
            Err(_) => String::from_str(".wax"),
        };
        below(below(dir.as_str(), "locks").as_str(), "wax.lock")
    }

    /// Refuses a lockfile that is not there.
    pub fn present(found: bool) -> (r: Result<()>)
        ensures
            if found {
                r is Ok
            } else {
                r matches Err(WaxError::LockfileError(m)) && m@
                    == "Lockfile not found. Run 'wax lock' to generate one."@
            },
    {
        if found {
            Ok(())
        } else {
            Err(
                WaxError::LockfileError(
                    String::from_str("Lockfile not found. Run 'wax lock' to generate one."),
                ),
            )
        }
    }
}

fn lock_packages(installed: &Table<InstalledPackage>) -> (r: Table<LockfilePackage>)
    requires
        installed.wf(),
    ensures
        r.wf(),
        table::contents(r) == table::contents(*installed).map_values(|p: InstalledView| locked(p)),
{
    let mut out: Table<LockfilePackage> = Table::new();
    let ghost e = installed.entries@;
    for i in 0..installed.entries.len()
        invariant
            installed.wf(),
            e == installed.entries@,
            out.wf(),
            forall|k: Seq<char>| #[trigger]
                out@.contains_key(k) ==> exists|j: int| 0 <= j < i && table::named_at(e, k, j),
            forall|j: int|
                0 <= j < i ==> #[trigger] out@.contains_key(e[j].name@) && out@[e[j].name@]@
                    == locked(e[j].value@),
    {
        let x = &installed.entries[i];
        let ghost before = out@;
        out.insert(
            x.name.clone(),
            LockfilePackage { version: x.value.version.clone(), bottle: x.value.platform.clone() },
        );
        proof {
            assert(table::named_at(e, x.name@, i as int));
            assert forall|k: Seq<char>| #[trigger] out@.contains_key(k) implies exists|j: int|
                0 <= j < i + 1 && table::named_at(e, k, j) by {
                if k != x.name@ {
                    assert(before.contains_key(k));
                    let j = choose|j: int| 0 <= j < i && table::named_at(e, k, j);
                    assert(0 <= j < i + 1 && table::named_at(e, k, j));
                }
            }
        }
    }
    proof {
        let want = table::contents(*installed).map_values(|p: InstalledView| locked(p));
        assert forall|k: Seq<char>| installed@.contains_key(k) implies out@.contains_key(k)
            && out@[k]@ == locked(installed@[k]@) by {
            let j = choose|j: int| table::named_at(e, k, j);
            table::entry_is_value(*installed, j);
            assert(out@.contains_key(e[j].name@));
        }
        assert forall|k: Seq<char>| out@.contains_key(k) implies installed@.contains_key(k) by {
        }
        assert(table::contents(out) =~= want);
    }
    out
}

fn lock_casks(installed: &Table<InstalledCask>) -> (r: Table<LockfileCask>)
    requires
        installed.wf(),
    ensures
        r.wf(),
        table::contents(r) == table::contents(*installed).map_values(
            |c: InstalledCaskView| c.version,
        ),
{
    let mut out: Table<LockfileCask> = Table::new();
    let ghost e = installed.entries@;
    for i in 0..installed.entries.len()
        invariant
            installed.wf(),
            e == installed.entries@,
            out.wf(),
            forall|k: Seq<char>| #[trigger]
                out@.contains_key(k) ==> exists|j: int| 0 <= j < i && table::named_at(e, k, j),
            forall|j: int|
                0 <= j < i ==> #[trigger] out@.contains_key(e[j].name@) && out@[e[j].name@]@
                    == e[j].value@.version,
    {
        let x = &installed.entries[i];
        let ghost before = out@;
        out.insert(x.name.clone(), LockfileCask { version: x.value.version.clone() });
        proof {
            assert(table::named_at(e, x.name@, i as int));
            assert forall|k: Seq<char>| #[trigger] out@.contains_key(k) implies exists|j: int|
                0 <= j < i + 1 && table::named_at(e, k, j) by {
                if k != x.name@ {
                    assert(before.contains_key(k));
                    let j = choose|j: int| 0 <= j < i && table::named_at(e, k, j);
                    assert(0 <= j < i + 1 && table::named_at(e, k, j));
                }
            }
        }
    }
    proof {
        let want = table::contents(*installed).map_values(|c: InstalledCaskView| c.version);
        assert forall|k: Seq<char>| installed@.contains_key(k) implies out@.contains_key(k)
            && out@[k]@ == installed@[k]@.version by {
            let j = choose|j: int| table::named_at(e, k, j);
            table::entry_is_value(*installed, j);
            assert(out@.contains_key(e[j].name@));
        }
        assert forall|k: Seq<char>| out@.contains_key(k) implies installed@.contains_key(k) by {
        }
        assert(table::contents(out) =~= want);
    }
    out
}

/// A package is locked to the version and the platform that it is installed with; nothing
/// else of it counts.
pub proof fn locking_keeps_version_and_platform(p: InstalledView, q: InstalledView)
    ensures
        locked(p).version == p.version,
        locked(p).bottle == p.platform,
        p.version == q.version && p.platform == q.platform ==> locked(p) == locked(q),
{
}

}
