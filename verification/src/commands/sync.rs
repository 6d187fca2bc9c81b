//! Installing what a lockfile names.
use crate::api::{find_first, Formula, FormulaView};
use crate::commands::install::{content_dir, source_record};
use crate::commands::lock;
use crate::commands::lock::add_packages;
use crate::error::{ErrorView, Result, WaxError};
use crate::install::{InstallMode, InstalledPackage, InstalledView};
use crate::lockfile::{LockedPackage, Lockfile, LockfilePackage};
use crate::table::Table;
use crate::text::{number, same_str};
use crate::{api, lockfile, paths, table, text};
use vstd::prelude::*;

verus! {

/// What a lockfile asks to be fetched.
#[derive(Debug)]
pub struct SyncItem {
    pub name: String,
    pub version: String,
    pub platform: String,
    pub url: String,
    pub sha256: String,
}

/// The mathematical content of a `SyncItem`.
pub struct SyncItemView {
    pub name: Seq<char>,
    pub version: Seq<char>,
    pub platform: Seq<char>,
    pub url: Seq<char>,
    pub sha256: Seq<char>,
}

impl View for SyncItem {
    type V = SyncItemView;

    open spec fn view(&self) -> SyncItemView {
        SyncItemView {
            name: self.name@,
            version: self.version@,
            platform: self.platform@,
            url: self.url@,
            sha256: self.sha256@,
        }
    }
}

/// A `SyncItem` is seen as what it holds.
pub proof fn sync_item_is_seen_as_it_is(x: SyncItem)
    ensures
        x@.name == x.name@,
        x@.version == x.version@,
        x@.platform == x.platform@,
        x@.url == x.url@,
        x@.sha256 == x.sha256@,
{
}

pub open spec fn item_views(v: Seq<SyncItem>) -> Seq<SyncItemView> {
    Seq::new(v.len(), |i: int| v[i]@)
}

/// A locked package has to be installed where it is not, or where its version or
/// its platform is another.
pub open spec fn is_missing(
    name: Seq<char>,
    l: LockedPackage,
    installed: Map<Seq<char>, InstalledView>,
) -> bool {
    !installed.contains_key(name) || installed[name].version != l.version
        || installed[name].platform != l.bottle
}

pub open spec fn locked_entries(v: Seq<crate::table::Entry<LockfilePackage>>) -> Seq<
    (Seq<char>, LockedPackage),
> {
    Seq::new(v.len(), |i: int| (v[i].name@, v[i].value@))
}

/// Whether a locked package has to be installed.
pub fn needs_install(name: &str, locked: &LockfilePackage, installed: &Table<InstalledPackage>) -> (r:
    bool)
    requires
        installed.wf(),
    ensures
        r == is_missing(name@, locked@, table::contents(*installed)),
{
    match installed.get(name) {
        Some(i) => !same_str(i.version.as_str(), locked.version.as_str()) || !same_str(
            i.platform.as_str(),
            locked.bottle.as_str(),
        ),
        None => true,
    }
}

/// What a locked package asks to be fetched: the bottle of its version, which has
/// to be the latest, for its platform or for all.
pub open spec fn item_of(name: Seq<char>, l: LockedPackage, f: Seq<FormulaView>) -> std::result::Result<
    SyncItemView,
    ErrorView,
> {
    match api::first_named(f, name) {
        None => Err(ErrorView::FormulaNotFound(name)),
        Some(formula) => if formula.stable != l.version {
            Err(
                ErrorView::LockfileError(
                    "Package "@ + name + " version mismatch: lockfile specifies "@ + l.version
                        + " but latest available is "@ + formula.stable
                        + ". The locked version may no longer be available."@,
                ),
            )
        } else if formula.bottle is None {
            Err(ErrorView::BottleNotAvailable(name + " (no bottle info)"@))
        } else {
            match formula.file_for(l.bottle) {
                None => Err(
                    ErrorView::BottleNotAvailable(name + " for platform "@ + l.bottle),
                ),
                Some(b) => Ok(
                    SyncItemView {
                        name,
                        version: l.version,
                        platform: l.bottle,
                        url: b.url,
                        sha256: b.sha256,
                    },
                ),
            }
        },
    }
}

/// What a locked package asks to be fetched.
pub fn sync_item(name: &str, locked: &LockfilePackage, formulae: &Vec<Formula>) -> (r: Result<SyncItem>)
    requires
        api::formulae_wf(formulae@),
    ensures
        match item_of(name@, locked@, api::formula_views(formulae@)) {
            Ok(i) => r matches Ok(x) && x@ == i,
            Err(e) => r matches Err(x) && x@ == e,
        },
{
    let formula = match find_first(formulae, name) {
        Some(f) => f,
        None => {
            return Err(WaxError::FormulaNotFound(String::from_str(name)));
        },
    };
    if !same_str(formula.stable.as_str(), locked.version.as_str()) {
        let mut m = String::from_str("Package ");
        m.append(name);
        m.append(" version mismatch: lockfile specifies ");
        m.append(locked.version.as_str());
        m.append(" but latest available is ");
        m.append(formula.stable.as_str());
        m.append(". The locked version may no longer be available.");
        return Err(WaxError::LockfileError(m));
    }
    if formula.bottle.is_none() {
        let mut m = String::from_str(name);
        m.append(" (no bottle info)");
        return Err(WaxError::BottleNotAvailable(m));
    }
    match formula.bottle_file(locked.bottle.as_str()) {
        None => {
            let mut m = String::from_str(name);
            m.append(" for platform ");
            m.append(locked.bottle.as_str());
            Err(WaxError::BottleNotAvailable(m))
        },
        Some(b) => Ok(
            SyncItem {
                name: String::from_str(name),
                version: locked.version.clone(),
                platform: locked.bottle.clone(),
                url: b.url.clone(),
                sha256: b.sha256.clone(),
            },
        ),
    }
}

/// What a lockfile asks to be fetched, or the first reason why it cannot be.
pub open spec fn items_of(
    e: Seq<(Seq<char>, LockedPackage)>,
    installed: Map<Seq<char>, InstalledView>,
    f: Seq<FormulaView>,
) -> std::result::Result<Seq<SyncItemView>, ErrorView>
    decreases e.len(),
{
    if e.len() == 0 {
        Ok(Seq::empty())
    } else {
        match items_of(e.drop_last(), installed, f) {
            Err(x) => Err(x),
            Ok(before) => if !is_missing(e.last().0, e.last().1, installed) {
                Ok(before)
            } else {
                match item_of(e.last().0, e.last().1, f) {
                    Err(x) => Err(x),
                    Ok(i) => Ok(before.push(i)),
                }
            },
        }
    }
}

/// An error stays, whatever comes after it.
proof fn error_stays(
    e: Seq<(Seq<char>, LockedPackage)>,
    installed: Map<Seq<char>, InstalledView>,
    f: Seq<FormulaView>,
    i: int,
)
    requires
        0 <= i <= e.len(),
        items_of(e.take(i), installed, f) is Err,
    ensures
        items_of(e, installed, f) == items_of(e.take(i), installed, f),
    decreases e.len(),
{
    if i == e.len() {
        assert(e.take(i) =~= e);
    } else {
        assert(e.drop_last().take(i) =~= e.take(i));
        error_stays(e.drop_last(), installed, f, i);
    }
}

/// What a lockfile asks to be fetched.
pub fn sync(
    packages: &Table<LockfilePackage>,
    installed: &Table<InstalledPackage>,
    formulae: &Vec<Formula>,
) -> (r: Result<Vec<SyncItem>>)
    requires
        installed.wf(),
        api::formulae_wf(formulae@),
    ensures
        match items_of(
            locked_entries(packages.entries@),
            table::contents(*installed),
            api::formula_views(formulae@),
        ) {
            Ok(v) => r matches Ok(x) && item_views(x@) == v,
            Err(e) => r matches Err(x) && x@ == e,
        },
{
    let ghost e = locked_entries(packages.entries@);
    let ghost m = table::contents(*installed);
    let ghost f = api::formula_views(formulae@);
    let mut out: Vec<SyncItem> = Vec::new();
    proof {
        assert(item_views(out@) =~= Seq::empty());
    }
    for i in 0..packages.entries.len()
        invariant
            installed.wf(),
            api::formulae_wf(formulae@),
            e == locked_entries(packages.entries@),
            m == table::contents(*installed),
            f == api::formula_views(formulae@),
            items_of(e.take(i as int), m, f) == Ok::<Seq<SyncItemView>, ErrorView>(item_views(out@)),
    {
        let x = &packages.entries[i];
        let ghost before = item_views(out@);
        proof {
            assert(e.take(i + 1).drop_last() =~= e.take(i as int));
            assert(e.take(i + 1).last() == (x.name@, x.value@));
        }
        if needs_install(x.name.as_str(), &x.value, installed) {
            match sync_item(x.name.as_str(), &x.value, formulae) {
                Ok(item) => {
                    out.push(item);
                    proof {
                        assert(item_views(out@) =~= before.push(item@));
                    }
                },
                Err(err) => {
                    proof {
                        error_stays(e, m, f, i + 1);
                    }
                    return Err(err);
                },
            }
        }
    }
    proof {
        assert(e.take(e.len() as int) =~= e);
    }
    Ok(out)
}

/// What a lockfile asks to be fetched, where packages that were found without a
/// record count as installed.
pub fn sync_with_found(
    packages: &Table<LockfilePackage>,
    installed: Table<InstalledPackage>,
    found: Vec<InstalledPackage>,
    formulae: &Vec<Formula>,
) -> (r: Result<Vec<SyncItem>>)
    requires
        installed.wf(),
        api::formulae_wf(formulae@),
    ensures
        match items_of(
            locked_entries(packages.entries@),
            lock::with_packages(table::contents(installed), lock::package_records(found@)),
            api::formula_views(formulae@),
        ) {
            Ok(v) => r matches Ok(x) && item_views(x@) == v,
            Err(e) => r matches Err(x) && x@ == e,
        },
{
    let mut all = installed;
    add_packages(&mut all, found);
    sync(packages, &all, formulae)
}

/// Nothing is fetched where all that is locked is installed as it is locked.
pub proof fn synced_needs_nothing(
    e: Seq<(Seq<char>, LockedPackage)>,
    installed: Map<Seq<char>, InstalledView>,
    f: Seq<FormulaView>,
)
    requires
        forall|i: int| 0 <= i < e.len() ==> !is_missing((#[trigger] e[i]).0, e[i].1, installed),
    ensures
        items_of(e, installed, f) == Ok::<Seq<SyncItemView>, ErrorView>(Seq::empty()),
    decreases e.len(),
{
    if e.len() > 0 {
        assert(!is_missing(e[e.len() - 1].0, e[e.len() - 1].1, installed));
        assert forall|i: int| 0 <= i < e.drop_last().len() implies !is_missing(
            (#[trigger] e.drop_last()[i]).0,
            e.drop_last()[i].1,
            installed,
        ) by {
            assert(e.drop_last()[i] == e[i]);
        }
        synced_needs_nothing(e.drop_last(), installed, f);
    }
}

/// A lockfile that was just generated asks for nothing: all that it locks is
/// installed as it is locked.
pub proof fn fresh_lockfile_needs_nothing(
    packages: Table<LockfilePackage>,
    installed: Map<Seq<char>, InstalledView>,
    f: Seq<FormulaView>,
)
    requires
        packages.wf(),
        table::contents(packages) == installed.map_values(|p: InstalledView| lockfile::locked(p)),
    ensures
        items_of(locked_entries(packages.entries@), installed, f) == Ok::<
            Seq<SyncItemView>,
            ErrorView,
        >(Seq::empty()),
{
    let e = locked_entries(packages.entries@);
    assert forall|i: int| 0 <= i < e.len() implies !is_missing(
        (#[trigger] e[i]).0,
        e[i].1,
        installed,
    ) by {
        table::entry_is_value(packages, i);
        let name = packages.entries@[i].name@;
        assert(table::named_at(packages.entries@, name, i));
        assert(packages@.contains_key(name));
        assert(table::contents(packages).contains_key(name));
        assert(table::contents(packages)[name] == packages.entries@[i].value@);
        assert(installed.contains_key(name));
    }
    synced_needs_nothing(e, installed, f);
}

/// Locking and then syncing asks for nothing, whatever was found besides the
/// record: the lockfile of all that is there is met by all that is there.
pub proof fn locked_is_synced(
    lockfile: Lockfile,
    installed: Map<Seq<char>, InstalledView>,
    found: Seq<InstalledView>,
    f: Seq<FormulaView>,
)
    requires
        lockfile.wf(),
        table::contents(lockfile.packages) == lock::with_packages(installed, found).map_values(
            |p: InstalledView| lockfile::locked(p),
        ),
    ensures
        items_of(
            locked_entries(lockfile.packages.entries@),
            lock::with_packages(installed, found),
            f,
        ) == Ok::<Seq<SyncItemView>, ErrorView>(Seq::empty()),
{
    fresh_lockfile_needs_nothing(lockfile.packages, lock::with_packages(installed, found), f);
}

/// What is recorded of a package that was synced.
pub open spec fn synced_record(i: SyncItemView, mode: InstallMode, now: int) -> InstalledView {
    InstalledView {
        name: i.name,
        version: i.version,
        platform: i.platform,
        install_date: now,
        install_mode: mode,
        from_source: false,
        bottle_rebuild: 0,
        bottle_sha256: None,
        pinned: false,
    }
}

/// The record once all items are installed.
pub open spec fn with_synced(
    installed: Map<Seq<char>, InstalledView>,
    items: Seq<SyncItemView>,
    mode: InstallMode,
    now: int,
) -> Map<Seq<char>, InstalledView>
    decreases items.len(),
{
    if items.len() == 0 {
        installed
    } else {
        with_synced(installed, items.drop_last(), mode, now).insert(
            items.last().name,
            synced_record(items.last(), mode, now),
        )
    }
}

/// What is recorded of a package that was synced.
pub fn record_synced(item: &SyncItem, install_mode: InstallMode, now: i64) -> (r: InstalledPackage)
    ensures
        r@ == synced_record(item@, install_mode, now as int),
{
    source_record(
        item.name.as_str(),
        item.version.as_str(),
        item.platform.as_str(),
        install_mode,
        false,
        now,
    )
}

/// Where the content of a fetched package lies: in the directory of its version,
/// if that is there.
pub fn synced_content(extract_dir: &str, item: &SyncItem, version_dir_exists: bool) -> (r: String)
    ensures
        r@ == if version_dir_exists {
            paths::path_join(paths::path_join(extract_dir@, item@.name), item@.version)
        } else {
            extract_dir@
        },
{
    content_dir(
        extract_dir,
        item.name.as_str(),
        item.version.as_str(),
        version_dir_exists,
        false,
    )
}

/// The records of names that no item has stay.
proof fn others_stay(
    installed: Map<Seq<char>, InstalledView>,
    items: Seq<SyncItemView>,
    mode: InstallMode,
    now: int,
    name: Seq<char>,
)
    requires
        forall|i: int| 0 <= i < items.len() ==> (#[trigger] items[i]).name != name,
    ensures
        with_synced(installed, items, mode, now).contains_key(name) == installed.contains_key(name),
        installed.contains_key(name) ==> with_synced(installed, items, mode, now)[name]
            == installed[name],
    decreases items.len(),
{
    if items.len() > 0 {
        assert forall|i: int| 0 <= i < items.drop_last().len() implies (
        #[trigger] items.drop_last()[i]).name != name by {
            assert(items.drop_last()[i] == items[i]);
        }
        others_stay(installed, items.drop_last(), mode, now, name);
    }
}

/// Each item comes from an entry of the lockfile.
proof fn items_are_locked(
    e: Seq<(Seq<char>, LockedPackage)>,
    installed: Map<Seq<char>, InstalledView>,
    f: Seq<FormulaView>,
    i: int,
)
    requires
        items_of(e, installed, f) is Ok,
        0 <= i < items_of(e, installed, f)->Ok_0.len(),
    ensures
        exists|k: int|
            0 <= k < e.len() && (#[trigger] e[k]).0 == items_of(e, installed, f)->Ok_0[i].name,
    decreases e.len(),
{
    if e.len() > 0 {
        let before = items_of(e.drop_last(), installed, f)->Ok_0;
        if i < before.len() {
            items_are_locked(e.drop_last(), installed, f, i);
            let k = choose|k: int|
                0 <= k < e.drop_last().len() && (#[trigger] e.drop_last()[k]).0 == before[i].name;
            assert(e[k].0 == before[i].name);
        } else {
            assert(e[e.len() - 1].0 == e.last().0);
        }
    }
}

/// Once the items of a lockfile are recorded, each of its packages is installed
/// as it is locked.
proof fn recorded_as_locked(
    e: Seq<(Seq<char>, LockedPackage)>,
    installed: Map<Seq<char>, InstalledView>,
    f: Seq<FormulaView>,
    mode: InstallMode,
    now: int,
    k: int,
)
    requires
        forall|i: int, j: int|
            0 <= i < j < e.len() ==> (#[trigger] e[i]).0 != (#[trigger] e[j]).0,
        items_of(e, installed, f) is Ok,
        0 <= k < e.len(),
    ensures
        !is_missing(
            e[k].0,
            e[k].1,
            with_synced(installed, items_of(e, installed, f)->Ok_0, mode, now),
        ),
    decreases e.len(),
{
    let d = e.drop_last();
    let items = items_of(e, installed, f)->Ok_0;
    let before = items_of(d, installed, f)->Ok_0;
    assert forall|i: int, j: int| 0 <= i < j < d.len() implies (#[trigger] d[i]).0 != (
    #[trigger] d[j]).0 by {
        assert(e[i].0 != e[j].0);
    }
    if k < d.len() {
        recorded_as_locked(d, installed, f, mode, now, k);
        assert(d[k] == e[k]);
        if is_missing(e.last().0, e.last().1, installed) {
            assert(items.drop_last() =~= before);
            assert(e[k].0 != e[e.len() - 1].0);
        } else {
            assert(items == before);
        }
    } else {
        assert forall|i: int| 0 <= i < before.len() implies (#[trigger] before[i]).name
            != e.last().0 by {
            items_are_locked(d, installed, f, i);
            let m = choose|m: int| 0 <= m < d.len() && (#[trigger] d[m]).0 == before[i].name;
            assert(e[m].0 != e[e.len() - 1].0);
        }
        if is_missing(e.last().0, e.last().1, installed) {
            assert(items.drop_last() =~= before);
            assert(items.last().name == e.last().0);
        } else {
            others_stay(installed, before, mode, now, e.last().0);
        }
    }
}

/// A sync settles the matter: once all that a lockfile asks for is installed and
/// recorded, the same lockfile asks for nothing more.
pub proof fn syncing_settles(
    packages: Table<LockfilePackage>,
    installed: Map<Seq<char>, InstalledView>,
    f: Seq<FormulaView>,
    mode: InstallMode,
    now: int,
)
    requires
        packages.wf(),
        items_of(locked_entries(packages.entries@), installed, f) is Ok,
    ensures
        items_of(
            locked_entries(packages.entries@),
            with_synced(
                installed,
                items_of(locked_entries(packages.entries@), installed, f)->Ok_0,
                mode,
                now,
            ),
            f,
        ) == Ok::<Seq<SyncItemView>, ErrorView>(Seq::empty()),
{
    let e = locked_entries(packages.entries@);
    let settled = with_synced(installed, items_of(e, installed, f)->Ok_0, mode, now);
    assert forall|i: int, j: int| 0 <= i < j < e.len() implies (#[trigger] e[i]).0 != (
    #[trigger] e[j]).0 by {
        assert(packages.entries@[i].name@ != packages.entries@[j].name@);
    }
    assert forall|k: int| 0 <= k < e.len() implies !is_missing(
        (#[trigger] e[k]).0,
        e[k].1,
        settled,
    ) by {
        recorded_as_locked(e, installed, f, mode, now, k);
    }
    synced_needs_nothing(e, settled, f);
}

/// What is said where a package is locked for another platform.
pub fn platform_note(name: &str, locked: &str, current: &str) -> (r: Option<String>)
    ensures
        text::opt_view(r) == if locked@ == current@ {
            None
        } else {
            Some("platform mismatch for "@ + name@ + ": "@ + locked@ + " → "@ + current@)
        },
{
    if same_str(locked, current) {
        return None;
    }
    let mut m = String::from_str("platform mismatch for ");
    m.append(name);
    m.append(": ");
    m.append(locked);
    m.append(" → ");
    m.append(current);
    Some(m)
}

/// The last line of a sync.
pub fn sync_summary(count: usize, ms: u128) -> (r: String)
    ensures
        r@ == text::decimal(count as nat) + (if count == 1 {
            " package"@
        } else {
            " packages"@
        }) + " synced ["@ + text::decimal(ms as nat) + "ms]"@,
{
    let mut m = number(count as u128);
    if count == 1 {
        m.append(" package");
    } else {
        m.append(" packages");
    }
    m.append(" synced [");
    m.append(number(ms).as_str());
    m.append("ms]");
    m
}

// ---------------------------------------------------------------------------
// Laws of single packages

/// A locked package is missing exactly where it is not recorded with the version and for
/// the platform that are locked.
pub proof fn missing_is_not_as_locked(
    name: Seq<char>,
    l: LockedPackage,
    installed: Map<Seq<char>, InstalledView>,
)
    ensures
        !installed.contains_key(name) ==> is_missing(name, l, installed),
        installed.contains_key(name) ==> (is_missing(name, l, installed) <==> installed[name].version
            != l.version || installed[name].platform != l.bottle),
{
}

/// What is installed for a locked package is the bottle of the locked version for the
/// locked platform; where the index has another version, or no such bottle, it is an
/// error.
pub proof fn locked_bottles_are_installed(
    name: Seq<char>,
    l: LockedPackage,
    f: Seq<FormulaView>,
    x: FormulaView,
)
    ensures
        api::first_named(f, name) is None ==> item_of(name, l, f) == Err::<SyncItemView, ErrorView>(
            ErrorView::FormulaNotFound(name),
        ),
        api::first_named(f, name) == Some(x) ==> ({
            &&& x.stable != l.version ==> (item_of(name, l, f) matches Err(
                ErrorView::LockfileError(_),
            ))
            &&& x.stable == l.version && x.file_for(l.bottle) is None ==> (item_of(
                name,
                l,
                f,
            ) matches Err(ErrorView::BottleNotAvailable(_)))
            &&& x.stable == l.version ==> (x.file_for(l.bottle) matches Some(b) ==> item_of(
                name,
                l,
                f,
            ) == Ok::<SyncItemView, ErrorView>(
                SyncItemView {
                    name,
                    version: l.version,
                    platform: l.bottle,
                    url: b.url,
                    sha256: b.sha256,
                },
            ))
        }),
{
    if api::first_named(f, name) == Some(x) && x.bottle is None {
        api::no_bottle_for_any_platform(x, l.bottle);
    }
}

/// Exactly the locked packages that are missing are installed, in their order; an error
/// with one of them is the answer to all.
pub proof fn missing_packages_are_installed(
    e: Seq<(Seq<char>, LockedPackage)>,
    name: Seq<char>,
    l: LockedPackage,
    installed: Map<Seq<char>, InstalledView>,
    f: Seq<FormulaView>,
    before: Seq<SyncItemView>,
)
    requires
        items_of(e, installed, f) == Ok::<Seq<SyncItemView>, ErrorView>(before),
    ensures
        !is_missing(name, l, installed) ==> items_of(e.push((name, l)), installed, f) == Ok::<
            Seq<SyncItemView>,
            ErrorView,
        >(before),
        is_missing(name, l, installed) ==> match item_of(name, l, f) {
            Ok(i) => items_of(e.push((name, l)), installed, f) == Ok::<Seq<SyncItemView>, ErrorView>(
                before.push(i),
            ),
            Err(x) => items_of(e.push((name, l)), installed, f) == Err::<
                Seq<SyncItemView>,
                ErrorView,
            >(x),
        },
{
    assert(e.push((name, l)).drop_last() =~= e);
}

/// A package that was synced is recorded as what was locked, as a bottle that is not
/// pinned, in the mode and at the time that it was installed.
pub proof fn synced_is_recorded(
    installed: Map<Seq<char>, InstalledView>,
    items: Seq<SyncItemView>,
    i: SyncItemView,
    mode: InstallMode,
    now: int,
)
    ensures
        ({
            let m = with_synced(installed, items.push(i), mode, now);
            &&& m.contains_key(i.name)
            &&& m[i.name].name == i.name && m[i.name].version == i.version && m[i.name].platform
                == i.platform
            &&& m[i.name].install_mode == mode && m[i.name].install_date == now
            &&& !m[i.name].from_source && !m[i.name].pinned
            &&& !is_missing(i.name, LockedPackage { version: i.version, bottle: i.platform }, m)
        }),
        with_synced(installed, Seq::empty(), mode, now) == installed,
{
    assert(items.push(i).drop_last() =~= items);
}

/// A locked package that cannot be had is told with the reason: both versions where they
/// differ, or the platform that has no bottle.
pub proof fn reasons_are_told(name: Seq<char>, l: LockedPackage, f: Seq<FormulaView>, x: FormulaView)
    requires
        api::first_named(f, name) == Some(x),
    ensures
        x.stable != l.version ==> item_of(name, l, f) == Err::<SyncItemView, ErrorView>(
            ErrorView::LockfileError(
                "Package "@ + name + " version mismatch: lockfile specifies "@ + l.version
                    + " but latest available is "@ + x.stable
                    + ". The locked version may no longer be available."@,
            ),
        ),
        x.stable == l.version && x.bottle is None ==> item_of(name, l, f) == Err::<
            SyncItemView,
            ErrorView,
        >(ErrorView::BottleNotAvailable(name + " (no bottle info)"@)),
        x.stable == l.version && x.bottle is Some && x.file_for(l.bottle) is None ==> item_of(
            name,
            l,
            f,
        ) == Err::<SyncItemView, ErrorView>(
            ErrorView::BottleNotAvailable(name + " for platform "@ + l.bottle),
        ),
{
}

}
