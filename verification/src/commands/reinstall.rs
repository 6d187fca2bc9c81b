//! Installing packages again.
use crate::error::{Result, WaxError};
use crate::install::{InstallMode, InstalledPackage};
use crate::order::sort_by_key;
use crate::table::Table;
use crate::text::{copied, number};
use crate::{order, table, text};
use vstd::prelude::*;

verus! {

/// The names in a table, in its order.
pub open spec fn names_in<V>(e: Seq<crate::table::Entry<V>>) -> Seq<Seq<char>> {
    Seq::new(e.len(), |i: int| e[i].name@)
}

/// The names in a table, sorted.
pub fn sorted_names<V>(t: &Table<V>) -> (r: Vec<String>)
    ensures
        text::views(r@) == order::sort(names_in(t.entries@)),
{
    let mut out: Vec<String> = Vec::new();
    for i in 0..t.entries.len()
        invariant
            out@.len() == i,
            forall|j: int| 0 <= j < i ==> (#[trigger] out@[j])@ == t.entries@[j].name@,
    {
        out.push(t.entries[i].name.clone());
    }
    proof {
        assert(order::shown_all(out@) =~= names_in(t.entries@));
    }
    sort_by_key(&mut out);
    proof {
        assert(order::shown_all(out@) =~= text::views(out@));
    }
    out
}

/// The packages that are meant: all that are installed, by name, or those that
/// are named, of which there has to be one.
pub fn selected(packages: &Vec<String>, all: bool, installed: &Table<InstalledPackage>, none: &str) -> (r:
    Result<Vec<String>>)
    ensures
        if all {
            r matches Ok(v) && text::views(v@) == order::sort(names_in(installed.entries@))
        } else if packages@.len() == 0 {
            r matches Err(WaxError::InvalidInput(m)) && m@ == none@
        } else {
            r matches Ok(v) && text::views(v@) == text::views(packages@)
        },
{
    if all {
        Ok(sorted_names(installed))
    } else if packages.len() == 0 {
        Err(WaxError::InvalidInput(String::from_str(none)))
    } else {
        Ok(copied(packages))
    }
}

/// The packages to be installed again.
pub fn reinstall(packages: &Vec<String>, all: bool, installed: &Table<InstalledPackage>) -> (r: Result<
    Vec<String>,
>)
    ensures
        if all {
            r matches Ok(v) && text::views(v@) == order::sort(names_in(installed.entries@))
        } else if packages@.len() == 0 {
            r matches Err(WaxError::InvalidInput(m)) && m@
                == "Specify package name(s) or use --all to reinstall everything"@
        } else {
            r matches Ok(v) && text::views(v@) == text::views(packages@)
        },
{
    selected(
        packages,
        all,
        installed,
        "Specify package name(s) or use --all to reinstall everything",
    )
}

/// How one of the packages is installed again: whether it is removed first, and
/// the flags for the mode that it was installed in.
#[derive(Debug, Clone, Copy, PartialEq, Eq, Structural)]
pub struct ReinstallStep {
    pub remove: bool,
    pub user: bool,
    pub global: bool,
}

pub fn reinstall_step(name: &str, installed: &Table<InstalledPackage>) -> (r: ReinstallStep)
    requires
        installed.wf(),
    ensures
        r.remove == installed@.contains_key(name@),
        r.user == (installed@.contains_key(name@) && installed@[name@].install_mode
            == InstallMode::User),
        r.global == (installed@.contains_key(name@) && installed@[name@].install_mode
            == InstallMode::Global),
{
    let mode = match installed.get(name) {
        Some(p) => Some(p.install_mode),
        None => None,
    };
    let (user, global) = InstallMode::flags(mode);
    ReinstallStep { remove: mode.is_some(), user, global }
}

/// What stands before a package's name, where there are several.
pub fn position_prefix(index: usize, total: usize) -> (r: String)
    requires
        index < usize::MAX,
    ensures
        r@ == if total > 1 {
            "["@ + text::decimal((index + 1) as nat) + "/"@ + text::decimal(total as nat) + "] "@
        } else {
            ""@
        },
{
    if total > 1 {
        let mut m = String::from_str("[");
        m.append(number(index as u128 + 1).as_str());
        m.append("/");
        m.append(number(total as u128).as_str());
        m.append("] ");
        m
    } else {
        String::from_str("")
    }
}

/// The version that is shown of a package that was installed again.
pub fn shown_version(name: &str, installed: &Table<InstalledPackage>) -> (r: String)
    requires
        installed.wf(),
    ensures
        r@ == if installed@.contains_key(name@) {
            installed@[name@].version@
        } else {
            "latest"@
        },
{
    match installed.get(name) {
        Some(p) => p.version.clone(),
        None => String::from_str("latest"),
    }
}

/// The last line.
pub fn reinstall_summary(total: usize, ms: u128) -> (r: String)
    ensures
        r@ == text::decimal(total as nat) + (if total == 1 {
            " package"@
        } else {
            " packages"@
        }) + " reinstalled ["@ + text::decimal(ms as nat) + "ms]"@,
{
    let mut m = number(total as u128);
    if total == 1 {
        m.append(" package");
    } else {
        m.append(" packages");
    }
    m.append(" reinstalled [");
    m.append(number(ms).as_str());
    m.append("ms]");
    m
}

/// The names of a table are those of its entries.
pub proof fn names_are_those_of_entries<V>(e: Seq<crate::table::Entry<V>>, i: int)
    ensures
        names_in(e).len() == e.len(),
        0 <= i < e.len() ==> names_in(e)[i] == e[i].name@,
{
}

}
