//! Removing packages.
use crate::cask::{InstalledCask, InstalledCaskView};
use crate::commands::reinstall;
use crate::commands::reinstall::selected;
use crate::error::{Result, WaxError};
use crate::install::InstalledPackage;
use crate::paths::below;
use crate::table::Table;
use crate::text::same_str;
use crate::{cask, order, paths, text};
use vstd::prelude::*;

verus! {

/// The packages to be removed.
pub fn uninstall(packages: &Vec<String>, all: bool, installed: &Table<InstalledPackage>) -> (r: Result<
    Vec<String>,
>)
    ensures
        if all {
            r matches Ok(v) && text::views(v@) == order::sort(
                reinstall::names_in(installed.entries@),
            )
        } else if packages@.len() == 0 {
            r matches Err(WaxError::InvalidInput(m)) && m@
                == "Specify package name(s) or use --all to uninstall everything"@
        } else {
            r matches Ok(v) && text::views(v@) == text::views(packages@)
        },
{
    selected(
        packages,
        all,
        installed,
        "Specify package name(s) or use --all to uninstall everything",
    )
}

/// What a name that is to be removed stands for.
#[derive(Debug, Clone, Copy, PartialEq, Eq, Structural)]
pub enum Removal {
    /// A package that is recorded.
    Package,
    Cask,
    /// A package that was only found in the Cellar.
    Found,
}

/// What a name that is to be removed stands for: a cask, where that is asked for;
/// or else a package, a cask, or a package that only the Cellar shows.
pub fn removal_of(
    name: &str,
    cask: bool,
    recorded: bool,
    cask_recorded: bool,
    found_in_cellar: bool,
) -> (r: Result<Removal>)
    ensures
        if cask {
            r == Ok::<Removal, WaxError>(Removal::Cask)
        } else if recorded {
            r == Ok::<Removal, WaxError>(Removal::Package)
        } else if cask_recorded {
            r == Ok::<Removal, WaxError>(Removal::Cask)
        } else if found_in_cellar {
            r == Ok::<Removal, WaxError>(Removal::Found)
        } else {
            r matches Err(WaxError::NotInstalled(n)) && n@ == name@
        },
{
    if cask {
        Ok(Removal::Cask)
    } else if recorded {
        Ok(Removal::Package)
    } else if cask_recorded {
        Ok(Removal::Cask)
    } else if found_in_cellar {
        Ok(Removal::Found)
    } else {
        Err(WaxError::NotInstalled(String::from_str(name)))
    }
}

/// Whether the removal of a package is to be confirmed: others depend on it, and
/// it is neither a trial run nor agreed to beforehand.
pub fn asks_first(dependents: usize, dry_run: bool, yes: bool, quiet: bool) -> (r: bool)
    ensures
        r == (dependents > 0 && !quiet && !dry_run && !yes),
{
    dependents > 0 && !quiet && !dry_run && !yes
}

/// What is done to remove a package.
#[derive(Debug)]
pub enum PackageRemoval {
    /// Nothing: it is only a trial.
    Trial,
    /// The links of this version are removed, then this directory, if it is there,
    /// and then the record.
    Remove { version: String, dir: String },
}

/// The mathematical content of a `PackageRemoval`.
pub enum PackageRemovalView {
    Trial,
    Remove { version: Seq<char>, dir: Seq<char> },
}

impl View for PackageRemoval {
    type V = PackageRemovalView;

    open spec fn view(&self) -> PackageRemovalView {
        match *self {
            PackageRemoval::Trial => PackageRemovalView::Trial,
            PackageRemoval::Remove { version, dir } => PackageRemovalView::Remove {
                version: version@,
                dir: dir@,
            },
        }
    }
}

/// A `PackageRemoval` is seen as what it holds.
pub proof fn package_removal_is_seen_as_it_is(x: PackageRemoval)
    ensures
        x is Trial ==> x@ == PackageRemovalView::Trial,
        x matches PackageRemoval::Remove { version, dir } ==> x@ == (PackageRemovalView::Remove {
            version: version@,
            dir: dir@,
        }),
{
}

/// What is done to remove a package: the links of the recorded version go, and the
/// package's directory with all its versions.
pub fn uninstall_package_direct(name: &str, package: &InstalledPackage, cellar: &str, dry_run: bool) -> (r:
    PackageRemoval)
    ensures
        r@ == if dry_run {
            PackageRemovalView::Trial
        } else {
            PackageRemovalView::Remove {
                version: package@.version,
                dir: paths::path_join(cellar@, name@),
            }
        },
{
    if dry_run {
        return PackageRemoval::Trial;
    }
    PackageRemoval::Remove { version: package.version.clone(), dir: below(cellar, name) }
}

/// What is removed with a cask.
#[derive(Debug)]
pub enum CaskRemoval {
    /// These files, those of them that are there.
    Files(Vec<String>),
    /// Nothing: its files are not known.
    Unknown,
    /// This app, if it is there.
    App(String),
    /// Nothing: it is only a trial.
    Trial,
}

/// The mathematical content of a `CaskRemoval`.
pub enum CaskRemovalView {
    Files(Seq<Seq<char>>),
    Unknown,
    App(Seq<char>),
    Trial,
}

impl View for CaskRemoval {
    type V = CaskRemovalView;

    open spec fn view(&self) -> CaskRemovalView {
        match *self {
            CaskRemoval::Files(v) => CaskRemovalView::Files(text::views(v@)),
            CaskRemoval::Unknown => CaskRemovalView::Unknown,
            CaskRemoval::App(p) => CaskRemovalView::App(p@),
            CaskRemoval::Trial => CaskRemovalView::Trial,
        }
    }
}

/// A `CaskRemoval` is seen as what it holds.
pub proof fn cask_removal_is_seen_as_it_is(x: CaskRemoval)
    ensures
        x matches CaskRemoval::Files(v) ==> x@ == (CaskRemovalView::Files(text::views(v@))),
        x is Unknown ==> x@ == CaskRemovalView::Unknown,
        x matches CaskRemoval::App(p) ==> x@ == (CaskRemovalView::App(p@)),
        x is Trial ==> x@ == CaskRemovalView::Trial,
{
}

/// What is removed with a cask: the binaries of an archive; of a package, nothing;
/// and of anything else the app, which only macOS has.
pub open spec fn removal_in(c: InstalledCaskView, name: Seq<char>, macos: bool) -> Option<
    CaskRemovalView,
> {
    let kind = match c.artifact_type {
        Some(t) => t,
        None => "dmg"@,
    };
    if kind == "tar.gz"@ {
        Some(
            CaskRemovalView::Files(
                match c.binary_paths {
                    Some(v) => v,
                    None => Seq::empty(),
                },
            ),
        )
    } else if kind == "pkg"@ {
        Some(CaskRemovalView::Unknown)
    } else if macos {
        Some(
            CaskRemovalView::App(
                paths::path_join(
                    "/Applications"@,
                    match c.app_name {
                        Some(a) => a,
                        None => name + ".app"@,
                    },
                ),
            ),
        )
    } else {
        None
    }
}

/// What is removed with a cask, given its record. It has to be recorded, and a trial
/// removes nothing.
pub fn uninstall_cask(
    record: Option<&InstalledCask>,
    name: &str,
    macos: bool,
    dry_run: bool,
) -> (r: Result<CaskRemoval>)
    ensures
        match record {
            None => r matches Err(WaxError::NotInstalled(n)) && n@ == name@,
            Some(c) => if dry_run {
                r matches Ok(y) && y@ == CaskRemovalView::Trial
            } else {
                match removal_in(c@, name@, macos) {
                    Some(x) => r matches Ok(y) && y@ == x,
                    None => r matches Err(WaxError::PlatformNotSupported(m)) && m@
                        == "Cask uninstallation is only supported on macOS"@,
                }
            },
        },
{
    let c = match record {
        Some(c) => c,
        None => {
            return Err(WaxError::NotInstalled(String::from_str(name)));
        },
    };
    if dry_run {
        return Ok(CaskRemoval::Trial);
    }
    let kind = match &c.artifact_type {
        Some(t) => t.as_str(),
        None => "dmg",
    };
    if same_str(kind, "tar.gz") {
        match &c.binary_paths {
            Some(v) => Ok(CaskRemoval::Files(text::copied(v))),
            None => {
                let v: Vec<String> = Vec::new();
                proof {
                    assert(text::views(v@) =~= Seq::empty());
                }
                Ok(CaskRemoval::Files(v))
            },
        }
    } else if same_str(kind, "pkg") {
        Ok(CaskRemoval::Unknown)
    } else if macos {
        match &c.app_name {
            Some(a) => Ok(CaskRemoval::App(below("/Applications", a.as_str()))),
            None => {
                let mut a = String::from_str(name);
                a.append(".app");
                Ok(CaskRemoval::App(below("/Applications", a.as_str())))
            },
        }
    } else {
        Err(
            WaxError::PlatformNotSupported(
                String::from_str("Cask uninstallation is only supported on macOS"),
            ),
        )
    }
}

/// Uninstalling undoes installing: where the record of a cask names an app, what is
/// removed is the path of that name in `/Applications`, which is where installing it
/// puts an app; only where the record names none does the cask's own name tell it.
pub proof fn recorded_app_is_removed(c: InstalledCaskView, name: Seq<char>, app: Seq<char>)
    requires
        c.artifact_type != Some("tar.gz"@),
        c.artifact_type != Some("pkg"@),
    ensures
        c.app_name == Some(app) ==> removal_in(c, name, true) == Some(
            CaskRemovalView::App(paths::path_join("/Applications"@, app)),
        ),
        c.app_name is None ==> removal_in(c, name, true) == Some(
            CaskRemovalView::App(paths::path_join("/Applications"@, name + ".app"@)),
        ),
        removal_in(c, name, false) is None,
{
    reveal_strlit("dmg");
    reveal_strlit("tar.gz");
    reveal_strlit("pkg");
    assert("dmg"@.len() == 3 && "tar.gz"@.len() == 6);
    assert("dmg"@[0] == 'd' && "pkg"@[0] == 'p');
}

/// Of an archive exactly the binaries that were recorded are removed, on every
/// system; of a package nothing is.
pub proof fn recorded_binaries_are_removed(
    c: InstalledCaskView,
    name: Seq<char>,
    macos: bool,
    binaries: Seq<Seq<char>>,
)
    ensures
        c.artifact_type == Some("tar.gz"@) && c.binary_paths == Some(binaries) ==> removal_in(
            c,
            name,
            macos,
        ) == Some(CaskRemovalView::Files(binaries)),
        c.artifact_type == Some("tar.gz"@) && c.binary_paths is None ==> removal_in(c, name, macos)
            == Some(CaskRemovalView::Files(Seq::empty())),
        c.artifact_type == Some("pkg"@) ==> removal_in(c, name, macos) == Some(
            CaskRemovalView::Unknown,
        ),
{
    reveal_strlit("tar.gz");
    reveal_strlit("pkg");
    assert("tar.gz"@.len() == 6 && "pkg"@.len() == 3);
}

}
