//! Routes a package to Homebrew-style formulae, Scoop, winget-pkgs or Chocolatey,
//! by its prefix or by where it is found.
use crate::api::Formula;
use crate::error::{ErrorView, Result, WaxError};
use crate::outside::alphanumeric;
use crate::package_spec;
use crate::package_spec::{parse_package_spec, Ecosystem, PackageSpec};
use crate::text::{chars_of, has_char, string_of, trimmed};
use crate::winget_install;
use crate::winget_install::equal_but_case;
use crate::{outside, text};
use vstd::prelude::*;

verus! {

/// What becomes of a package.
#[derive(Debug)]
pub enum Handling {
    /// It is left to the batch of formulae.
    Homebrew,
    /// It is installed from one ecosystem.
    Ecosystem(Ecosystem, String),
    /// It is installed from the fastest ecosystem that has it.
    Fastest(String),
}

pub enum HandlingView {
    Homebrew,
    Ecosystem(Ecosystem, Seq<char>),
    Fastest(Seq<char>),
}

impl View for Handling {
    type V = HandlingView;

    open spec fn view(&self) -> HandlingView {
        match self {
            Handling::Homebrew => HandlingView::Homebrew,
            Handling::Ecosystem(e, n) => HandlingView::Ecosystem(*e, n@),
            Handling::Fastest(n) => HandlingView::Fastest(n@),
        }
    }
}

/// A `Handling` is seen as what it holds.
pub proof fn handling_is_seen_as_it_is(x: Handling)
    ensures
        x is Homebrew ==> x@ == HandlingView::Homebrew,
        x matches Handling::Ecosystem(e, n) ==> x@ == (HandlingView::Ecosystem(e, n@)),
        x matches Handling::Fastest(n) ==> x@ == (HandlingView::Fastest(n@)),
{
}

/// A character that may stand in a package's id.
pub open spec fn id_char(c: char) -> bool {
    outside::char_is_alphanumeric(c) || c == '-' || c == '_' || c == '.' || c == '+'
}

/// Why a name is refused.
pub open spec fn refused(force: Option<Ecosystem>, name: Seq<char>) -> Option<ErrorView> {
    let n = text::trim(name);
    if n.len() == 0 {
        Some(ErrorView::InvalidInput("empty package name after prefix"@))
    } else if force is Some && n.contains('/') {
        Some(
            ErrorView::InvalidInput(
                "names with '/' after a scoop/choco/winget/brew prefix are not supported"@,
            ),
        )
    } else if exists|i: int| 0 <= i < n.len() && !id_char(#[trigger] n[i]) {
        Some(ErrorView::InvalidInput("unsupported characters in package id: "@ + n))
    } else {
        None
    }
}

pub fn validate_qualified_inner(spec: &PackageSpec) -> (r: Result<()>)
    ensures
        match r {
            Ok(_) => refused(spec.force, spec.name@) is None,
            Err(e) => refused(spec.force, spec.name@) == Some(e@),
        },
{
    let c = chars_of(spec.name.as_str());
    let n = trimmed(c.as_slice());
    if n.len() == 0 {
        return Err(WaxError::InvalidInput(String::from_str("empty package name after prefix")));
    }
    if spec.force.is_some() && has_char(n, '/') {
        return Err(
            WaxError::InvalidInput(
                String::from_str(
                    "names with '/' after a scoop/choco/winget/brew prefix are not supported",
                ),
            ),
        );
    }
    for i in 0..n.len()
        invariant
            n@ == text::trim(spec.name@),
            n@.len() > 0,
            !(spec.force is Some && n@.contains('/')),
            forall|j: int| 0 <= j < i ==> id_char(#[trigger] n@[j]),
    {
        let x = n[i];
        if !(alphanumeric(x) || x == '-' || x == '_' || x == '.' || x == '+') {
            proof {
                assert(!id_char(n@[i as int]));
            }
            let mut m = String::from_str("unsupported characters in package id: ");
            m.append(string_of(n).as_str());
            return Err(WaxError::InvalidInput(m));
        }
    }
    Ok(())
}

/// What becomes of a name that is not refused. Casks and names with the prefix of
/// Homebrew go to Homebrew, names with another prefix to that ecosystem, and names
/// without one to the fastest ecosystem on Windows and to Homebrew elsewhere.
pub open spec fn handling(raw: Seq<char>, cask: bool, windows: bool) -> HandlingView {
    let name = package_spec::bare_name(raw);
    if cask {
        HandlingView::Homebrew
    } else {
        match package_spec::forced(raw) {
            Some(Ecosystem::Brew) => HandlingView::Homebrew,
            Some(e) => HandlingView::Ecosystem(e, name),
            None => if windows {
                HandlingView::Fastest(name)
            } else {
                HandlingView::Homebrew
            },
        }
    }
}

/// Decides what becomes of a package.
pub fn install_one_qualified(raw: &str, cask: bool, windows: bool) -> (r: Result<Handling>)
    ensures
        match r {
            Ok(h) => refused(package_spec::forced(raw@), package_spec::bare_name(raw@)) is None && h@
                == handling(raw@, cask, windows),
            Err(e) => refused(package_spec::forced(raw@), package_spec::bare_name(raw@)) == Some(e@),
        },
{
    let spec = parse_package_spec(raw);
    match validate_qualified_inner(&spec) {
        Err(e) => {
            return Err(e);
        },
        Ok(_) => {},
    }
    if cask {
        return Ok(Handling::Homebrew);
    }
    match spec.force {
        Some(Ecosystem::Brew) => Ok(Handling::Homebrew),
        Some(e) => Ok(Handling::Ecosystem(e, spec.name)),
        None => if windows {
            Ok(Handling::Fastest(spec.name))
        } else {
            Ok(Handling::Homebrew)
        },
    }
}

/// Homebrew's index has a formula of that name, in whatever case.
pub open spec fn in_brew_index(formulae: Seq<Formula>, name: Seq<char>) -> bool {
    exists|i: int|
        0 <= i < formulae.len() && winget_install::same_but_case(
            (#[trigger] formulae[i]).name@,
            name,
        )
}

pub fn brew_has(formulae: &Vec<Formula>, name: &str) -> (r: bool)
    ensures
        r == in_brew_index(formulae@, name@),
{
    for i in 0..formulae.len()
        invariant
            forall|j: int|
                0 <= j < i ==> !winget_install::same_but_case(
                    (#[trigger] formulae@[j]).name@,
                    name@,
                ),
    {
        if equal_but_case(formulae[i].name.as_str(), name) {
            return true;
        }
    }
    false
}

/// winget-pkgs is asked only for names that can be the id of a package.
pub fn worth_asking_winget(name: &str) -> (r: bool)
    ensures
        r == name@.contains('.'),
{
    let c = chars_of(name);
    has_char(c.as_slice(), '.')
}

/// Where a package was found.
#[derive(Debug, Clone, Copy)]
pub struct Found {
    pub brew: bool,
    pub scoop: bool,
    pub winget: bool,
    pub choco: bool,
}

pub open spec fn found_in(f: Found, e: Ecosystem) -> bool {
    match e {
        Ecosystem::Brew => f.brew,
        Ecosystem::Scoop => f.scoop,
        Ecosystem::Winget => f.winget,
        Ecosystem::Chocolatey => f.choco,
    }
}

/// The fastest ecosystem that has the package.
pub fn auto_pick_ecosystem(f: Found) -> (r: Option<Ecosystem>)
    ensures
        match r {
            Some(e) => found_in(f, e) && forall|o: Ecosystem|
                #[trigger] found_in(f, o) ==> e.rank() <= o.rank(),
            None => forall|o: Ecosystem| !#[trigger] found_in(f, o),
        },
{
    if f.brew {
        Some(Ecosystem::Brew)
    } else if f.scoop {
        Some(Ecosystem::Scoop)
    } else if f.winget {
        Some(Ecosystem::Winget)
    } else if f.choco {
        Some(Ecosystem::Chocolatey)
    } else {
        None
    }
}

/// What becomes of a package that is installed from the fastest ecosystem.
pub fn handle_found(name: &str, f: Found) -> (r: Result<Handling>)
    ensures
        match r {
            Ok(Handling::Homebrew) => f.brew,
            Ok(Handling::Ecosystem(e, n)) => !f.brew && e != Ecosystem::Brew && n@ == name@
                && found_in(f, e) && forall|o: Ecosystem|
                #[trigger] found_in(f, o) ==> e.rank() <= o.rank(),
            Ok(Handling::Fastest(_)) => false,
            Err(e) => (forall|o: Ecosystem| !#[trigger] found_in(f, o)) && e@
                == ErrorView::FormulaNotFound(
                "no matching package '"@ + name@
                    + "' in brew index, Scoop Main, winget-pkgs, or Chocolatey"@,
            ),
        },
{
    match auto_pick_ecosystem(f) {
        Some(Ecosystem::Brew) => Ok(Handling::Homebrew),
        Some(e) => {
            proof {
                assert(f.brew == found_in(f, Ecosystem::Brew));
            }
            Ok(Handling::Ecosystem(e, String::from_str(name)))
        },
        None => {
            let mut m = String::from_str("no matching package '");
            m.append(name);
            m.append("' in brew index, Scoop Main, winget-pkgs, or Chocolatey");
            Err(WaxError::FormulaNotFound(m))
        },
    }
}

/// What is said in place of an installation.
pub fn dry_run_text(eco: Ecosystem, name: &str) -> (r: String)
    ensures
        r@ == "dry-run: would install via "@ + eco.name() + " → "@ + name@,
{
    let mut r = String::from_str("dry-run: would install via ");
    r.append(eco.label());
    r.append(" → ");
    r.append(name);
    r
}

/// What is done for a package of an ecosystem.
#[derive(Debug)]
pub enum Forced {
    /// It is only said what would be done.
    Shown(String),
    /// It is left to Homebrew.
    Nothing,
    /// It is installed from this ecosystem.
    Install(Ecosystem),
}

/// What is done for a package of an ecosystem: a trial run only says it.
pub fn install_forced(eco: Ecosystem, name: &str, dry_run: bool) -> (r: Forced)
    ensures
        if dry_run {
            r matches Forced::Shown(m) && m@ == "dry-run: would install via "@ + eco.name()
                + " → "@ + name@
        } else if eco == Ecosystem::Brew {
            r is Nothing
        } else {
            r == Forced::Install(eco)
        },
{
    if dry_run {
        return Forced::Shown(dry_run_text(eco, name));
    }
    match eco {
        Ecosystem::Brew => Forced::Nothing,
        _ => Forced::Install(eco),
    }
}

/// A prefix decides: a name with the prefix of an ecosystem other than Homebrew
/// goes to that ecosystem, on every platform.
pub proof fn prefix_decides(e: Ecosystem, name: Seq<char>, windows: bool)
    requires
        e != Ecosystem::Brew,
    ensures
        handling(e.name() + "/"@ + name, false, windows) == HandlingView::Ecosystem(e, name),
{
    package_spec::label_qualifies(e, name);
}

/// A name is refused that is empty, that has a stroke behind the prefix of an ecosystem, or
/// that has a character which no id has; any other is taken.
pub proof fn bad_names_are_refused(e: Ecosystem, name: Seq<char>, i: int)
    ensures
        text::trim(name).len() == 0 ==> (refused(Some(e), name) matches Some(
            ErrorView::InvalidInput(_),
        )) && (refused(None, name) matches Some(ErrorView::InvalidInput(_))),
        text::trim(name).contains('/') ==> (refused(Some(e), name) matches Some(
            ErrorView::InvalidInput(_),
        )),
        0 <= i < text::trim(name).len() && !(outside::char_is_alphanumeric(text::trim(name)[i])
            || text::trim(name)[i] == '-' || text::trim(name)[i] == '_' || text::trim(name)[i]
            == '.' || text::trim(name)[i] == '+') ==> refused(None, name) is Some && refused(
            Some(e),
            name,
        ) is Some,
        text::trim(name).len() > 0 && (forall|j: int|
            0 <= j < text::trim(name).len() ==> (outside::char_is_alphanumeric(
                #[trigger] text::trim(name)[j],
            ) || text::trim(name)[j] == '-' || text::trim(name)[j] == '_' || text::trim(name)[j]
                == '.' || text::trim(name)[j] == '+')) ==> refused(None, name) is None,
        text::trim(name).len() > 0 && !text::trim(name).contains('/') && (forall|j: int|
            0 <= j < text::trim(name).len() ==> (outside::char_is_alphanumeric(
                #[trigger] text::trim(name)[j],
            ) || text::trim(name)[j] == '-' || text::trim(name)[j] == '_' || text::trim(name)[j]
                == '.' || text::trim(name)[j] == '+')) ==> refused(Some(e), name) is None,
{
    let n = text::trim(name);
    if 0 <= i < n.len() && !id_char(n[i]) {
        assert(exists|k: int| 0 <= k < n.len() && !id_char(#[trigger] n[k]));
    }
}

/// A cask is left to Homebrew, and so is what has its prefix; a name without any goes to the
/// fastest ecosystem on Windows, and to Homebrew elsewhere.
pub proof fn names_go_to_their_ecosystem(raw: Seq<char>, windows: bool)
    ensures
        handling(raw, true, windows) == HandlingView::Homebrew,
        package_spec::forced(raw) == Some(Ecosystem::Brew) ==> handling(raw, false, windows)
            == HandlingView::Homebrew,
        package_spec::forced(raw) is None ==> handling(raw, false, true) == HandlingView::Fastest(
            raw,
        ) && handling(raw, false, false) == HandlingView::Homebrew,
{
}

/// A formula is in the index whose name is the one asked for, in capitals or not.
pub proof fn formulae_are_found_but_for_case(formulae: Seq<Formula>, name: Seq<char>, i: int)
    ensures
        0 <= i < formulae.len() && text::ascii_lower(formulae[i].name@) == text::ascii_lower(name)
            ==> in_brew_index(formulae, name),
        (forall|j: int|
            0 <= j < formulae.len() ==> text::ascii_lower((#[trigger] formulae[j]).name@)
                != text::ascii_lower(name)) ==> !in_brew_index(formulae, name),
{
}

/// Each ecosystem is found where it says so.
pub proof fn found_in_their_own(f: Found)
    ensures
        found_in(f, Ecosystem::Brew) == f.brew,
        found_in(f, Ecosystem::Scoop) == f.scoop,
        found_in(f, Ecosystem::Winget) == f.winget,
        found_in(f, Ecosystem::Chocolatey) == f.choco,
{
}

/// A refused name is told why.
pub proof fn refusals_are_told(e: Ecosystem, name: Seq<char>, i: int)
    ensures
        text::trim(name).len() == 0 ==> refused(None, name) == Some(
            ErrorView::InvalidInput("empty package name after prefix"@),
        ),
        text::trim(name).contains('/') ==> refused(Some(e), name) == Some(
            ErrorView::InvalidInput(
                "names with '/' after a scoop/choco/winget/brew prefix are not supported"@,
            ),
        ),
        0 <= i < text::trim(name).len() && !id_char(text::trim(name)[i]) ==> refused(None, name)
            == Some(
            ErrorView::InvalidInput("unsupported characters in package id: "@ + text::trim(name)),
        ),
{
    let n = text::trim(name);
    if 0 <= i < n.len() && !id_char(n[i]) {
        assert(exists|k: int| 0 <= k < n.len() && !id_char(#[trigger] n[k]));
    }
}

}
