//! What is shown of a formula or a cask.
use crate::api::{has_cask, Cask, CaskArtifact, CaskDetails, Formula, FormulaView};
use crate::error::{Result, WaxError};
use crate::install::InstalledPackage;
use crate::table::Table;
use crate::text::{joined, same_str};
use crate::ui::dirs;
use crate::{api, text};
use vstd::prelude::*;

verus! {

/// What a name is shown as.
#[derive(Debug, Clone, Copy, PartialEq, Eq, Structural)]
pub enum InfoTarget {
    /// The formula at this place in the index.
    Formula(usize),
    Cask,
}

/// A formula goes by its name and its full name.
pub open spec fn goes_by(f: FormulaView, name: Seq<char>) -> bool {
    f.name == name || f.full_name == name
}

/// The first formula that goes by the name.
pub open spec fn first_going_by(f: Seq<FormulaView>, name: Seq<char>) -> Option<int>
    decreases f.len(),
{
    if f.len() == 0 {
        None
    } else if goes_by(f[0], name) {
        Some(0)
    } else {
        match first_going_by(f.skip(1), name) {
            Some(i) => Some(i + 1),
            None => None,
        }
    }
}

/// The first formula that goes by the name.
pub fn find_going_by(formulae: &Vec<Formula>, name: &str) -> (r: Option<usize>)
    ensures
        match r {
            Some(i) => i < formulae@.len() && first_going_by(api::formula_views(formulae@), name@)
                == Some(i as int),
            None => first_going_by(api::formula_views(formulae@), name@) is None,
        },
{
    let ghost f = api::formula_views(formulae@);
    proof {
        assert(f.skip(0) =~= f);
    }
    for i in 0..formulae.len()
        invariant
            f == api::formula_views(formulae@),
            first_going_by(f, name@) == match first_going_by(f.skip(i as int), name@) {
                Some(k) => Some(k + i),
                None => None,
            },
    {
        proof {
            assert(f.skip(i as int)[0] == formulae@[i as int]@);
            assert(f.skip(i as int).skip(1) =~= f.skip(i + 1));
        }
        if same_str(formulae[i].name.as_str(), name) || same_str(
            formulae[i].full_name.as_str(),
            name,
        ) {
            return Some(i);
        }
    }
    None
}

/// What a name is shown as: a formula, unless a cask is asked for or only a cask
/// goes by the name.
pub fn info(name: &str, cask: bool, formulae: &Vec<Formula>, casks: &Vec<Cask>) -> (r: Result<
    InfoTarget,
>)
    ensures
        if cask {
            r == Ok::<InfoTarget, WaxError>(InfoTarget::Cask)
        } else {
            match first_going_by(api::formula_views(formulae@), name@) {
                Some(i) => r matches Ok(InfoTarget::Formula(k)) && k == i && k < formulae@.len(),
                None => if api::cask_known(api::cask_views(casks@), name@) {
                    r == Ok::<InfoTarget, WaxError>(InfoTarget::Cask)
                } else {
                    r matches Err(WaxError::FormulaNotFound(m)) && m@ == name@
                        + " (not found as formula or cask)"@
                },
            }
        },
{
    if cask {
        return Ok(InfoTarget::Cask);
    }
    match find_going_by(formulae, name) {
        Some(i) => {
            return Ok(InfoTarget::Formula(i));
        },
        None => {},
    }
    if has_cask(casks, name) {
        return Ok(InfoTarget::Cask);
    }
    let mut m = String::from_str(name);
    m.append(" (not found as formula or cask)");
    Err(WaxError::FormulaNotFound(m))
}

/// Refuses a cask that the index does not know.
pub fn info_cask(name: &str, casks: &Vec<Cask>) -> (r: Result<()>)
    ensures
        if api::cask_known(api::cask_views(casks@), name@) {
            r is Ok
        } else {
            r matches Err(WaxError::CaskNotFound(m)) && m@ == name@
        },
{
    if has_cask(casks, name) {
        Ok(())
    } else {
        Err(WaxError::CaskNotFound(String::from_str(name)))
    }
}

/// What is said of the versions that are installed: the only one is named where
/// it is not the stable one.
pub open spec fn suffix_of(installed: Option<Seq<Seq<char>>>, stable: Seq<char>) -> Seq<char> {
    match installed {
        None => ""@,
        Some(v) => if v.len() == 0 {
            ""@
        } else if v.len() == 1 && v[0] == stable {
            " · installed"@
        } else if v.len() == 1 {
            " · installed ("@ + v[0] + ")"@
        } else {
            " · installed ("@ + text::join(v, ", "@) + ")"@
        },
    }
}

/// What is said of the versions of a formula that are installed.
pub fn installed_suffix(f: &Formula) -> (r: String)
    ensures
        r@ == suffix_of(f@.installed, f@.stable),
{
    match &f.installed {
        None => String::from_str(""),
        Some(v) => {
            proof {
                assert(text::views(v@).len() == v@.len());
                if v@.len() > 0 {
                    assert(text::views(v@)[0] == v@[0]@);
                }
            }
            if v.len() == 0 {
                String::from_str("")
            } else if v.len() == 1 && same_str(v[0].as_str(), f.stable.as_str()) {
                String::from_str(" · installed")
            } else if v.len() == 1 {
                let mut m = String::from_str(" · installed (");
                m.append(v[0].as_str());
                m.append(")");
                m
            } else {
                let mut m = String::from_str(" · installed (");
                m.append(joined(v, ", ").as_str());
                m.append(")");
                m
            }
        },
    }
}

/// What is said of the version of a cask that is installed.
pub fn cask_suffix(installed: Option<&str>, version: &str) -> (r: String)
    ensures
        r@ == match dirs::str_view(installed) {
            None => ""@,
            Some(v) => if v == version@ {
                " · installed"@
            } else {
                " · installed ("@ + v + ")"@
            },
        },
{
    match installed {
        None => String::from_str(""),
        Some(v) => {
            if same_str(v, version) {
                String::from_str(" · installed")
            } else {
                let mut m = String::from_str(" · installed (");
                m.append(v);
                m.append(")");
                m
            }
        },
    }
}

/// The name that a cask is shown by: its first, or else its token.
pub fn display_name(c: &CaskDetails) -> (r: String)
    ensures
        r@ == if c.name@.len() > 0 {
            c.name@[0]@
        } else {
            c.token@
        },
{
    if c.name.len() > 0 {
        c.name[0].clone()
    } else {
        c.token.clone()
    }
}

/// The installed formulae that depend on a formula.
pub open spec fn dependents_of(f: Seq<FormulaView>, name: Seq<char>, installed: Set<Seq<char>>) -> Seq<
    Seq<char>,
>
    decreases f.len(),
{
    if f.len() == 0 {
        Seq::empty()
    } else {
        let before = dependents_of(f.drop_last(), name, installed);
        if installed.contains(f.last().name) && f.last().needs(name) {
            before.push(f.last().name)
        } else {
            before
        }
    }
}

/// The installed formulae that depend on a formula. Where there are none, it was
/// installed for its own sake.
pub fn installed_dependents(
    formulae: &Vec<Formula>,
    name: &str,
    installed: &Table<InstalledPackage>,
) -> (r: Vec<String>)
    ensures
        text::views(r@) == dependents_of(
            api::formula_views(formulae@),
            name@,
            installed@.dom(),
        ),
{
    let ghost f = api::formula_views(formulae@);
    let mut out: Vec<String> = Vec::new();
    proof {
        assert(text::views(out@) =~= dependents_of(f.take(0), name@, installed@.dom()));
    }
    for i in 0..formulae.len()
        invariant
            f == api::formula_views(formulae@),
            text::views(out@) == dependents_of(f.take(i as int), name@, installed@.dom()),
    {
        let ghost before = text::views(out@);
        proof {
            assert(f.take(i + 1).drop_last() =~= f.take(i as int));
            assert(f.take(i + 1).last() == formulae@[i as int]@);
        }
        if installed.contains_key(formulae[i].name.as_str()) && formulae[i].needs(name) {
            out.push(formulae[i].name.clone());
            proof {
                assert(text::views(out@) =~= before.push(formulae@[i as int].name@));
            }
        }
    }
    proof {
        assert(f.take(f.len() as int) =~= f);
    }
    out
}

/// What an artifact is called.
pub open spec fn label_of(a: CaskArtifact) -> Seq<char> {
    match a {
        CaskArtifact::App { .. } => "app"@,
        CaskArtifact::Pkg { .. } => "pkg"@,
        CaskArtifact::Binary { .. } => "binary"@,
        CaskArtifact::Font { .. } => "font"@,
        CaskArtifact::Manpage { .. } => "manpage"@,
        CaskArtifact::Dictionary { .. } => "dictionary"@,
        CaskArtifact::Colorpicker { .. } => "colorpicker"@,
        CaskArtifact::Prefpane { .. } => "prefpane"@,
        CaskArtifact::Qlplugin { .. } => "qlplugin"@,
        CaskArtifact::ScreenSaver { .. } => "screen_saver"@,
        CaskArtifact::Service { .. } => "service"@,
        CaskArtifact::Suite { .. } => "suite"@,
        CaskArtifact::Artifact { .. } => "artifact"@,
        CaskArtifact::BashCompletion { .. } => "bash_completion"@,
        CaskArtifact::ZshCompletion { .. } => "zsh_completion"@,
        CaskArtifact::FishCompletion { .. } => "fish_completion"@,
        CaskArtifact::Uninstall { .. } => "uninstall"@,
        CaskArtifact::Zap { .. } => "zap"@,
        CaskArtifact::Preflight { .. } => "preflight"@,
        CaskArtifact::Postflight { .. } => "postflight"@,
        CaskArtifact::Other(_) => "other"@,
    }
}

/// What an artifact is called.
pub fn artifact_label(a: &CaskArtifact) -> (r: &'static str)
    ensures
        r@ == label_of(*a),
{
    match a {
        CaskArtifact::App { .. } => "app",
        CaskArtifact::Pkg { .. } => "pkg",
        CaskArtifact::Binary { .. } => "binary",
        CaskArtifact::Font { .. } => "font",
        CaskArtifact::Manpage { .. } => "manpage",
        CaskArtifact::Dictionary { .. } => "dictionary",
        CaskArtifact::Colorpicker { .. } => "colorpicker",
        CaskArtifact::Prefpane { .. } => "prefpane",
        CaskArtifact::Qlplugin { .. } => "qlplugin",
        CaskArtifact::ScreenSaver { .. } => "screen_saver",
        CaskArtifact::Service { .. } => "service",
        CaskArtifact::Suite { .. } => "suite",
        CaskArtifact::Artifact { .. } => "artifact",
        CaskArtifact::BashCompletion { .. } => "bash_completion",
        CaskArtifact::ZshCompletion { .. } => "zsh_completion",
        CaskArtifact::FishCompletion { .. } => "fish_completion",
        CaskArtifact::Uninstall { .. } => "uninstall",
        CaskArtifact::Zap { .. } => "zap",
        CaskArtifact::Preflight { .. } => "preflight",
        CaskArtifact::Postflight { .. } => "postflight",
        CaskArtifact::Other(_) => "other",
    }
}

// ---------------------------------------------------------------------------
// Laws

/// The first formula that has a name, short or full, is the one that goes by it.
pub proof fn first_of_a_name_goes_by_it(
    before: Seq<FormulaView>,
    x: FormulaView,
    after: Seq<FormulaView>,
    name: Seq<char>,
)
    requires
        x.name == name || x.full_name == name,
        forall|i: int|
            0 <= i < before.len() ==> (#[trigger] before[i]).name != name && before[i].full_name
                != name,
    ensures
        first_going_by(before + seq![x] + after, name) == Some(before.len() as int),
        first_going_by(before, name) is None,
    decreases before.len(),
{
    let all = before + seq![x] + after;
    if before.len() == 0 {
        assert(all[0] == x);
    } else {
        let t = before.skip(1);
        assert forall|i: int| 0 <= i < t.len() implies (#[trigger] t[i]).name != name
            && t[i].full_name != name by {
            assert(t[i] == before[i + 1]);
        }
        first_of_a_name_goes_by_it(t, x, after, name);
        assert(all[0] == before[0]);
        assert(all.skip(1) =~= t + seq![x] + after);
    }
}

/// An installed formula is told to be, with its versions unless it is just the current one.
pub proof fn installed_versions_are_told(v: Seq<Seq<char>>, stable: Seq<char>, one: Seq<char>)
    ensures
        suffix_of(None, stable) == ""@,
        v.len() == 0 ==> suffix_of(Some(v), stable) == ""@,
        suffix_of(Some(seq![stable]), stable) == " · installed"@,
        one != stable ==> suffix_of(Some(seq![one]), stable) == " · installed ("@ + one + ")"@,
        v.len() > 1 ==> suffix_of(Some(v), stable) == " · installed ("@ + text::join(v, ", "@)
            + ")"@,
{
}

/// The installed formulae that need one are its dependents, in their order.
pub proof fn dependents_need_it(
    f: Seq<FormulaView>,
    x: FormulaView,
    name: Seq<char>,
    installed: Set<Seq<char>>,
)
    ensures
        installed.contains(x.name) && x.needs(name) ==> dependents_of(f.push(x), name, installed)
            == dependents_of(f, name, installed).push(x.name),
        !installed.contains(x.name) || !x.needs(name) ==> dependents_of(f.push(x), name, installed)
            == dependents_of(f, name, installed),
        dependents_of(Seq::empty(), name, installed).len() == 0,
{
    assert(f.push(x).drop_last() =~= f);
}

/// Each thing that a cask offers is told by its kind.
pub proof fn things_are_told_by_kind(v: Vec<crate::json::Json>)
    ensures
        label_of(CaskArtifact::App { app: v }) == "app"@,
        label_of(CaskArtifact::Pkg { pkg: v }) == "pkg"@,
        label_of(CaskArtifact::Binary { binary: v }) == "binary"@,
        label_of(CaskArtifact::Font { font: v }) == "font"@,
        label_of(CaskArtifact::Manpage { manpage: v }) == "manpage"@,
        label_of(CaskArtifact::Dictionary { dictionary: v }) == "dictionary"@,
        label_of(CaskArtifact::Colorpicker { colorpicker: v }) == "colorpicker"@,
        label_of(CaskArtifact::Prefpane { prefpane: v }) == "prefpane"@,
        label_of(CaskArtifact::Qlplugin { qlplugin: v }) == "qlplugin"@,
        label_of(CaskArtifact::ScreenSaver { screen_saver: v }) == "screen_saver"@,
        label_of(CaskArtifact::Service { service: v }) == "service"@,
        label_of(CaskArtifact::Suite { suite: v }) == "suite"@,
        label_of(CaskArtifact::Artifact { artifact: v }) == "artifact"@,
        label_of(CaskArtifact::BashCompletion { bash_completion: v }) == "bash_completion"@,
        label_of(CaskArtifact::ZshCompletion { zsh_completion: v }) == "zsh_completion"@,
        label_of(CaskArtifact::FishCompletion { fish_completion: v }) == "fish_completion"@,
        label_of(CaskArtifact::Uninstall { uninstall: v }) == "uninstall"@,
        label_of(CaskArtifact::Zap { zap: v }) == "zap"@,
        label_of(CaskArtifact::Preflight { preflight: None }) == "preflight"@,
        label_of(CaskArtifact::Postflight { postflight: None }) == "postflight"@,
{
}

}
