//! The homepage of a formula or a cask.
use crate::api::{Cask, CaskView, Formula, FormulaView};
use crate::commands::install;
use crate::commands::install::{find_full_named, find_named};
use crate::error::{Result, WaxError};
use crate::outside::scheme_of;
use crate::text::same_str;
use crate::ui::dirs;
use crate::{api, outside, text};
use vstd::prelude::*;

verus! {

/// An address that is opened: one of the web.
pub open spec fn is_web(scheme: Option<Seq<char>>) -> bool {
    scheme == Some("http"@) || scheme == Some("https"@)
}

/// Whether an address is one of the web.
pub fn is_safe_url(url: &str) -> (r: bool)
    ensures
        r == is_web(outside::url_scheme(url@)),
{
    is_web_scheme(scheme_of(url))
}

/// Whether a scheme is one of the web.
pub fn is_web_scheme(scheme: Option<String>) -> (r: bool)
    ensures
        r == is_web(text::opt_view(scheme)),
{
    match scheme {
        Some(s) => same_str(s.as_str(), "http") || same_str(s.as_str(), "https"),
        None => false,
    }
}

/// The last cask of a token.
pub open spec fn last_token(c: Seq<CaskView>, name: Seq<char>) -> Option<int>
    decreases c.len(),
{
    if c.len() == 0 {
        None
    } else if c.last().token == name {
        Some(c.len() - 1)
    } else {
        last_token(c.drop_last(), name)
    }
}

/// The last cask of a full token.
pub open spec fn last_full_token(c: Seq<CaskView>, name: Seq<char>) -> Option<int>
    decreases c.len(),
{
    if c.len() == 0 {
        None
    } else if c.last().full_token == name {
        Some(c.len() - 1)
    } else {
        last_full_token(c.drop_last(), name)
    }
}

fn find_token(casks: &Vec<Cask>, name: &str, full: bool) -> (r: Option<usize>)
    ensures
        match r {
            Some(i) => i < casks@.len() && Some(i as int) == (if full {
                last_full_token(api::cask_views(casks@), name@)
            } else {
                last_token(api::cask_views(casks@), name@)
            }),
            None => (if full {
                last_full_token(api::cask_views(casks@), name@)
            } else {
                last_token(api::cask_views(casks@), name@)
            }) is None,
        },
{
    let ghost c = api::cask_views(casks@);
    let mut i: usize = casks.len();
    proof {
        assert(c.take(i as int) =~= c);
    }
    while i > 0
        invariant
            i <= casks@.len(),
            c == api::cask_views(casks@),
            full ==> last_full_token(c, name@) == last_full_token(c.take(i as int), name@),
            !full ==> last_token(c, name@) == last_token(c.take(i as int), name@),
        decreases i,
    {
        proof {
            assert(c.take(i as int).last() == casks@[i - 1]@);
            assert(c.take(i as int).drop_last() =~= c.take(i - 1));
        }
        let x = &casks[i - 1];
        if same_str(
            if full {
                x.full_token.as_str()
            } else {
                x.token.as_str()
            },
            name,
        ) {
            return Some(i - 1);
        }
        i = i - 1;
    }
    None
}

/// The homepage that a name leads to, and whether it is that of a cask. A full
/// name counts before a name, and a formula before a cask.
pub open spec fn homepage_of(f: Seq<FormulaView>, c: Seq<CaskView>, name: Seq<char>) -> Option<
    (Seq<char>, bool),
> {
    match install::last_full_named(f, name) {
        Some(i) => Some((f[i].homepage, false)),
        None => match install::last_named(f, name) {
            Some(i) => Some((f[i].homepage, false)),
            None => match last_full_token(c, name) {
                Some(i) => Some((c[i].homepage, true)),
                None => match last_token(c, name) {
                    Some(i) => Some((c[i].homepage, true)),
                    None => None,
                },
            },
        },
    }
}

/// The homepage that a name leads to, and whether it is that of a cask.
pub fn find_homepage(formulae: &Vec<Formula>, casks: &Vec<Cask>, name: &str) -> (r: Option<
    (String, bool),
>)
    ensures
        match r {
            Some((h, k)) => homepage_of(
                api::formula_views(formulae@),
                api::cask_views(casks@),
                name@,
            ) == Some((h@, k)),
            None => homepage_of(
                api::formula_views(formulae@),
                api::cask_views(casks@),
                name@,
            ) is None,
        },
{
    match find_full_named(formulae, name) {
        Some(i) => {
            return Some((formulae[i].homepage.clone(), false));
        },
        None => {},
    }
    match find_named(formulae, name) {
        Some(i) => {
            return Some((formulae[i].homepage.clone(), false));
        },
        None => {},
    }
    match find_token(casks, name, true) {
        Some(i) => {
            return Some((casks[i].homepage.clone(), true));
        },
        None => {},
    }
    match find_token(casks, name, false) {
        Some(i) => Some((casks[i].homepage.clone(), true)),
        None => None,
    }
}

/// The homepage that is opened for a name, and whether it is that of a cask.
pub fn source(formulae: &Vec<Formula>, casks: &Vec<Cask>, name: &str) -> (r: Result<(String, bool)>)
    ensures
        match homepage_of(api::formula_views(formulae@), api::cask_views(casks@), name@) {
            None => r matches Err(WaxError::FormulaNotFound(m)) && m@ == name@,
            Some((h, k)) => if is_web(outside::url_scheme(h)) {
                r matches Ok(x) && x.0@ == h && x.1 == k
            } else {
                r matches Err(WaxError::InvalidInput(m)) && m@
                    == "Invalid or unsafe homepage URL: "@ + h
            },
        },
{
    match find_homepage(formulae, casks, name) {
        None => Err(WaxError::FormulaNotFound(String::from_str(name))),
        Some((h, k)) => {
            if is_safe_url(h.as_str()) {
                Ok((h, k))
            } else {
                let mut m = String::from_str("Invalid or unsafe homepage URL: ");
                m.append(h.as_str());
                Err(WaxError::InvalidInput(m))
            }
        },
    }
}

/// The program that opens an address.
pub fn opener(os: &str) -> (r: Option<&'static str>)
    ensures
        dirs::str_view(r) == if os@ == "macos"@ {
            Some("open"@)
        } else if os@ == "linux"@ {
            Some("xdg-open"@)
        } else {
            None
        },
{
    if same_str(os, "macos") {
        Some("open")
    } else if same_str(os, "linux") {
        Some("xdg-open")
    } else {
        None
    }
}

// ---------------------------------------------------------------------------
// Laws

/// Only an address of the web is opened.
pub proof fn only_the_web_is_opened(scheme: Seq<char>)
    ensures
        is_web(Some("http"@)),
        is_web(Some("https"@)),
        scheme != "http"@ && scheme != "https"@ ==> !is_web(Some(scheme)),
        !is_web(None),
{
}

/// The last cask with a token is the one that is found by it.
pub proof fn last_cask_counts(c: Seq<CaskView>, x: CaskView, name: Seq<char>)
    ensures
        x.token == name ==> last_token(c.push(x), name) == Some(c.len() as int),
        x.token != name ==> last_token(c.push(x), name) == last_token(c, name),
        x.full_token == name ==> last_full_token(c.push(x), name) == Some(c.len() as int),
        x.full_token != name ==> last_full_token(c.push(x), name) == last_full_token(c, name),
        last_token(Seq::empty(), name) is None,
        last_full_token(Seq::empty(), name) is None,
{
    assert(c.push(x).drop_last() =~= c);
}

/// A formula is looked for before a cask, and a full name before a short one; the homepage
/// is that of what was found.
pub proof fn formulae_come_before_casks(
    f: Seq<FormulaView>,
    c: Seq<CaskView>,
    name: Seq<char>,
    i: int,
)
    ensures
        install::last_full_named(f, name) == Some(i) ==> homepage_of(f, c, name) == Some(
            (f[i].homepage, false),
        ),
        install::last_full_named(f, name) is None && install::last_named(f, name) == Some(i)
            ==> homepage_of(f, c, name) == Some((f[i].homepage, false)),
        install::last_full_named(f, name) is None && install::last_named(f, name) is None
            && last_full_token(c, name) == Some(i) ==> homepage_of(f, c, name) == Some(
            (c[i].homepage, true),
        ),
        install::last_full_named(f, name) is None && install::last_named(f, name) is None
            && last_full_token(c, name) is None && last_token(c, name) == Some(i) ==> homepage_of(
            f,
            c,
            name,
        ) == Some((c[i].homepage, true)),
        install::last_full_named(f, name) is None && install::last_named(f, name) is None
            && last_full_token(c, name) is None && last_token(c, name) is None ==> homepage_of(
            f,
            c,
            name,
        ) is None,
{
}

}
