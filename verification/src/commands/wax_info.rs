//! Where wax works.
use crate::order::sort_by_key;
use crate::paths::below;
use crate::text::joined;
use crate::ui::dirs;
use crate::{order, outside, paths, text};
use vstd::prelude::*;

verus! {

/// The names of taps, each of its vendor and its repository.
pub open spec fn tap_names(v: Seq<(Seq<char>, Seq<char>)>) -> Seq<Seq<char>> {
    Seq::new(v.len(), |i: int| v[i].0 + "/"@ + v[i].1)
}

/// The taps that are there, by name, in one line, if there are any.
pub fn active_taps(taps: &Vec<(String, String)>) -> (r: Option<String>)
    ensures
        text::opt_view(r) == if taps@.len() == 0 {
            None
        } else {
            Some(text::join(order::sort(tap_names(outside::pair_views(taps@))), ", "@))
        },
{
    if taps.len() == 0 {
        return None;
    }
    let mut names: Vec<String> = Vec::new();
    for i in 0..taps.len()
        invariant
            names@.len() == i,
            forall|j: int|
                0 <= j < i ==> (#[trigger] names@[j])@ == tap_names(outside::pair_views(taps@))[j],
    {
        let mut n = taps[i].0.clone();
        n.append("/");
        n.append(taps[i].1.as_str());
        names.push(n);
    }
    proof {
        assert(order::shown_all(names@) =~= tap_names(outside::pair_views(taps@)));
    }
    sort_by_key(&mut names);
    proof {
        assert(order::shown_all(names@) =~= text::views(names@));
    }
    Some(joined(&names, ", "))
}

/// What is shown, each line a label and a value.
pub open spec fn info_rows(
    version: Seq<char>,
    prefix: Seq<char>,
    home: Option<Seq<char>>,
    os: Seq<char>,
    arch: Seq<char>,
) -> Seq<(Seq<char>, Seq<char>)> {
    seq![
        ("Version:"@, version),
        ("Prefix:"@, prefix),
        ("Cellar:"@, paths::path_join(prefix, "Cellar"@)),
        ("Taps:"@, paths::path_join(prefix, "Library/Taps"@)),
        (
            "Cache:"@,
            match home {
                Some(h) => paths::path_join(paths::path_join(h, ".wax"@), "cache"@),
                None => paths::path_join(prefix, "var/cache/wax"@),
            },
        ),
        (
            "Config:"@,
            match home {
                Some(h) => paths::path_join(h, ".wax"@),
                None => paths::path_join(prefix, "etc/wax"@),
            },
        ),
        ("OS:"@, os),
        ("Arch:"@, arch),
    ]
}

fn row(label: &str, value: &str) -> (r: (String, String))
    ensures
        r.0@ == label@,
        r.1@ == value@,
{
    (String::from_str(label), String::from_str(value))
}

/// What is shown, each line a label and a value.
pub fn wax_info(version: &str, prefix: &str, home: Option<&str>, os: &str, arch: &str) -> (r: Vec<
    (String, String),
>)
    ensures
        outside::pair_views(r@) == info_rows(version@, prefix@, dirs::str_view(home), os@, arch@),
{
    let cache = match dirs::wax_cache_dir(home) {
        Ok(d) => d,
        Err(_) => below(prefix, "var/cache/wax"),
    };
    let config = match dirs::wax_dir(home) {
        Ok(d) => d,
        Err(_) => below(prefix, "etc/wax"),
    };
    let mut v: Vec<(String, String)> = Vec::new();
    v.push(row("Version:", version));
    v.push(row("Prefix:", prefix));
    v.push(row("Cellar:", below(prefix, "Cellar").as_str()));
    v.push(row("Taps:", below(prefix, "Library/Taps").as_str()));
    v.push(row("Cache:", cache.as_str()));
    v.push(row("Config:", config.as_str()));
    v.push(row("OS:", os));
    v.push(row("Arch:", arch));
    proof {
        assert(outside::pair_views(v@) =~= info_rows(
            version@,
            prefix@,
            dirs::str_view(home),
            os@,
            arch@,
        ));
    }
    v
}

// ---------------------------------------------------------------------------
// Laws

/// A tap is named by its user and its repository.
pub proof fn taps_are_named_by_both(v: Seq<(Seq<char>, Seq<char>)>, i: int)
    ensures
        tap_names(v).len() == v.len(),
        0 <= i < v.len() ==> tap_names(v)[i] == v[i].0 + "/"@ + v[i].1,
{
}

/// The places of a machine are told by their labels: those of the user where there is one,
/// else those of the prefix.
pub proof fn places_are_told(
    version: Seq<char>,
    prefix: Seq<char>,
    home: Seq<char>,
    os: Seq<char>,
    arch: Seq<char>,
)
    ensures
        ({
            let own = info_rows(version, prefix, Some(home), os, arch);
            let none = info_rows(version, prefix, None, os, arch);
            &&& own.len() == 8 && none.len() == 8
            &&& own[0] == ("Version:"@, version) && own[1] == ("Prefix:"@, prefix)
            &&& own[2] == ("Cellar:"@, paths::path_join(prefix, "Cellar"@))
            &&& own[3] == ("Taps:"@, paths::path_join(prefix, "Library/Taps"@))
            &&& own[4] == ("Cache:"@, paths::path_join(paths::path_join(home, ".wax"@), "cache"@))
            &&& own[5] == ("Config:"@, paths::path_join(home, ".wax"@))
            &&& own[6] == ("OS:"@, os) && own[7] == ("Arch:"@, arch)
            &&& none[4] == ("Cache:"@, paths::path_join(prefix, "var/cache/wax"@))
            &&& none[5] == ("Config:"@, paths::path_join(prefix, "etc/wax"@))
        }),
{
}

}
