//! Installs packages of the operating system that are resolved already: which file
//! each is downloaded to, whether it is the right one, and where it goes.
use crate::bottle::check_hash;
use crate::error::{Result, WaxError};
use crate::outside::sha256_hex;
use crate::paths::below;
use crate::system::registry::PackageMetadata;
use crate::text::{chars_of, pieces, string_of};
use crate::ui::dirs;
use crate::ui::dirs::wax_dir;
use crate::{outside, paths, text};
use vstd::prelude::*;

verus! {

pub struct SystemInstaller;

/// The file that an address leads to.
pub open spec fn last_segment(url: Seq<char>) -> Seq<char> {
    text::split(url, '/').last()
}

/// What is installed of each package that succeeded, in order.
pub open spec fn succeeded(packages: Seq<PackageMetadata>, ok: Seq<bool>) -> Seq<(Seq<char>, Seq<char>)>
    decreases packages.len(),
{
    if packages.len() == 0 {
        Seq::empty()
    } else {
        let before = succeeded(packages.drop_last(), ok);
        if ok[packages.len() - 1] {
            before.push((packages.last().name@, packages.last().version@))
        } else {
            before
        }
    }
}

/// The directory that packages are extracted to.
pub open spec fn prefix_of(root: bool, home: Option<Seq<char>>) -> Seq<char> {
    if root {
        "/"@
    } else {
        match home {
            Some(h) => paths::path_join(h, ".local"@),
            None => paths::path_join(paths::path_join("/tmp"@, "system"@), "root"@),
        }
    }
}

impl SystemInstaller {
    /// The file that a package is downloaded to.
    pub fn download_name(url: &str) -> (r: String)
        ensures
            r@ == last_segment(url@),
    {
        let c = chars_of(url);
        let p = pieces(c.as_slice(), '/');
        proof {
            assert(text::slices(p@).last() == p@[p@.len() - 1]@);
        }
        string_of(p[p.len() - 1])
    }

    /// A download has to have the checksum that the registry states, if it states
    /// one.
    pub fn check_download(package: &PackageMetadata, content: &[u8]) -> (r: Result<()>)
        ensures
            match package.sha256 {
                Some(expected) => if outside::sha256_of(content@) == expected@ {
                    r is Ok
                } else {
                    r matches Err(WaxError::ChecksumMismatch { expected: e, actual }) && e@
                        == expected@ && actual@ == outside::sha256_of(content@)
                },
                None => r is Ok,
            },
    {
        match &package.sha256 {
            Some(expected) => check_hash(sha256_hex(content), expected.as_str()),
            None => Ok(()),
        }
    }

    /// The names and versions of the packages that were installed, given which of
    /// them succeeded.
    pub fn install_packages(packages: &Vec<PackageMetadata>, ok: &Vec<bool>) -> (r: Vec<
        (String, String),
    >)
        requires
            packages@.len() == ok@.len(),
        ensures
            outside::pair_views(r@) == succeeded(packages@, ok@),
    {
        let ghost s = packages@;
        let mut out: Vec<(String, String)> = Vec::new();
        proof {
            assert(outside::pair_views(out@) =~= succeeded(s.take(0), ok@));
        }
        for i in 0..packages.len()
            invariant
                s == packages@,
                s.len() == ok@.len(),
                outside::pair_views(out@) == succeeded(s.take(i as int), ok@),
        {
            let ghost before = outside::pair_views(out@);
            proof {
                assert(s.take(i + 1).drop_last() =~= s.take(i as int));
                assert(s.take(i + 1).last() == s[i as int]);
            }
            if ok[i] {
                let p = (packages[i].name.clone(), packages[i].version.clone());
                out.push(p);
                proof {
                    assert(outside::pair_views(out@) =~= before.push(
                        (s[i as int].name@, s[i as int].version@),
                    ));
                }
            }
        }
        proof {
            assert(s.take(s.len() as int) =~= s);
        }
        out
    }

    /// Determine the install prefix based on whether we have root.
    pub fn install_prefix(root: bool, home: Option<&str>) -> (r: String)
        ensures
            r@ == prefix_of(root, dirs::str_view(home)),
    {
        if root {
            return String::from_str("/");
        }
        match home {
            Some(h) => below(h, ".local"),
            None => {
                let base = match wax_dir(home) {
                    Ok(d) => d,
                    Err(_) => String::from_str("/tmp"),
                };
                below(below(base.as_str(), "system").as_str(), "root")
            },
        }
    }
}

/// A package was installed exactly where its installation succeeded; it is told by its
/// name and its version.
pub proof fn succeeded_are_installed(packages: Seq<PackageMetadata>, ok: Seq<bool>, p: PackageMetadata)
    requires
        ok.len() == packages.len(),
    ensures
        succeeded(packages.push(p), ok.push(true)) == succeeded(packages, ok).push(
            (p.name@, p.version@),
        ),
        succeeded(packages.push(p), ok.push(false)) == succeeded(packages, ok),
        succeeded(Seq::empty(), ok).len() == 0,
{
    assert(packages.push(p).drop_last() =~= packages);
    only_own_outcomes_count(packages, ok, ok.push(true));
    only_own_outcomes_count(packages, ok, ok.push(false));
}

proof fn only_own_outcomes_count(packages: Seq<PackageMetadata>, a: Seq<bool>, b: Seq<bool>)
    requires
        forall|i: int| 0 <= i < packages.len() ==> a[i] == b[i],
    ensures
        succeeded(packages, a) == succeeded(packages, b),
    decreases packages.len(),
{
    if packages.len() > 0 {
        only_own_outcomes_count(packages.drop_last(), a, b);
    }
}

/// A download is named by the last part of its address.
pub proof fn downloads_are_named(base: Seq<char>, name: Seq<char>)
    requires
        !name.contains('/'),
    ensures
        last_segment(base + "/"@ + name) == name,
        last_segment(name) == name,
{
    reveal_strlit("/");
    assert(base + "/"@ + name =~= base.push('/') + name);
    text::split_of_both(base, name, '/');
    text::plain_is_one_piece(name, '/');
}

/// Packages go to the root of the system for its administrator, and otherwise below
/// the home directory of the user, if there is one.
pub proof fn prefixes_are_of_the_user(home: Seq<char>, any: Option<Seq<char>>)
    requires
        home.len() > 0,
        home.last() != '/',
    ensures
        prefix_of(true, any) == "/"@,
        prefix_of(false, Some(home)) == home + "/.local"@,
        prefix_of(false, None) == "/tmp/system/root"@,
{
    reveal_strlit("/");
    reveal_strlit(".local");
    reveal_strlit("/.local");
    reveal_strlit("/tmp");
    reveal_strlit("system");
    reveal_strlit("root");
    reveal_strlit("/tmp/system/root");
    assert(home.push('/') + ".local"@ =~= home + "/.local"@);
    let t = "/tmp"@.push('/') + "system"@;
    assert(t.last() == 'm');
    assert(t.push('/') + "root"@ =~= "/tmp/system/root"@);
    assert(paths::path_join("/tmp"@, "system"@) =~= t);
    assert("/tmp"@.last() == 'p');
}

}
