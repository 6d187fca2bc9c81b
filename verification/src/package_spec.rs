//! Qualified package names: `scoop/ripgrep`, `choco/git`, `winget/JesseDuffield.lazygit`,
//! `brew/openssl` (force Homebrew), or plain `ripgrep` for automatic source selection.
use crate::text;
use crate::text::{chars_of, lowered, part, string_of};
use vstd::prelude::*;

verus! {

#[derive(Debug, Clone, Copy, PartialEq, Eq, PartialOrd, Ord, Hash, Structural)]
pub enum Ecosystem {
    /// Local Homebrew-style index (fastest: cached JSON).
    Brew,
    /// Scoop Main-style JSON manifest + zip/tar.gz portable.
    Scoop,
    /// winget-pkgs YAML portable zip installers.
    Winget,
    /// Chocolatey community `.nupkg` (portable `tools/*.exe` only).
    Chocolatey,
}

impl Ecosystem {
    pub open spec fn rank(self) -> int {
        match self {
            Ecosystem::Brew => 0,
            Ecosystem::Scoop => 1,
            Ecosystem::Winget => 2,
            Ecosystem::Chocolatey => 3,
        }
    }

    pub open spec fn name(self) -> Seq<char> {
        match self {
            Ecosystem::Brew => "brew"@,
            Ecosystem::Scoop => "scoop"@,
            Ecosystem::Winget => "winget"@,
            Ecosystem::Chocolatey => "choco"@,
        }
    }

    /// Lower is faster / preferred when the same logical package exists in multiple ecosystems.
    pub fn speed_rank(self) -> (r: u8)
        ensures
            r == self.rank(),
    {
        match self {
            Ecosystem::Brew => 0,
            Ecosystem::Scoop => 1,
            Ecosystem::Winget => 2,
            Ecosystem::Chocolatey => 3,
        }
    }

    pub fn label(self) -> (r: &'static str)
        ensures
            r@ == self.name(),
    {
        match self {
            Ecosystem::Brew => "brew",
            Ecosystem::Scoop => "scoop",
            Ecosystem::Winget => "winget",
            Ecosystem::Chocolatey => "choco",
        }
    }
}

/// Different ecosystems have different ranks.
pub proof fn ranks_tell_ecosystems_apart(a: Ecosystem, b: Ecosystem)
    ensures
        a.rank() == b.rank() ==> a == b,
{
}

#[derive(Debug)]
pub struct PackageSpec {
    /// When set, install/search only this ecosystem.
    pub force: Option<Ecosystem>,
    /// Unqualified package id (no bang prefix).
    pub name: String,
}

/// `raw` begins with `prefix`, which is in small letters, in whatever case.
pub open spec fn has_prefix(raw: Seq<char>, prefix: Seq<char>) -> bool {
    raw.len() >= prefix.len() && text::ascii_lower(raw.take(prefix.len() as int)) == prefix
}

/// The ecosystem that a name is qualified with, and the length of that qualifier.
pub open spec fn qualifier(raw: Seq<char>) -> Option<(Ecosystem, int)> {
    if has_prefix(raw, "chocolatey/"@) {
        Some((Ecosystem::Chocolatey, 11))
    } else if has_prefix(raw, "choco/"@) {
        Some((Ecosystem::Chocolatey, 6))
    } else if has_prefix(raw, "scoop/"@) {
        Some((Ecosystem::Scoop, 6))
    } else if has_prefix(raw, "winget/"@) {
        Some((Ecosystem::Winget, 7))
    } else if has_prefix(raw, "brew/"@) {
        Some((Ecosystem::Brew, 5))
    } else if has_prefix(raw, "homebrew/"@) {
        Some((Ecosystem::Brew, 9))
    } else {
        None
    }
}

pub open spec fn forced(raw: Seq<char>) -> Option<Ecosystem> {
    match qualifier(raw) {
        Some((e, _)) => Some(e),
        None => None,
    }
}

pub open spec fn bare_name(raw: Seq<char>) -> Seq<char> {
    match qualifier(raw) {
        Some((_, n)) => raw.skip(n),
        None => raw,
    }
}

fn prefixed(raw: &[char], prefix: &str) -> (r: bool)
    ensures
        r == has_prefix(raw@, prefix@),
{
    let p = chars_of(prefix);
    if raw.len() < p.len() {
        return false;
    }
    let head = part(raw, 0, p.len());
    proof {
        assert(head@ =~= raw@.take(p@.len() as int));
    }
    crate::text::same(lowered(head).as_slice(), p.as_slice())
}

fn found(raw: &[char]) -> (r: Option<(Ecosystem, usize)>)
    ensures
        match qualifier(raw@) {
            Some((e, n)) => r matches Some((f, m)) && e == f && n == m && m <= raw@.len(),
            None => r is None,
        },
{
    proof {
        reveal_strlit("chocolatey/");
        reveal_strlit("choco/");
        reveal_strlit("scoop/");
        reveal_strlit("winget/");
        reveal_strlit("brew/");
        reveal_strlit("homebrew/");
    }
    if prefixed(raw, "chocolatey/") {
        Some((Ecosystem::Chocolatey, 11))
    } else if prefixed(raw, "choco/") {
        Some((Ecosystem::Chocolatey, 6))
    } else if prefixed(raw, "scoop/") {
        Some((Ecosystem::Scoop, 6))
    } else if prefixed(raw, "winget/") {
        Some((Ecosystem::Winget, 7))
    } else if prefixed(raw, "brew/") {
        Some((Ecosystem::Brew, 5))
    } else if prefixed(raw, "homebrew/") {
        Some((Ecosystem::Brew, 9))
    } else {
        None
    }
}

/// Parse `chocolatey/foo`, `choco/foo`, `scoop/foo`, `winget/foo`, `brew/foo`, `homebrew/foo`.
pub fn parse_package_spec(raw: &str) -> (r: PackageSpec)
    ensures
        r.force == forced(raw@),
        r.name@ == bare_name(raw@),
{
    let c = chars_of(raw);
    match found(c.as_slice()) {
        Some((eco, n)) => {
            let rest = part(c.as_slice(), n, c.len());
            proof {
                assert(rest@ =~= raw@.skip(n as int));
            }
            PackageSpec { force: Some(eco), name: string_of(rest) }
        },
        None => PackageSpec { force: None, name: String::from_str(raw) },
    }
}

/// Strip a search query bang for remote search (same rules as install).
pub fn parse_search_query(raw: &str) -> (r: (Option<Ecosystem>, String))
    ensures
        r.0 == forced(raw@),
        r.1@ == bare_name(raw@),
{
    let spec = parse_package_spec(raw);
    (spec.force, spec.name)
}

/// A name qualified with the label of an ecosystem is parsed back into the two.
pub proof fn label_qualifies(e: Ecosystem, name: Seq<char>)
    ensures
        forced(e.name() + "/"@ + name) == Some(e),
        bare_name(e.name() + "/"@ + name) == name,
{
    reveal_strlit("chocolatey/");
    reveal_strlit("choco/");
    reveal_strlit("scoop/");
    reveal_strlit("winget/");
    reveal_strlit("brew/");
    reveal_strlit("homebrew/");
    reveal_strlit("choco");
    reveal_strlit("scoop");
    reveal_strlit("winget");
    reveal_strlit("brew");
    reveal_strlit("/");
    let raw = e.name() + "/"@ + name;
    let p = e.name() + "/"@;
    let n = p.len() as int;
    assert(raw.take(n) =~= p);
    assert(text::ascii_lower(p) =~= p);
    match e {
        Ecosystem::Brew => {
            assert(p =~= "brew/"@);
            if has_prefix(raw, "chocolatey/"@) {
                assert(text::ascii_lower(raw.take(11))[0] == 'b');
            }
            if has_prefix(raw, "choco/"@) {
                assert(text::ascii_lower(raw.take(6))[0] == 'b');
            }
            if has_prefix(raw, "scoop/"@) {
                assert(text::ascii_lower(raw.take(6))[0] == 'b');
            }
            if has_prefix(raw, "winget/"@) {
                assert(text::ascii_lower(raw.take(7))[0] == 'b');
            }
        },
        Ecosystem::Scoop => {
            assert(p =~= "scoop/"@);
            if has_prefix(raw, "chocolatey/"@) {
                assert(text::ascii_lower(raw.take(11))[0] == 's');
            }
            if has_prefix(raw, "choco/"@) {
                assert(text::ascii_lower(raw.take(6))[0] == 's');
            }
        },
        Ecosystem::Winget => {
            assert(p =~= "winget/"@);
            if has_prefix(raw, "chocolatey/"@) {
                assert(text::ascii_lower(raw.take(11))[0] == 'w');
            }
            if has_prefix(raw, "choco/"@) {
                assert(text::ascii_lower(raw.take(6))[0] == 'w');
            }
            if has_prefix(raw, "scoop/"@) {
                assert(text::ascii_lower(raw.take(6))[0] == 'w');
            }
        },
        Ecosystem::Chocolatey => {
            assert(p =~= "choco/"@);
            if has_prefix(raw, "chocolatey/"@) {
                assert(text::ascii_lower(raw.take(11))[5] == '/');
            }
        },
    }
    assert(raw.skip(n) =~= name);
}

/// Each ecosystem has its name and its place: Homebrew is the fastest, then Scoop, winget
/// and Chocolatey.
pub proof fn ecosystems_are_ranked_and_named()
    ensures
        Ecosystem::Brew.rank() < Ecosystem::Scoop.rank(),
        Ecosystem::Scoop.rank() < Ecosystem::Winget.rank(),
        Ecosystem::Winget.rank() < Ecosystem::Chocolatey.rank(),
        Ecosystem::Brew.rank() == 0,
        Ecosystem::Chocolatey.rank() == 3,
        Ecosystem::Brew.name() == "brew"@,
        Ecosystem::Scoop.name() == "scoop"@,
        Ecosystem::Winget.name() == "winget"@,
        Ecosystem::Chocolatey.name() == "choco"@,
{
}

proof fn lowered_prefix(p: Seq<char>, q: Seq<char>, name: Seq<char>)
    requires
        text::ascii_lower(p) == q,
    ensures
        has_prefix(p + name, q),
        p.len() == q.len(),
{
    assert(text::ascii_lower(p).len() == p.len());
    assert((p + name).take(q.len() as int) =~= p);
}

/// The long names of two ecosystems qualify as well, in capitals or not; what has no prefix
/// is left as it is.
pub proof fn long_names_qualify(p: Seq<char>, name: Seq<char>, raw: Seq<char>)
    ensures
        text::ascii_lower(p) == "chocolatey/"@ ==> forced(p + name) == Some(Ecosystem::Chocolatey)
            && bare_name(p + name) == name,
        text::ascii_lower(p) == "homebrew/"@ ==> forced(p + name) == Some(Ecosystem::Brew)
            && bare_name(p + name) == name,
        !has_prefix(raw, "chocolatey/"@) && !has_prefix(raw, "choco/"@) && !has_prefix(
            raw,
            "scoop/"@,
        ) && !has_prefix(raw, "winget/"@) && !has_prefix(raw, "brew/"@) && !has_prefix(
            raw,
            "homebrew/"@,
        ) ==> forced(raw) is None && bare_name(raw) == raw,
{
    reveal_strlit("chocolatey/");
    reveal_strlit("choco/");
    reveal_strlit("scoop/");
    reveal_strlit("winget/");
    reveal_strlit("brew/");
    reveal_strlit("homebrew/");
    let s = p + name;
    if text::ascii_lower(p) == "chocolatey/"@ {
        lowered_prefix(p, "chocolatey/"@, name);
        assert(s.skip(11) =~= name);
    }
    if text::ascii_lower(p) == "homebrew/"@ {
        lowered_prefix(p, "homebrew/"@, name);
        assert(s.skip(9) =~= name);
        assert(text::ascii_lower(p)[0] == text::lower_char(s[0]));
        assert forall|q: Seq<char>| #[trigger] has_prefix(s, q) && q.len() > 0 implies q[0]
            == 'h' by {
            assert(text::ascii_lower(s.take(q.len() as int))[0] == text::lower_char(s[0]));
        }
        assert("chocolatey/"@[0] == 'c' && "choco/"@[0] == 'c' && "scoop/"@[0] == 's'
            && "winget/"@[0] == 'w' && "brew/"@[0] == 'b');
    }
}

}
