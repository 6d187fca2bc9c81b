//! Updating wax itself.
use crate::error::{Result, WaxError};
use crate::outside::{lossy_text, sha256_hex};
use crate::text::{
    chars_of, parsed_u64, pieces, same_str, string_of, trimmed, without_leading,
};
use crate::ui::dirs;
use crate::{outside, text};
use vstd::prelude::*;

verus! {

/// Where an update comes from.
#[derive(Debug, Clone, Copy, PartialEq, Eq, Structural)]
pub enum Channel {
    Stable,
    Nightly,
}

impl Channel {
    pub fn name(&self) -> (r: &'static str)
        ensures
            r@ == match *self {
                Channel::Stable => "stable"@,
                Channel::Nightly => "nightly"@,
            },
    {
        match self {
            Channel::Stable => "stable",
            Channel::Nightly => "nightly",
        }
    }
}

/// The three numbers of a version, after any `v`s; what follows a hyphen in the
/// third part, and any further parts, are left out.
pub open spec fn version_of(s: Seq<char>) -> Option<(nat, nat, nat)> {
    let parts = text::split(text::trim_start_char(s, 'v'), '.');
    if parts.len() < 3 {
        None
    } else {
        match (
            text::parse_number(parts[0], u32::MAX as nat),
            text::parse_number(parts[1], u32::MAX as nat),
            text::parse_number(text::split(parts[2], '-')[0], u32::MAX as nat),
        ) {
            (Some(a), Some(b), Some(c)) => Some((a, b, c)),
            _ => None,
        }
    }
}

/// The order of versions: by the first number, then the second, then the third.
pub open spec fn version_less(a: (nat, nat, nat), b: (nat, nat, nat)) -> bool {
    a.0 < b.0 || (a.0 == b.0 && (a.1 < b.1 || (a.1 == b.1 && a.2 < b.2)))
}

/// Both are versions, and the second is the newer one.
pub open spec fn newer(current: Seq<char>, latest: Seq<char>) -> bool {
    match (version_of(current), version_of(latest)) {
        (Some(c), Some(l)) => version_less(c, l),
        _ => false,
    }
}

/// No version is newer than itself.
pub proof fn newer_is_irreflexive(a: Seq<char>)
    ensures
        !newer(a, a),
{
}

/// What is newer than a newer version is newer.
pub proof fn newer_is_transitive(a: Seq<char>, b: Seq<char>, c: Seq<char>)
    requires
        newer(a, b),
        newer(b, c),
    ensures
        newer(a, c),
{
}

/// Of two versions with different numbers, one is newer.
pub proof fn newer_is_total(a: Seq<char>, b: Seq<char>)
    requires
        version_of(a) is Some,
        version_of(b) is Some,
        version_of(a) != version_of(b),
    ensures
        newer(a, b) != newer(b, a),
{
}

/// The three numbers of a version.
pub fn parse_version(version: &str) -> (r: Option<(u32, u32, u32)>)
    ensures
        match r {
            Some((a, b, c)) => version_of(version@) == Some((a as nat, b as nat, c as nat)),
            None => version_of(version@) is None,
        },
{
    let s = chars_of(version);
    let v = without_leading(s.as_slice(), 'v');
    let parts = pieces(v, '.');
    if parts.len() < 3 {
        return None;
    }
    proof {
        assert(text::slices(parts@)[0] == parts@[0]@);
        assert(text::slices(parts@)[1] == parts@[1]@);
        assert(text::slices(parts@)[2] == parts@[2]@);
    }
    let third = pieces(parts[2], '-');
    proof {
        assert(text::slices(third@)[0] == third@[0]@);
    }
    match (
        parsed_u64(parts[0], u32::MAX as u64),
        parsed_u64(parts[1], u32::MAX as u64),
        parsed_u64(third[0], u32::MAX as u64),
    ) {
        (Some(a), Some(b), Some(c)) => Some((a as u32, b as u32, c as u32)),
        _ => None,
    }
}

/// Whether both are versions, and the second is the newer one.
pub fn is_newer(current: &str, latest: &str) -> (r: bool)
    ensures
        r == newer(current@, latest@),
{
    match (parse_version(current), parse_version(latest)) {
        (Some(c), Some(l)) => c.0 < l.0 || (c.0 == l.0 && (c.1 < l.1 || (c.1 == l.1 && c.2
            < l.2))),
        _ => false,
    }
}

pub open spec fn asset_os(os: Seq<char>) -> Option<Seq<char>> {
    if os == "linux"@ {
        Some("linux"@)
    } else if os == "macos"@ {
        Some("macos"@)
    } else {
        None
    }
}

pub open spec fn asset_arch(arch: Seq<char>) -> Option<Seq<char>> {
    if arch == "x86_64"@ {
        Some("x64"@)
    } else if arch == "aarch64"@ {
        Some("arm64"@)
    } else {
        None
    }
}

/// The name of the file that a release has for a platform.
pub fn asset_name(os: &str, arch: &str) -> (r: Result<String>)
    ensures
        match asset_os(os@) {
            None => r matches Err(WaxError::SelfUpdateError(m)) && m@
                == "Unsupported OS for self-update: "@ + os@,
            Some(o) => match asset_arch(arch@) {
                None => r matches Err(WaxError::SelfUpdateError(m)) && m@
                    == "Unsupported architecture for self-update: "@ + arch@,
                Some(a) => r matches Ok(n) && n@ == "wax-"@ + o + "-"@ + a,
            },
        },
{
    let o = if same_str(os, "linux") {
        "linux"
    } else if same_str(os, "macos") {
        "macos"
    } else {
        let mut m = String::from_str("Unsupported OS for self-update: ");
        m.append(os);
        return Err(WaxError::SelfUpdateError(m));
    };
    let a = if same_str(arch, "x86_64") {
        "x64"
    } else if same_str(arch, "aarch64") {
        "arm64"
    } else {
        let mut m = String::from_str("Unsupported architecture for self-update: ");
        m.append(arch);
        return Err(WaxError::SelfUpdateError(m));
    };
    let mut n = String::from_str("wax-");
    n.append(o);
    n.append("-");
    n.append(a);
    Ok(n)
}

/// The version that a release's tag names.
pub fn release_version(tag: &str) -> (r: String)
    ensures
        r@ == text::trim_start_char(tag@, 'v'),
{
    let c = chars_of(tag);
    string_of(without_leading(c.as_slice(), 'v'))
}

/// Whether a release is installed: one that is newer, or any by force.
pub fn self_update(current: &str, tag: &str, force: bool) -> (r: bool)
    ensures
        r == (newer(current@, text::trim_start_char(tag@, 'v')) || force),
{
    let latest = release_version(tag);
    is_newer(current, latest.as_str()) || force
}

/// Where the file of a release is, and where its checksum is.
pub fn release_urls(tag: &str, asset: &str) -> (r: (String, String))
    ensures
        r.0@ == "https://github.com/semitechnological/wax/releases/download/"@ + tag@ + "/"@
            + asset@,
        r.1@ == "https://github.com/semitechnological/wax/releases/download/"@ + tag@ + "/"@
            + asset@ + ".sha256"@,
{
    let mut binary = String::from_str(
        "https://github.com/semitechnological/wax/releases/download/",
    );
    binary.append(tag);
    binary.append("/");
    binary.append(asset);
    let mut sha = binary.clone();
    sha.append(".sha256");
    (binary, sha)
}

/// What is said of a file whose checksum is another.
pub open spec fn mismatch_text(expected: Seq<char>, actual: Seq<char>) -> Seq<char> {
    "SHA256 mismatch — download may be corrupted\n  expected: "@ + expected + "\n  actual:   "@
        + actual
}

/// Accepts a checksum that is the expected one, where there is one.
pub open spec fn checksum_fault(actual: Seq<char>, shown: Option<Seq<char>>) -> Option<Seq<char>> {
    match shown {
        Some(s) => {
            let expected = text::trim(s);
            if expected.len() == 0 || expected == actual {
                None
            } else {
                Some(mismatch_text(expected, actual))
            }
        },
        None => None,
    }
}

pub open spec fn lossy_view(v: Option<&[u8]>) -> Option<Seq<char>> {
    match v {
        Some(b) => Some(outside::lossy(b@)),
        None => None,
    }
}

/// Refuses a file whose checksum is not the one that its release names, if it
/// names one.
pub fn verify_release(binary: &[u8], sha_file: Option<&[u8]>) -> (r: Result<()>)
    ensures
        match checksum_fault(outside::sha256_of(binary@), lossy_view(sha_file)) {
            None => r is Ok,
            Some(e) => r matches Err(WaxError::SelfUpdateError(m)) && m@ == e,
        },
{
    let actual = sha256_hex(binary);
    match sha_file {
        Some(b) => {
            let shown = lossy_text(b);
            check_release(actual.as_str(), Some(shown.as_str()))
        },
        None => check_release(actual.as_str(), None),
    }
}

/// Refuses a checksum that is not the expected one, if there is one.
pub fn check_release(actual: &str, shown: Option<&str>) -> (r: Result<()>)
    ensures
        match checksum_fault(actual@, dirs::str_view(shown)) {
            None => r is Ok,
            Some(e) => r matches Err(WaxError::SelfUpdateError(m)) && m@ == e,
        },
{
    match shown {
        Some(s) => {
            let c = chars_of(s);
            let t = trimmed(c.as_slice());
            let expected = string_of(t);
            if t.len() == 0 || same_str(expected.as_str(), actual) {
                Ok(())
            } else {
                let mut m = String::from_str(
                    "SHA256 mismatch — download may be corrupted\n  expected: ",
                );
                m.append(expected.as_str());
                m.append("\n  actual:   ");
                m.append(actual);
                Err(WaxError::SelfUpdateError(m))
            }
        },
        None => Ok(()),
    }
}

/// The arguments with which the latest source is built.
pub fn nightly_args(force: bool) -> (r: Vec<String>)
    ensures
        text::views(r@) == seq![
            "install"@,
            "--git"@,
            "https://github.com/semitechnological/wax"@,
            "--bin"@,
            "wax"@,
        ] + (if force {
            seq!["--force"@]
        } else {
            Seq::empty()
        }),
{
    let mut v: Vec<String> = Vec::new();
    v.push(String::from_str("install"));
    v.push(String::from_str("--git"));
    v.push(String::from_str("https://github.com/semitechnological/wax"));
    v.push(String::from_str("--bin"));
    v.push(String::from_str("wax"));
    if force {
        v.push(String::from_str("--force"));
    }
    proof {
        assert(text::views(v@) =~= seq![
            "install"@,
            "--git"@,
            "https://github.com/semitechnological/wax"@,
            "--bin"@,
            "wax"@,
        ] + (if force {
            seq!["--force"@]
        } else {
            Seq::empty()
        }));
    }
    v
}

proof fn plain_number(n: nat)
    requires
        n <= u32::MAX,
    ensures
        text::parse_number(text::decimal(n), u32::MAX as nat) == Some(n),
        !text::decimal(n).contains('.'),
        !text::decimal(n).contains('-'),
        text::decimal(n).len() > 0,
        text::decimal(n)[0] != 'v',
{
    text::decimal_is_number(n);
    text::numbers_are_read_back(n, u32::MAX as nat);
}

/// A version is read back from its three numbers, with or without a letter before them and
/// whatever follows a dash behind them.
pub proof fn versions_are_read_back(a: nat, b: nat, c: nat, rest: Seq<char>)
    requires
        a <= u32::MAX && b <= u32::MAX && c <= u32::MAX,
        !rest.contains('.'),
    ensures
        ({
            let s = text::decimal(a) + seq!['.'] + text::decimal(b) + seq!['.'] + text::decimal(c);
            &&& version_of(s) == Some((a, b, c))
            &&& version_of(seq!['v'] + s) == Some((a, b, c))
            &&& version_of(s + seq!['-'] + rest) == Some((a, b, c))
        }),
{
    let (x, y, z) = (text::decimal(a), text::decimal(b), text::decimal(c));
    plain_number(a);
    plain_number(b);
    plain_number(c);
    let s = x + seq!['.'] + y + seq!['.'] + z;
    three_pieces(x, y, z);
    text::trimming_drops_one_character(s, 'v');
    assert(s[0] == x[0]);
    text::plain_is_one_piece(z, '-');
    let w = z + seq!['-'] + rest;
    assert(!w.contains('.')) by {
        if w.contains('.') {
            let j = choose|j: int| 0 <= j < w.len() && w[j] == '.';
            if j < z.len() {
                assert(z[j] == '.');
            } else if j > z.len() {
                assert(rest[j - z.len() - 1] == '.');
            }
        }
    }
    let t = s + seq!['-'] + rest;
    three_pieces(x, y, w);
    assert(t =~= x + seq!['.'] + y + seq!['.'] + w);
    text::trimming_drops_one_character(t, 'v');
    assert(t[0] == x[0]);
    text::split_of_both(z, rest, '-');
    assert(z.push('-') + rest =~= w);
    assert(text::split(w, '-')[0] == z);
}

proof fn three_pieces(x: Seq<char>, y: Seq<char>, z: Seq<char>)
    requires
        !x.contains('.') && !y.contains('.') && !z.contains('.'),
    ensures
        text::split(x + seq!['.'] + y + seq!['.'] + z, '.') == seq![x, y, z],
{
    text::plain_is_one_piece(x, '.');
    text::plain_is_one_piece(y, '.');
    text::plain_is_one_piece(z, '.');
    let s = x + seq!['.'] + y + seq!['.'] + z;
    let yz = y.push('.') + z;
    assert(s =~= x.push('.') + yz);
    text::split_of_both(x, yz, '.');
    text::split_of_both(y, z, '.');
    assert(seq![x] + (seq![y] + seq![z]) =~= seq![x, y, z]);
}

/// A version is newer whose first different number is greater; what is no version is never
/// newer.
pub proof fn first_greater_number_is_newer(a: (nat, nat, nat), b: (nat, nat, nat))
    ensures
        a.0 < b.0 ==> version_less(a, b),
        a.0 == b.0 && a.1 < b.1 ==> version_less(a, b),
        a.0 == b.0 && a.1 == b.1 && a.2 < b.2 ==> version_less(a, b),
        a.0 > b.0 ==> !version_less(a, b),
        !version_less(a, a),
{
}

/// Only a version is newer, and only than a version, by their numbers.
pub proof fn only_versions_are_newer(
    current: Seq<char>,
    latest: Seq<char>,
    c: (nat, nat, nat),
    l: (nat, nat, nat),
)
    ensures
        version_of(current) is None ==> !newer(current, latest),
        version_of(latest) is None ==> !newer(current, latest),
        version_of(current) == Some(c) && version_of(latest) == Some(l) ==> (newer(current, latest)
            <==> version_less(c, l)),
{
}

/// Each system and machine that there is a release for has its word in the name of it.
pub proof fn releases_are_named(os: Seq<char>, arch: Seq<char>)
    ensures
        asset_os("linux"@) == Some("linux"@),
        asset_os("macos"@) == Some("macos"@),
        os != "linux"@ && os != "macos"@ ==> asset_os(os) is None,
        asset_arch("x86_64"@) == Some("x64"@),
        asset_arch("aarch64"@) == Some("arm64"@),
        arch != "x86_64"@ && arch != "aarch64"@ ==> asset_arch(arch) is None,
{
    reveal_strlit("linux");
    reveal_strlit("macos");
    reveal_strlit("x86_64");
    reveal_strlit("aarch64");
    assert("linux"@[0] == 'l' && "macos"@[0] == 'm');
    assert("x86_64"@[0] == 'x' && "aarch64"@[0] == 'a');
}

/// A download with another checksum than the one that is shown is refused, and both are
/// told; without one it is taken.
pub proof fn other_checksums_are_refused(actual: Seq<char>, shown: Seq<char>)
    ensures
        text::trim(shown).len() > 0 && text::trim(shown) != actual ==> checksum_fault(
            actual,
            Some(shown),
        ) == Some(
            "SHA256 mismatch — download may be corrupted\n  expected: "@ + text::trim(shown)
                + "\n  actual:   "@ + actual,
        ),
        text::trim(shown) == actual ==> checksum_fault(actual, Some(shown)) is None,
        text::trim(shown).len() == 0 ==> checksum_fault(actual, Some(shown)) is None,
        checksum_fault(actual, None) is None,
{
}

}
