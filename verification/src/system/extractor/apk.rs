//! Alpine packages: gzip streams one after another, the first a signature.
use super::{
    place_entry, placement, unpack_entries, unpacking, EntryKind, Placement, PlacementView, Unpacking,
};
use crate::{outside, text};
use crate::error::{Result, WaxError};
use crate::outside::gz_packed;
use crate::text::{begins, chars_of, is};
use vstd::prelude::*;

verus! {

/// A gzip stream may begin at `i`.
pub open spec fn magic_at(data: Seq<u8>, i: int) -> bool {
    0 <= i && i + 1 < data.len() && data[i] == 0x1f && data[i + 1] == 0x8b
}

/// The first position behind the first two bytes at which a gzip stream may begin.
pub fn find_second_gz_magic(data: &[u8]) -> (r: Option<usize>)
    ensures
        match r {
            Some(i) => 2 <= i && magic_at(data@, i as int) && forall|j: int|
                2 <= j < i ==> !magic_at(data@, j),
            None => forall|j: int| 2 <= j ==> !magic_at(data@, j),
        },
{
    let n: usize = data.len();
    if n < 2 {
        return None;
    }
    let mut i: usize = 2;
    while i < n - 1
        invariant
            n == data@.len(),
            n >= 2,
            2 <= i,
            forall|j: int| 2 <= j < i ==> !magic_at(data@, j),
        decreases n - i,
    {
        if data[i] == 0x1f && data[i + 1] == 0x8b {
            return Some(i);
        }
        i += 1;
    }
    None
}

/// What unpacking a package comes to: the archive is what follows the signature.
pub fn extract_tracked(data: &[u8]) -> (r: Result<Unpacking>)
    ensures
        (forall|j: int| 2 <= j ==> !magic_at(data@, j)) ==> (r matches Err(
            WaxError::InstallError(m),
        ) && m@ == "Could not find second gzip stream in .apk file"@),
        forall|i: int|
            2 <= i && #[trigger] magic_at(data@, i) && (forall|j: int|
                2 <= j < i ==> !magic_at(data@, j)) ==> (r matches Ok(u) && u@ == unpacking(
                outside::gz_packed_entries(data@.skip(i)),
                true,
            )),
{
    match find_second_gz_magic(data) {
        None => Err(
            WaxError::InstallError(
                String::from_str("Could not find second gzip stream in .apk file"),
            ),
        ),
        Some(start) => {
            let n: usize = data.len();
            let stream = &data[start..n];
            proof {
                assert(stream@ =~= data@.skip(start as int));
                assert(magic_at(data@, start as int));
                assert forall|i: int|
                    2 <= i && #[trigger] magic_at(data@, i) && (forall|j: int|
                        2 <= j < i ==> !magic_at(data@, j)) implies i == start by {
                    if i < start {
                        assert(!magic_at(data@, i));
                    }
                    if start < i {
                        assert(!magic_at(data@, start as int));
                    }
                }
            }
            Ok(unpack_entries(&gz_packed(stream), true))
        },
    }
}

/// The files that describe the package instead of belonging to it.
pub open spec fn is_control(path: Seq<char>) -> bool {
    path == ".PKGINFO"@ || path == ".INSTALL"@ || text::starts_with(path, ".SIGN."@)
}

pub open spec fn apk_placement(path: Seq<char>, kind: EntryKind) -> PlacementView {
    if is_control(path) {
        PlacementView::Skip
    } else {
        placement(path, kind)
    }
}

/// What to do with an entry of a package's archive.
pub fn place_apk_entry(path: &str, kind: EntryKind) -> (r: Placement)
    ensures
        r@ == apk_placement(path@, kind),
{
    let c = chars_of(path);
    let p = c.as_slice();
    if is(p, ".PKGINFO") || is(p, ".INSTALL") || begins(p, ".SIGN.") {
        Placement::Skip
    } else {
        place_entry(path, kind)
    }
}

/// The files that control a package are not placed; every other file is placed as in
/// any package.
pub proof fn control_files_are_not_placed(path: Seq<char>, rest: Seq<char>, kind: EntryKind)
    ensures
        apk_placement(".PKGINFO"@, kind) == PlacementView::Skip,
        apk_placement(".INSTALL"@, kind) == PlacementView::Skip,
        apk_placement(".SIGN."@ + rest, kind) == PlacementView::Skip,
        path != ".PKGINFO"@ && path != ".INSTALL"@ && !text::starts_with(path, ".SIGN."@)
            ==> apk_placement(path, kind) == placement(path, kind),
{
    text::stripping_undoes_prefixing(".SIGN."@, rest);
}

/// A stream begins where its two marking bytes stand one after the other.
pub proof fn streams_begin_with_two_bytes(before: Seq<u8>, a: u8, b: u8, after: Seq<u8>)
    ensures
        magic_at(before + seq![a, b] + after, before.len() as int) <==> a == 0x1f && b == 0x8b,
{
    let s = before + seq![a, b] + after;
    assert(s[before.len() as int] == a);
    assert(s[before.len() as int + 1] == b);
}

}
