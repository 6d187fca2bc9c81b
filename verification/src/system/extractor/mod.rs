//! Unpacking package files: which parts of them go where.
pub mod apk;
pub mod deb;
pub mod rpm;

use crate::text;
use crate::error::{Result, WaxError};
use crate::outside::{packed_views, Packed, PackedView};
use crate::text::{after_prefix, chars_of, ends, has, string_of};
use vstd::prelude::*;

verus! {

/// The formats that packages come in.
#[derive(Debug, Clone, Copy, PartialEq, Eq, Structural)]
pub enum PackageKind {
    Deb,
    Pacman,
    Apk,
    Rpm,
}

/// The format that a file's name tells.
pub open spec fn kind_of(name: Seq<char>) -> Option<PackageKind> {
    if text::ends_with(name, ".deb"@) {
        Some(PackageKind::Deb)
    } else if text::ends_with(name, ".pkg.tar.zst"@) || text::ends_with(name, ".pkg.tar.xz"@) || text::ends_with(
        name,
        ".pkg.tar.gz"@,
    ) {
        Some(PackageKind::Pacman)
    } else if text::ends_with(name, ".apk"@) {
        Some(PackageKind::Apk)
    } else if text::ends_with(name, ".rpm"@) {
        Some(PackageKind::Rpm)
    } else {
        None
    }
}

/// Which extractor the package file at `path` needs.
pub fn extract_package_tracked(path: &str) -> (r: Result<PackageKind>)
    ensures
        match kind_of(path@) {
            Some(k) => r == Ok::<PackageKind, WaxError>(k),
            None => r matches Err(WaxError::InstallError(m)) && m@ == "unknown package format: "@
                + path@,
        },
{
    let c = chars_of(path);
    let n = c.as_slice();
    if ends(n, ".deb") {
        Ok(PackageKind::Deb)
    } else if ends(n, ".pkg.tar.zst") || ends(n, ".pkg.tar.xz") || ends(n, ".pkg.tar.gz") {
        Ok(PackageKind::Pacman)
    } else if ends(n, ".apk") {
        Ok(PackageKind::Apk)
    } else if ends(n, ".rpm") {
        Ok(PackageKind::Rpm)
    } else {
        let mut m = String::from_str("unknown package format: ");
        m.append(path);
        Err(WaxError::InstallError(m))
    }
}

/// What an entry of an archive is.
#[derive(Debug, Clone, Copy, PartialEq, Eq, Structural)]
pub enum EntryKind {
    Dir,
    /// A symbolic link; `named` tells whether the archive says where it leads.
    Symlink { named: bool },
    Other,
}

/// What to do with an entry, below the directory that is unpacked into.
#[derive(Debug)]
pub enum Placement {
    Skip,
    MakeDir(String),
    Link(String),
    Unpack(String),
}

/// The mathematical content of a `Placement`.
pub enum PlacementView {
    Skip,
    MakeDir(Seq<char>),
    Link(Seq<char>),
    Unpack(Seq<char>),
}

impl View for Placement {
    type V = PlacementView;

    open spec fn view(&self) -> PlacementView {
        match *self {
            Placement::Skip => PlacementView::Skip,
            Placement::MakeDir(p) => PlacementView::MakeDir(p@),
            Placement::Link(p) => PlacementView::Link(p@),
            Placement::Unpack(p) => PlacementView::Unpack(p@),
        }
    }
}

/// A `Placement` is seen as what it holds.
pub proof fn placement_is_seen_as_it_is(x: Placement)
    ensures
        x is Skip ==> x@ == PlacementView::Skip,
        x matches Placement::MakeDir(p) ==> x@ == (PlacementView::MakeDir(p@)),
        x matches Placement::Link(p) ==> x@ == (PlacementView::Link(p@)),
        x matches Placement::Unpack(p) ==> x@ == (PlacementView::Unpack(p@)),
{
}

/// An entry's path without the `./` it may begin with.
pub open spec fn stripped(path: Seq<char>) -> Seq<char> {
    match text::strip_prefix(path, "./"@) {
        Some(rest) => rest,
        None => path,
    }
}

/// An entry without a path of its own, or with a path that leads upwards, is
/// skipped; every other one is placed by its kind. A link that leads nowhere is
/// skipped too.
pub open spec fn placement(path: Seq<char>, kind: EntryKind) -> PlacementView {
    let p = stripped(path);
    if p.len() == 0 || text::contains(p, ".."@) {
        PlacementView::Skip
    } else {
        match kind {
            EntryKind::Dir => PlacementView::MakeDir(p),
            EntryKind::Symlink { named } => if named {
                PlacementView::Link(p)
            } else {
                PlacementView::Skip
            },
            EntryKind::Other => PlacementView::Unpack(p),
        }
    }
}

pub fn place_entry(path: &str, kind: EntryKind) -> (r: Placement)
    ensures
        r@ == placement(path@, kind),
{
    let c = chars_of(path);
    let p = match after_prefix(c.as_slice(), "./") {
        Some(rest) => rest,
        None => c.as_slice(),
    };
    if p.len() == 0 || has(p, "..") {
        return Placement::Skip;
    }
    match kind {
        EntryKind::Dir => Placement::MakeDir(string_of(p)),
        EntryKind::Symlink { named } => if named {
            Placement::Link(string_of(p))
        } else {
            Placement::Skip
        },
        EntryKind::Other => Placement::Unpack(string_of(p)),
    }
}

/// What becomes of an entry; in an Alpine package the files that describe the
/// package are skipped. Where a link leads is only asked of a link that is placed.
pub open spec fn placed(e: PackedView, alpine: bool) -> std::result::Result<PlacementView, Seq<char>> {
    let kind = if e.dir {
        EntryKind::Dir
    } else if e.symlink {
        EntryKind::Symlink { named: e.link != Ok::<Option<Seq<char>>, Seq<char>>(None) }
    } else {
        EntryKind::Other
    };
    let p = if alpine {
        apk::apk_placement(e.path, kind)
    } else {
        placement(e.path, kind)
    };
    match (p, e.link) {
        (PlacementView::Link(_), Err(m)) => Err(m),
        _ => Ok(p),
    }
}

/// What unpacking an archive comes to: what is done with one entry after another,
/// and the fault that ends it, if there is one.
#[derive(Debug)]
pub struct Unpacking {
    pub placements: Vec<Placement>,
    pub fault: Option<String>,
}

/// The mathematical content of an `Unpacking`.
pub struct UnpackingView {
    pub placements: Seq<PlacementView>,
    pub fault: Option<Seq<char>>,
}

pub open spec fn placement_views(v: Seq<Placement>) -> Seq<PlacementView> {
    Seq::new(v.len(), |i: int| v[i]@)
}

impl View for Unpacking {
    type V = UnpackingView;

    open spec fn view(&self) -> UnpackingView {
        UnpackingView {
            placements: placement_views(self.placements@),
            fault: text::opt_view(self.fault),
        }
    }
}

/// An `Unpacking` is seen as what it holds.
pub proof fn unpacking_is_seen_as_it_is(x: Unpacking)
    ensures
        x@.placements == placement_views(x.placements@),
        x@.fault == text::opt_view(x.fault),
{
}

/// What unpacking the entries of an archive comes to: the first that cannot be had
/// ends it.
pub open spec fn unpacking(
    l: Seq<std::result::Result<PackedView, Seq<char>>>,
    alpine: bool,
) -> UnpackingView
    decreases l.len(),
{
    if l.len() == 0 {
        UnpackingView { placements: Seq::empty(), fault: None }
    } else {
        let before = unpacking(l.drop_last(), alpine);
        if before.fault is Some {
            before
        } else {
            match l.last() {
                Err(m) => UnpackingView { fault: Some(m), ..before },
                Ok(e) => match placed(e, alpine) {
                    Ok(p) => UnpackingView { placements: before.placements.push(p), ..before },
                    Err(m) => UnpackingView { fault: Some(m), ..before },
                },
            }
        }
    }
}

fn place(e: &Packed, alpine: bool) -> (r: std::result::Result<Placement, String>)
    ensures
        match placed(e@, alpine) {
            Ok(p) => r matches Ok(q) && q@ == p,
            Err(m) => r matches Err(t) && t@ == m,
        },
{
    let kind = if e.dir {
        EntryKind::Dir
    } else if e.symlink {
        let named = match &e.link {
            Ok(None) => false,
            _ => true,
        };
        EntryKind::Symlink { named }
    } else {
        EntryKind::Other
    };
    let p = if alpine {
        apk::place_apk_entry(e.path.as_str(), kind)
    } else {
        place_entry(e.path.as_str(), kind)
    };
    match &e.link {
        Err(m) => match p {
            Placement::Link(_) => Err(String::from_str(m.as_str())),
            _ => Ok(p),
        },
        Ok(_) => Ok(p),
    }
}

/// What unpacking the entries of an archive comes to.
pub fn unpack_entries(l: &Vec<std::result::Result<Packed, String>>, alpine: bool) -> (r: Unpacking)
    ensures
        r@ == unpacking(packed_views(l@), alpine),
{
    let ghost s = packed_views(l@);
    let mut placements: Vec<Placement> = Vec::new();
    let mut fault: Option<String> = None;
    proof {
        assert(placement_views(placements@) =~= unpacking(s.take(0), alpine).placements);
    }
    for i in 0..l.len()
        invariant
            s == packed_views(l@),
            placement_views(placements@) == unpacking(s.take(i as int), alpine).placements,
            text::opt_view(fault) == unpacking(s.take(i as int), alpine).fault,
    {
        proof {
            assert(s.take(i + 1).drop_last() =~= s.take(i as int));
            assert(s.take(i + 1).last() == s[i as int]);
        }
        if fault.is_none() {
            match &l[i] {
                Err(m) => {
                    fault = Some(String::from_str(m.as_str()));
                },
                Ok(e) => match place(e, alpine) {
                    Ok(p) => {
                        let ghost before = placements@;
                        placements.push(p);
                        proof {
                            assert(placement_views(placements@) =~= placement_views(before).push(p@));
                        }
                    },
                    Err(m) => {
                        fault = Some(m);
                    },
                },
            }
        }
    }
    proof {
        assert(s.take(l@.len() as int) =~= s);
    }
    Unpacking { placements, fault }
}

/// Whatever is placed lies below the directory that is unpacked into: no path
/// leads upwards.
pub proof fn nothing_is_placed_upwards(path: Seq<char>, kind: EntryKind)
    ensures
        match placement(path, kind) {
            PlacementView::Skip => true,
            PlacementView::MakeDir(p) => p.len() > 0 && !text::contains(p, ".."@),
            PlacementView::Link(p) => p.len() > 0 && !text::contains(p, ".."@),
            PlacementView::Unpack(p) => p.len() > 0 && !text::contains(p, ".."@),
        },
{
}

/// Nothing that an unpacking does leads upwards, whatever the archive holds.
pub proof fn no_unpacking_leads_upwards(
    l: Seq<std::result::Result<PackedView, Seq<char>>>,
    alpine: bool,
    i: int,
)
    requires
        0 <= i < unpacking(l, alpine).placements.len(),
    ensures
        match unpacking(l, alpine).placements[i] {
            PlacementView::Skip => true,
            PlacementView::MakeDir(p) => p.len() > 0 && !text::contains(p, ".."@),
            PlacementView::Link(p) => p.len() > 0 && !text::contains(p, ".."@),
            PlacementView::Unpack(p) => p.len() > 0 && !text::contains(p, ".."@),
        },
    decreases l.len(),
{
    let before = unpacking(l.drop_last(), alpine);
    if i < before.placements.len() {
        no_unpacking_leads_upwards(l.drop_last(), alpine, i);
    }
}

/// The ending of a package's name tells its kind.
pub proof fn endings_tell_kinds(base: Seq<char>, name: Seq<char>)
    ensures
        kind_of(base + ".deb"@) == Some(PackageKind::Deb),
        kind_of(base + ".apk"@) == Some(PackageKind::Apk),
        kind_of(base + ".rpm"@) == Some(PackageKind::Rpm),
        kind_of(base + ".pkg.tar.zst"@) == Some(PackageKind::Pacman),
        kind_of(base + ".pkg.tar.xz"@) == Some(PackageKind::Pacman),
        kind_of(base + ".pkg.tar.gz"@) == Some(PackageKind::Pacman),
        kind_of(name) == Some(PackageKind::Deb) ==> text::ends_with(name, ".deb"@),
        kind_of(name) == Some(PackageKind::Apk) ==> text::ends_with(name, ".apk"@),
        kind_of(name) == Some(PackageKind::Rpm) ==> text::ends_with(name, ".rpm"@),
        kind_of(name) == Some(PackageKind::Pacman) ==> text::ends_with(name, ".pkg.tar.zst"@)
            || text::ends_with(name, ".pkg.tar.xz"@) || text::ends_with(name, ".pkg.tar.gz"@),
{
    reveal_strlit(".deb");
    reveal_strlit(".apk");
    reveal_strlit(".rpm");
    reveal_strlit(".pkg.tar.zst");
    reveal_strlit(".pkg.tar.xz");
    reveal_strlit(".pkg.tar.gz");
    assert(".deb"@.last() == 'b' && ".apk"@.last() == 'k' && ".rpm"@.last() == 'm');
    assert(".pkg.tar.zst"@.last() == 't' && ".pkg.tar.xz"@.last() == 'z' && ".pkg.tar.gz"@.last()
        == 'z');
    last_decides(base, ".deb"@);
    last_decides(base, ".apk"@);
    last_decides(base, ".rpm"@);
    last_decides(base, ".pkg.tar.zst"@);
    last_decides(base, ".pkg.tar.xz"@);
    last_decides(base, ".pkg.tar.gz"@);
}

proof fn last_decides(base: Seq<char>, e: Seq<char>)
    requires
        e.len() > 0,
    ensures
        text::ends_with(base + e, e),
        forall|f: Seq<char>|
            f.len() > 0 && f.last() != e.last() ==> !#[trigger] text::ends_with(base + e, f),
{
    text::stripping_undoes_prefixing(e, base);
    let s = base + e;
    assert forall|f: Seq<char>| f.len() > 0 && f.last() != e.last() implies !#[trigger] text::ends_with(
        s,
        f,
    ) by {
        if text::ends_with(s, f) {
            assert(s.subrange(s.len() - f.len(), s.len() as int)[f.len() - 1] == s[s.len() - 1]);
        }
    }
}

/// An entry is placed under its path, without the dot and slash that it may begin
/// with: a directory is made, a link that leads somewhere is linked, and anything else
/// is unpacked.
pub proof fn entries_are_placed_by_kind(p: Seq<char>)
    requires
        p.len() > 0,
        !text::contains(p, ".."@),
        !text::starts_with(p, "./"@),
    ensures
        placement(p, EntryKind::Dir) == PlacementView::MakeDir(p),
        placement(p, EntryKind::Other) == PlacementView::Unpack(p),
        placement(p, EntryKind::Symlink { named: true }) == PlacementView::Link(p),
        placement(p, EntryKind::Symlink { named: false }) == PlacementView::Skip,
        forall|kind: EntryKind| #[trigger] placement("./"@ + p, kind) == placement(p, kind),
        forall|kind: EntryKind| #[trigger] placement("./"@, kind) == PlacementView::Skip,
{
    text::stripping_undoes_prefixing("./"@, p);
    text::stripping_undoes_prefixing("./"@, Seq::empty());
    assert("./"@ + Seq::<char>::empty() =~= "./"@);
}

/// An entry of an archive is placed as the kind of thing that it is; a link whose
/// target cannot be read is a fault.
pub proof fn archived_entries_are_placed(e: PackedView, p: Seq<char>)
    requires
        e.path == p,
        p.len() > 0,
        !text::contains(p, ".."@),
        !text::starts_with(p, "./"@),
    ensures
        e.dir ==> placed(e, false) == Ok::<PlacementView, Seq<char>>(PlacementView::MakeDir(p)),
        !e.dir && !e.symlink ==> placed(e, false) == Ok::<PlacementView, Seq<char>>(
            PlacementView::Unpack(p),
        ),
        !e.dir && e.symlink ==> match e.link {
            Ok(Some(_)) => placed(e, false) == Ok::<PlacementView, Seq<char>>(
                PlacementView::Link(p),
            ),
            Ok(None) => placed(e, false) == Ok::<PlacementView, Seq<char>>(PlacementView::Skip),
            Err(m) => placed(e, false) == Err::<PlacementView, Seq<char>>(m),
        },
        !apk::is_control(p) ==> placed(e, true) == placed(e, false),
        apk::is_control(p) ==> placed(e, true) == Ok::<PlacementView, Seq<char>>(
            PlacementView::Skip,
        ),
{
    entries_are_placed_by_kind(p);
}

/// The entries of an archive are placed one after another, up to the first that cannot
/// be: what follows it is not looked at.
pub proof fn unpacking_ends_at_the_first_fault(
    l: Seq<std::result::Result<PackedView, Seq<char>>>,
    e: PackedView,
    m: Seq<char>,
    alpine: bool,
)
    ensures
        unpacking(l, alpine).fault is None ==> ({
            &&& placed(e, alpine) matches Ok(p) ==> unpacking(l.push(Ok(e)), alpine).placements
                == unpacking(l, alpine).placements.push(p) && unpacking(
                l.push(Ok(e)),
                alpine,
            ).fault is None
            &&& placed(e, alpine) matches Err(f) ==> unpacking(l.push(Ok(e)), alpine) == (
            UnpackingView { fault: Some(f), ..unpacking(l, alpine) })
            &&& unpacking(l.push(Err(m)), alpine) == (UnpackingView {
                fault: Some(m),
                ..unpacking(l, alpine)
            })
        }),
        unpacking(l, alpine).fault is Some ==> unpacking(l.push(Ok(e)), alpine) == unpacking(
            l,
            alpine,
        ) && unpacking(l.push(Err(m)), alpine) == unpacking(l, alpine),
        unpacking(Seq::empty(), alpine).placements.len() == 0,
        unpacking(Seq::empty(), alpine).fault is None,
{
    assert(l.push(Ok(e)).drop_last() =~= l);
    assert(l.push(Err(m)).drop_last() =~= l);
}

}
