//! Portable Windows packages from Scoop-style JSON manifests: what a manifest
//! offers for this machine, and where its files go. Manifests that need
//! PowerShell scripts are refused.
use crate::error::{ErrorView, Result, WaxError};
use crate::json::Json;
use crate::outside::{text_debug, zip_entries, Zipped, ZippedView};
use crate::paths::{absolute, below, leads_up, name_of};
use crate::system::extractor::{
    placement_views, Placement, PlacementView, Unpacking, UnpackingView,
};
use crate::table::Table;
use crate::text::{
    after_prefix,
    chars_of,
    ends,
    has,
    lowered,
    pieces,
    replaced,
    same_str,
    string_of,
    trimmed,
    without_trailing,
};
use crate::ui::dirs;
use crate::ui::dirs::home_dir;
use crate::{outside, paths, text};
use vstd::prelude::*;

verus! {

pub const DEFAULT_BUCKET_BASE: &'static str =
    "https://raw.githubusercontent.com/ScoopInstaller/Main/master/bucket";

/// What a manifest offers for this machine.
#[derive(Debug, Clone)]
pub struct ResolvedScoopPackage {
    pub version: String,
    pub download_url: String,
    pub sha256: String,
    pub extract_dir: Option<String>,
    /// Paths relative to the extraction root (after optional extract_dir).
    pub bin_paths: Vec<String>,
}

pub struct ResolvedView {
    pub version: Seq<char>,
    pub download_url: Seq<char>,
    pub sha256: Seq<char>,
    pub extract_dir: Option<Seq<char>>,
    pub bin_paths: Seq<Seq<char>>,
}

impl View for ResolvedScoopPackage {
    type V = ResolvedView;

    open spec fn view(&self) -> ResolvedView {
        ResolvedView {
            version: self.version@,
            download_url: self.download_url@,
            sha256: self.sha256@,
            extract_dir: text::opt_view(self.extract_dir),
            bin_paths: text::views(self.bin_paths@),
        }
    }
}

/// A `ResolvedScoopPackage` is seen as what it holds.
pub proof fn resolved_scoop_package_is_seen_as_it_is(x: ResolvedScoopPackage)
    ensures
        x@.version == x.version@,
        x@.download_url == x.download_url@,
        x@.sha256 == x.sha256@,
        x@.extract_dir == text::opt_view(x.extract_dir),
        x@.bin_paths == text::views(x.bin_paths@),
{
}

/// What a manifest says for one architecture.
#[derive(Debug)]
pub struct ArchEntry {
    pub url: String,
    pub hash: String,
    pub extract_dir: Option<String>,
}

pub struct ScoopManifest {
    pub version: String,
    pub url: Option<String>,
    pub hash: Option<String>,
    pub architecture: Option<Table<ArchEntry>>,
    pub bin: Option<Json>,
    pub pre_install: Option<Json>,
    pub post_install: Option<Json>,
    pub installer: Option<Json>,
}

impl ScoopManifest {
    pub open spec fn wf(&self) -> bool {
        self.architecture matches Some(t) ==> t.wf()
    }
}

// ---------------------------------------------------------------------------
// Reading a manifest

/// What Scoop calls an architecture.
pub open spec fn arch_key(arch: Seq<char>) -> Seq<char> {
    if arch == "aarch64"@ {
        "arm64"@
    } else if arch == "x86"@ {
        "32bit"@
    } else {
        "64bit"@
    }
}

pub fn scoop_arch_key(arch: &str) -> (r: &'static str)
    ensures
        r@ == arch_key(arch@),
{
    if same_str(arch, "aarch64") {
        "arm64"
    } else if same_str(arch, "x86") {
        "32bit"
    } else {
        "64bit"
    }
}

/// An address without its fragment.
pub fn strip_url_fragment(url: &str) -> (r: String)
    ensures
        r@ == text::split(url@, '#')[0],
{
    let c = chars_of(url);
    let p = pieces(c.as_slice(), '#');
    proof {
        assert(text::slices(p@)[0] == p@[0]@);
    }
    string_of(p[0])
}

/// A line of a script that does nothing.
pub open spec fn idle_line(s: Seq<char>) -> bool {
    let t = text::trim(s);
    t.len() == 0 || t[0] == '#'
}

/// A script that does nothing.
pub open spec fn idle(v: Json) -> bool {
    match v {
        Json::Null => true,
        Json::Text(s) => idle_line(s@),
        Json::List(a) => forall|i: int|
            0 <= i < a@.len() ==> (#[trigger] a@[i] matches Json::Text(s) && idle_line(s@)),
        _ => false,
    }
}

fn is_idle_line(s: &str) -> (r: bool)
    ensures
        r == idle_line(s@),
{
    let c = chars_of(s);
    let t = trimmed(c.as_slice());
    t.len() == 0 || t[0] == '#'
}

pub fn value_is_empty_or_comment_only(v: &Json) -> (r: bool)
    ensures
        r == idle(*v),
{
    match v {
        Json::Null => true,
        Json::Text(s) => is_idle_line(s.as_str()),
        Json::List(a) => {
            for i in 0..a.len()
                invariant
                    *v == Json::List(*a),
                    forall|j: int|
                        0 <= j < i ==> (#[trigger] a@[j] matches Json::Text(s) && idle_line(s@)),
            {
                let ok = match &a[i] {
                    Json::Text(s) => is_idle_line(s.as_str()),
                    _ => false,
                };
                if !ok {
                    return false;
                }
            }
            true
        },
        _ => false,
    }
}

/// The first field that holds a script.
pub open spec fn script_field(m: ScoopManifest) -> Option<Seq<char>> {
    if m.pre_install matches Some(v) && !idle(v) {
        Some("pre_install"@)
    } else if m.post_install matches Some(v) && !idle(v) {
        Some("post_install"@)
    } else if m.installer is Some {
        Some("installer"@)
    } else {
        None
    }
}

pub fn unsupported_script_fields(m: &ScoopManifest) -> (r: Option<&'static str>)
    ensures
        dirs::str_view(r) == script_field(*m),
{
    match &m.pre_install {
        Some(v) => {
            let harmless = value_is_empty_or_comment_only(v);
            if !harmless {
                return Some("pre_install");
            }
        },
        None => {},
    }
    match &m.post_install {
        Some(v) => {
            let harmless = value_is_empty_or_comment_only(v);
            if !harmless {
                return Some("post_install");
            }
        },
        None => {},
    }
    if m.installer.is_some() {
        Some("installer")
    } else {
        None
    }
}

/// A checksum without its label, in lowercase.
pub open spec fn plain_hash(raw: Seq<char>) -> Seq<char> {
    let t = text::trim(raw);
    match text::strip_prefix(t, "sha256:"@) {
        Some(rest) => text::ascii_lower(text::trim(rest)),
        None => match text::strip_prefix(t, "SHA256:"@) {
            Some(rest) => text::ascii_lower(text::trim(rest)),
            None => text::ascii_lower(t),
        },
    }
}

pub fn normalize_scoop_hash(raw: &str) -> (r: String)
    ensures
        r@ == plain_hash(raw@),
{
    let c = chars_of(raw);
    let t = trimmed(c.as_slice());
    match after_prefix(t, "sha256:") {
        Some(rest) => string_of(lowered(trimmed(rest)).as_slice()),
        None => match after_prefix(t, "SHA256:") {
            Some(rest) => string_of(lowered(trimmed(rest)).as_slice()),
            None => string_of(lowered(t).as_slice()),
        },
    }
}

pub open spec fn is_hex(c: char) -> bool {
    text::is_digit(c) || 'a' <= c <= 'f' || 'A' <= c <= 'F'
}

/// A SHA-256 checksum in hexadecimal digits.
pub open spec fn is_sha256(s: Seq<char>) -> bool {
    s.len() == 64 && forall|i: int| 0 <= i < s.len() ==> is_hex(#[trigger] s[i])
}

fn looks_like_sha256(s: &str) -> (r: bool)
    ensures
        r == is_sha256(s@),
{
    let c = chars_of(s);
    if c.len() != 64 {
        return false;
    }
    for i in 0..c.len()
        invariant
            c@ == s@,
            forall|j: int| 0 <= j < i ==> is_hex(#[trigger] c@[j]),
    {
        let x = c[i];
        if !((x >= '0' && x <= '9') || (x >= 'a' && x <= 'f') || (x >= 'A' && x <= 'F')) {
            return false;
        }
    }
    true
}

/// A path with slashes in the place of backslashes.
pub open spec fn slashed(s: Seq<char>) -> Seq<char> {
    text::replace(s, seq!['\\'], seq!['/'])
}

pub fn with_slashes(s: &str) -> (r: String)
    ensures
        r@ == slashed(s@),
{
    let c = chars_of(s);
    let mut back: Vec<char> = Vec::new();
    back.push('\\');
    let mut forward: Vec<char> = Vec::new();
    forward.push('/');
    proof {
        assert(back@ =~= seq!['\\']);
        assert(forward@ =~= seq!['/']);
    }
    string_of(replaced(c.as_slice(), back.as_slice(), forward.as_slice()).as_slice())
}

/// The executable that an item of a list names: the item itself, or the first of
/// a pair of an executable and its alias.
pub open spec fn bin_of(item: Json) -> Option<Seq<char>> {
    match item {
        Json::Text(s) => Some(slashed(s@)),
        Json::List(pair) => if pair@.len() > 0 && pair@[0] is Text {
            Some(slashed(pair@[0]->Text_0@))
        } else {
            None
        },
        _ => None,
    }
}

pub open spec fn bins_of(items: Seq<Json>) -> Seq<Seq<char>>
    decreases items.len(),
{
    if items.len() == 0 {
        Seq::empty()
    } else {
        match bin_of(items.last()) {
            Some(p) => bins_of(items.drop_last()).push(p),
            None => bins_of(items.drop_last()),
        }
    }
}

/// The executables that a manifest names.
pub open spec fn bin_list(bin: Option<Json>) -> std::result::Result<Seq<Seq<char>>, ErrorView> {
    match bin {
        None => Err(
            ErrorView::InstallError(
                "Scoop manifest has no bin field (wax cannot guess executables)"@,
            ),
        ),
        Some(Json::Text(s)) => Ok(seq![slashed(s@)]),
        Some(Json::List(items)) => if bins_of(items@).len() == 0 {
            Err(ErrorView::InstallError("Scoop manifest bin field resolved to no executables"@))
        } else {
            Ok(bins_of(items@))
        },
        Some(_) => Err(ErrorView::ParseError("Scoop manifest bin field has unsupported shape"@)),
    }
}

fn bin_path(item: &Json) -> (r: Option<String>)
    ensures
        text::opt_view(r) == bin_of(*item),
{
    match item {
        Json::Text(s) => Some(with_slashes(s.as_str())),
        Json::List(pair) => {
            if pair.len() == 0 {
                return None;
            }
            match &pair[0] {
                Json::Text(p) => Some(with_slashes(p.as_str())),
                _ => None,
            }
        },
        _ => None,
    }
}

pub fn parse_bin_paths(bin: &Option<Json>) -> (r: Result<Vec<String>>)
    ensures
        match r {
            Ok(v) => bin_list(*bin) == Ok::<Seq<Seq<char>>, ErrorView>(text::views(v@)),
            Err(e) => bin_list(*bin) == Err::<Seq<Seq<char>>, ErrorView>(e@),
        },
{
    let mut out: Vec<String> = Vec::new();
    match bin {
        None => Err(
            WaxError::InstallError(
                String::from_str("Scoop manifest has no bin field (wax cannot guess executables)"),
            ),
        ),
        Some(Json::Text(s)) => {
            out.push(with_slashes(s.as_str()));
            proof {
                assert(text::views(out@) =~= seq![slashed(s@)]);
            }
            Ok(out)
        },
        Some(Json::List(items)) => {
            let ghost s = items@;
            proof {
                assert(text::views(out@) =~= bins_of(s.take(0)));
            }
            for i in 0..items.len()
                invariant
                    s == items@,
                    text::views(out@) == bins_of(s.take(i as int)),
            {
                proof {
                    assert(s.take(i + 1).drop_last() =~= s.take(i as int));
                    assert(s.take(i + 1).last() == s[i as int]);
                }
                let ghost before = text::views(out@);
                match bin_path(&items[i]) {
                    Some(p) => {
                        out.push(p);
                        proof {
                            assert(text::views(out@) =~= before.push(p@));
                        }
                    },
                    None => {},
                }
            }
            proof {
                assert(s.take(s.len() as int) =~= s);
                assert(text::views(out@).len() == out@.len());
            }
            if out.len() == 0 {
                Err(
                    WaxError::InstallError(
                        String::from_str("Scoop manifest bin field resolved to no executables"),
                    ),
                )
            } else {
                Ok(out)
            }
        },
        Some(_) => Err(
            WaxError::ParseError(String::from_str("Scoop manifest bin field has unsupported shape")),
        ),
    }
}

/// The address, the checksum and the directory for this machine.
pub open spec fn download_of(m: ScoopManifest, key: Seq<char>) -> std::result::Result<
    (Seq<char>, Seq<char>, Option<Seq<char>>),
    ErrorView,
> {
    match m.architecture {
        Some(t) => if t@.contains_key(key) {
            let e = t@[key];
            Ok((e.url@, e.hash@, text::opt_view(e.extract_dir)))
        } else {
            Err(
                ErrorView::InstallError(
                    "Scoop manifest has no "@ + key + " architecture entry for this host"@,
                ),
            )
        },
        None => match (m.url, m.hash) {
            (None, _) => Err(
                ErrorView::InstallError(
                    "Scoop manifest has no url (and no architecture block)"@,
                ),
            ),
            (Some(_), None) => Err(
                ErrorView::InstallError(
                    "Scoop manifest has no hash (and no architecture block)"@,
                ),
            ),
            (Some(url), Some(hash)) => Ok((url@, hash@, None)),
        },
    }
}

/// What a manifest offers for an architecture, or why it cannot be installed.
pub open spec fn resolved(m: ScoopManifest, arch: Seq<char>) -> std::result::Result<
    ResolvedView,
    ErrorView,
> {
    match script_field(m) {
        Some(f) => Err(
            ErrorView::InstallError(
                "This Scoop manifest uses `"@ + f
                    + "` scripts; wax only supports portable zip/tar.gz installs without PowerShell hooks. Try another package or install with Scoop itself."@,
            ),
        ),
        None => match download_of(m, arch_key(arch)) {
            Err(e) => Err(e),
            Ok((url, hash, extract_dir)) => if !is_sha256(plain_hash(hash)) {
                Err(
                    ErrorView::InstallError(
                        "Expected 64-char sha256 hex from manifest, got "@ + outside::text_shown(
                            plain_hash(hash),
                        ),
                    ),
                )
            } else {
                match bin_list(m.bin) {
                    Err(e) => Err(e),
                    Ok(bin_paths) => Ok(
                        ResolvedView {
                            version: m.version@,
                            download_url: text::split(url, '#')[0],
                            sha256: plain_hash(hash),
                            extract_dir,
                            bin_paths,
                        },
                    ),
                }
            },
        },
    }
}

fn download_parts(m: &ScoopManifest, key: &str) -> (r: Result<(String, String, Option<String>)>)
    requires
        m.wf(),
    ensures
        match r {
            Ok(d) => download_of(*m, key@) == Ok::<(Seq<char>, Seq<char>, Option<Seq<char>>), ErrorView>(
                (d.0@, d.1@, text::opt_view(d.2)),
            ),
            Err(e) => download_of(*m, key@) == Err::<(Seq<char>, Seq<char>, Option<Seq<char>>), ErrorView>(e@),
        },
{
    match &m.architecture {
        Some(t) => match t.get(key) {
            Some(e) => Ok((e.url.clone(), e.hash.clone(), e.extract_dir.clone())),
            None => {
                let mut s = String::from_str("Scoop manifest has no ");
                s.append(key);
                s.append(" architecture entry for this host");
                Err(WaxError::InstallError(s))
            },
        },
        None => match &m.url {
            None => Err(
                WaxError::InstallError(
                    String::from_str("Scoop manifest has no url (and no architecture block)"),
                ),
            ),
            Some(url) => match &m.hash {
                None => Err(
                    WaxError::InstallError(
                        String::from_str("Scoop manifest has no hash (and no architecture block)"),
                    ),
                ),
                Some(hash) => Ok((url.clone(), hash.clone(), None)),
            },
        },
    }
}

/// Resolves a manifest for an architecture.
pub fn resolve_manifest_json(m: &ScoopManifest, arch: &str) -> (r: Result<ResolvedScoopPackage>)
    requires
        m.wf(),
    ensures
        match r {
            Ok(p) => resolved(*m, arch@) == Ok::<ResolvedView, ErrorView>(p@),
            Err(e) => resolved(*m, arch@) == Err::<ResolvedView, ErrorView>(e@),
        },
{
    match unsupported_script_fields(m) {
        Some(f) => {
            let mut s = String::from_str("This Scoop manifest uses `");
            s.append(f);
            s.append(
                "` scripts; wax only supports portable zip/tar.gz installs without PowerShell hooks. Try another package or install with Scoop itself.",
            );
            return Err(WaxError::InstallError(s));
        },
        None => {},
    }
    let (url, hash, extract_dir) = match download_parts(m, scoop_arch_key(arch)) {
        Ok(d) => d,
        Err(e) => {
            return Err(e);
        },
    };
    let download_url = strip_url_fragment(url.as_str());
    let sha256 = normalize_scoop_hash(hash.as_str());
    let sound = looks_like_sha256(sha256.as_str());
    if !sound {
        let mut s = String::from_str("Expected 64-char sha256 hex from manifest, got ");
        s.append(text_debug(sha256.as_str()).as_str());
        return Err(WaxError::InstallError(s));
    }
    match parse_bin_paths(&m.bin) {
        Err(e) => Err(e),
        Ok(bin_paths) => Ok(
            ResolvedScoopPackage {
                version: m.version.clone(),
                download_url,
                sha256,
                extract_dir,
                bin_paths,
            },
        ),
    }
}

/// What is resolved runs no script, has a full checksum in lowercase, an address
/// without a fragment and at least one executable.
pub proof fn resolved_is_portable(m: ScoopManifest, arch: Seq<char>)
    requires
        resolved(m, arch) is Ok,
    ensures
        m.installer is None,
        m.pre_install matches Some(v) ==> idle(v),
        m.post_install matches Some(v) ==> idle(v),
        is_sha256(resolved(m, arch)->Ok_0.sha256),
        !resolved(m, arch)->Ok_0.download_url.contains('#'),
        resolved(m, arch)->Ok_0.bin_paths.len() > 0,
{
    broadcast use text::split_has_a_piece;

    let url = download_of(m, arch_key(arch))->Ok_0.0;
    text::pieces_are_plain(url, '#', 0);
}

// ---------------------------------------------------------------------------
// Fetching and placing

/// The address of a package's manifest.
pub open spec fn manifest_address(base: Seq<char>, package: Seq<char>) -> Seq<char> {
    text::trim_end_char(base, '/') + "/"@ + package + ".json"@
}

pub fn manifest_url(bucket_base: Option<&str>, package: &str) -> (r: String)
    ensures
        r@ == manifest_address(
            match dirs::str_view(bucket_base) {
                Some(b) => b,
                None => DEFAULT_BUCKET_BASE@,
            },
            package@,
        ),
{
    let base = match bucket_base {
        Some(b) => chars_of(b),
        None => chars_of(DEFAULT_BUCKET_BASE),
    };
    let mut r = string_of(without_trailing(base.as_slice(), '/'));
    r.append("/");
    r.append(package);
    r.append(".json");
    r
}

/// The text of a manifest, from the answer to a request for it.
pub fn manifest_text(url: &str, success: bool, status: &str, body: String) -> (r: Result<String>)
    ensures
        if success {
            r matches Ok(b) && b@ == body@
        } else {
            r matches Err(e) && e@ == ErrorView::InstallError(
                "Failed to fetch manifest "@ + url@ + ": HTTP "@ + status@,
            )
        },
{
    if success {
        Ok(body)
    } else {
        let mut s = String::from_str("Failed to fetch manifest ");
        s.append(url);
        s.append(": HTTP ");
        s.append(status);
        Err(WaxError::InstallError(s))
    }
}

/// The kind of archive that an address leads to.
pub open spec fn archive_kind(url: Seq<char>) -> Option<Seq<char>> {
    let lower = text::ascii_lower(url);
    if text::ends_with(lower, ".zip"@) {
        Some("zip"@)
    } else if text::contains(lower, ".tar.gz"@) || text::ends_with(lower, ".tgz"@) {
        Some("tar.gz"@)
    } else {
        None
    }
}

pub fn archive_kind_from_url(url: &str) -> (r: Result<&'static str>)
    ensures
        match r {
            Ok(k) => archive_kind(url@) == Some(k@),
            Err(e) => archive_kind(url@) is None && e@ == ErrorView::InstallError(
                "Unsupported download type for wax scoop-install (need .zip or .tar.gz/.tgz URL): "@
                    + url@,
            ),
        },
{
    let c = chars_of(url);
    let lower = lowered(c.as_slice());
    if ends(lower.as_slice(), ".zip") {
        return Ok("zip");
    }
    let tarball = has(lower.as_slice(), ".tar.gz");
    if tarball || ends(lower.as_slice(), ".tgz") {
        return Ok("tar.gz");
    }
    let mut s = String::from_str(
        "Unsupported download type for wax scoop-install (need .zip or .tar.gz/.tgz URL): ",
    );
    s.append(url);
    Err(WaxError::InstallError(s))
}

// ---------------------------------------------------------------------------
// Zip archives

/// What is done with an entry of a zip archive: one without a name, or with one that
/// leads outside, is passed over.
pub open spec fn zip_placement(e: ZippedView) -> PlacementView {
    if !e.enclosed || e.name.len() == 0 {
        PlacementView::Skip
    } else if e.dir {
        PlacementView::MakeDir(e.name)
    } else {
        PlacementView::Unpack(e.name)
    }
}

/// What unpacking the entries of a zip archive comes to: the first that cannot be
/// had ends it.
pub open spec fn zip_unpacking(l: Seq<std::result::Result<ZippedView, Seq<char>>>) -> UnpackingView
    decreases l.len(),
{
    if l.len() == 0 {
        UnpackingView { placements: Seq::empty(), fault: None }
    } else {
        let before = zip_unpacking(l.drop_last());
        if before.fault is Some {
            before
        } else {
            match l.last() {
                Ok(e) => UnpackingView {
                    placements: before.placements.push(zip_placement(e)),
                    ..before
                },
                Err(m) => UnpackingView { fault: Some(m), ..before },
            }
        }
    }
}

/// The entries of an archive whose names are portable: which of them lead outside is
/// then the same on every system.
pub open spec fn portable_entries(
    l: Seq<std::result::Result<(Seq<char>, bool), Seq<char>>>,
) -> Seq<std::result::Result<ZippedView, Seq<char>>> {
    Seq::new(
        l.len(),
        |i: int|
            match l[i] {
                Ok((name, dir)) => Ok(
                    ZippedView {
                        name,
                        enclosed: !name.contains('\0') && outside::is_enclosed(name),
                        dir,
                    },
                ),
                Err(m) => Err(m),
            },
    )
}

/// Every name in an archive is portable.
pub open spec fn all_portable(
    l: Seq<std::result::Result<(Seq<char>, bool), Seq<char>>>,
) -> bool {
    forall|i: int|
        0 <= i < l.len() ==> (#[trigger] l[i] matches Ok(e) ==> outside::is_portable(e.0))
}

/// Every entry was tested for leading nowhere outside.
pub open spec fn all_judged(l: Seq<std::result::Result<ZippedView, Seq<char>>>) -> bool {
    forall|i: int|
        0 <= i < l.len() ==> (#[trigger] l[i] matches Ok(e) ==> outside::is_judged(e))
}

/// What is placed lies below the directory that is unpacked into; of a path with a
/// backslash, only that it does not begin at the root.
pub open spec fn is_inside(p: PlacementView) -> bool {
    match p {
        PlacementView::Skip => true,
        PlacementView::MakeDir(p) => is_path_inside(p),
        PlacementView::Link(_) => false,
        PlacementView::Unpack(p) => is_path_inside(p),
    }
}

pub open spec fn is_path_inside(p: Seq<char>) -> bool {
    &&& p.len() > 0
    &&& p[0] != '/'
    &&& !p.contains('\\') ==> outside::is_enclosed(p)
}

/// Nothing that a zip archive holds is placed outside the directory that is
/// unpacked into.
pub proof fn zips_stay_inside(l: Seq<std::result::Result<ZippedView, Seq<char>>>, i: int)
    requires
        all_judged(l),
        0 <= i < zip_unpacking(l).placements.len(),
    ensures
        is_inside(zip_unpacking(l).placements[i]),
    decreases l.len(),
{
    if l.len() > 0 {
        let rest = l.drop_last();
        assert forall|j: int| 0 <= j < rest.len() implies (#[trigger] rest[j] matches Ok(e)
            ==> outside::is_judged(e)) by {
            assert(rest[j] == l[j]);
        }
        assert(l.last() == l[l.len() - 1]);
        if i < zip_unpacking(rest).placements.len() {
            zips_stay_inside(rest, i);
        }
    }
}

/// Where every name is portable, what is said of the entries follows from the names.
proof fn portable_entries_are_known(l: Seq<std::result::Result<ZippedView, Seq<char>>>)
    requires
        all_judged(l),
        all_portable(outside::zipped_names(l)),
    ensures
        l == portable_entries(outside::zipped_names(l)),
{
    let names = outside::zipped_names(l);
    assert forall|i: int| 0 <= i < l.len() implies l[i] == portable_entries(names)[i] by {
        match l[i] {
            Ok(e) => {
                assert(names[i] == Ok::<(Seq<char>, bool), Seq<char>>((e.name, e.dir)));
                assert(outside::is_judged(e));
            },
            Err(_) => {},
        }
    }
    assert(l =~= portable_entries(names));
}

/// What is done with an entry of a zip archive.
pub fn place_zip_entry(e: &Zipped) -> (r: Placement)
    ensures
        r@ == zip_placement(e@),
{
    if !e.enclosed || e.name.as_str().is_empty() {
        Placement::Skip
    } else if e.dir {
        Placement::MakeDir(String::from_str(e.name.as_str()))
    } else {
        Placement::Unpack(String::from_str(e.name.as_str()))
    }
}

/// What unpacking the entries of a zip archive comes to.
pub fn unpack_zip_entries(l: &Vec<std::result::Result<Zipped, String>>) -> (r: Unpacking)
    ensures
        r@ == zip_unpacking(outside::zipped_views(l@)),
{
    let ghost s = outside::zipped_views(l@);
    let mut placements: Vec<Placement> = Vec::new();
    let mut fault: Option<String> = None;
    proof {
        assert(placement_views(placements@) =~= zip_unpacking(s.take(0)).placements);
    }
    for i in 0..l.len()
        invariant
            s == outside::zipped_views(l@),
            placement_views(placements@) == zip_unpacking(s.take(i as int)).placements,
            text::opt_view(fault) == zip_unpacking(s.take(i as int)).fault,
    {
        proof {
            assert(s.take(i + 1).drop_last() =~= s.take(i as int));
            assert(s.take(i + 1).last() == s[i as int]);
        }
        if fault.is_none() {
            match &l[i] {
                Ok(e) => {
                    let ghost before = placements@;
                    let p = place_zip_entry(e);
                    placements.push(p);
                    proof {
                        assert(placement_views(placements@) =~= placement_views(before).push(p@));
                    }
                },
                Err(m) => {
                    fault = Some(String::from_str(m.as_str()));
                },
            }
        }
    }
    proof {
        assert(s.take(l@.len() as int) =~= s);
    }
    Unpacking { placements, fault }
}

/// What unpacking the zip archive in `bytes` comes to. Nothing is placed outside the
/// directory that is unpacked into. Where every name is portable, the bytes decide
/// alone; of another name the system says whether it leads outside.
pub fn extract_zip_file(bytes: &[u8]) -> (r: Result<Unpacking>)
    ensures
        match outside::zip_entry_list(bytes@) {
            Ok(l) => r matches Ok(u) && (all_portable(l) ==> u@ == zip_unpacking(
                portable_entries(l),
            )) && exists|e: Seq<std::result::Result<ZippedView, Seq<char>>>|
                outside::zipped_names(e) == l && all_judged(e) && u@ == #[trigger] zip_unpacking(e),
            Err(m) => r matches Err(WaxError::InstallError(t)) && t@ == m,
        },
        r matches Ok(u) ==> forall|i: int|
            0 <= i < u@.placements.len() ==> is_inside(#[trigger] u@.placements[i]),
{
    match zip_entries(bytes) {
        Ok(l) => {
            let u = unpack_zip_entries(&l);
            proof {
                let s = outside::zipped_views(l@);
                assert(all_judged(s));
                if all_portable(outside::zipped_names(s)) {
                    portable_entries_are_known(s);
                }
                assert forall|i: int| 0 <= i < u@.placements.len() implies is_inside(
                    #[trigger] u@.placements[i],
                ) by {
                    zips_stay_inside(s, i);
                }
            }
            Ok(u)
        },
        Err(m) => Err(WaxError::InstallError(m)),
    }
}

/// The file that an archive is downloaded to.
pub fn download_name(kind: &str) -> (r: String)
    ensures
        r@ == "download."@ + kind@,
{
    let mut r = String::from_str("download.");
    r.append(kind);
    r
}

/// Portable packages are for Windows.
pub fn check_platform(windows: bool) -> (r: Result<()>)
    ensures
        if windows {
            r is Ok
        } else {
            r matches Err(e) && e@ == ErrorView::PlatformNotSupported(
                "scoop-install is only supported on Windows (portable .exe layout)"@,
            )
        },
{
    if windows {
        Ok(())
    } else {
        Err(
            WaxError::PlatformNotSupported(
                String::from_str(
                    "scoop-install is only supported on Windows (portable .exe layout)",
                ),
            ),
        )
    }
}

/// Wax's directory in the user's local one.
pub open spec fn user_root(home: Seq<char>) -> Seq<char> {
    paths::path_join(paths::path_join(home, ".local"@), "wax"@)
}

/// Where the executables go.
pub open spec fn bin_dir(home: Seq<char>) -> Seq<char> {
    paths::path_join(user_root(home), "bin"@)
}

pub fn wax_user_root(home: Option<&str>) -> (r: Result<String>)
    ensures
        dirs::place(r, dirs::str_view(home), |h: Seq<char>| user_root(h)),
{
    match home_dir(home) {
        Ok(h) => Ok(below(below(h.as_str(), ".local").as_str(), "wax")),
        Err(e) => Err(e),
    }
}

pub fn wax_bin_dir(home: Option<&str>) -> (r: Result<String>)
    ensures
        dirs::place(r, dirs::str_view(home), |h: Seq<char>| bin_dir(h)),
{
    match wax_user_root(home) {
        Ok(h) => Ok(below(h.as_str(), "bin")),
        Err(e) => Err(e),
    }
}

/// Where a version of a package is kept.
pub fn resolved_staging_dir(home: Option<&str>, package: &str, version: &str) -> (r: Result<String>)
    ensures
        dirs::place(
            r,
            dirs::str_view(home),
            |h: Seq<char>|
                paths::path_join(
                    paths::path_join(paths::path_join(user_root(h), "scoop-apps"@), package@),
                    version@,
                ),
        ),
{
    match wax_user_root(home) {
        Ok(h) => Ok(
            below(below(below(h.as_str(), "scoop-apps").as_str(), package).as_str(), version),
        ),
        Err(e) => Err(e),
    }
}

/// The directory of the archive that is installed.
pub fn source_tree(extract_root: &str, extract_dir: &Option<String>) -> (r: String)
    ensures
        r@ == (match text::opt_view(*extract_dir) {
            Some(d) => paths::path_join(extract_root@, slashed(d)),
            None => extract_root@,
        }),
{
    match extract_dir {
        Some(d) => below(extract_root, with_slashes(d.as_str()).as_str()),
        None => String::from_str(extract_root),
    }
}

/// What is said when the directory that is installed is not in the archive.
pub open spec fn missing_tree(extract_dir: Option<Seq<char>>) -> Seq<char> {
    "Extracted files missing expected extract_dir "@ + match extract_dir {
        Some(d) => "Some("@ + outside::text_shown(d) + ")"@,
        None => "None"@,
    }
}

/// The directory that is installed has to be there.
pub fn check_tree(present: bool, extract_dir: &Option<String>) -> (r: Result<()>)
    ensures
        if present {
            r is Ok
        } else {
            r matches Err(e) && e@ == ErrorView::InstallError(
                missing_tree(text::opt_view(*extract_dir)),
            )
        },
{
    if present {
        return Ok(());
    }
    let mut s = String::from_str("Extracted files missing expected extract_dir ");
    match extract_dir {
        Some(d) => {
            let mut shown = String::from_str("Some(");
            shown.append(text_debug(d.as_str()).as_str());
            shown.append(")");
            s.append(shown.as_str());
        },
        None => {
            s.append("None");
        },
    }
    Err(WaxError::InstallError(s))
}

/// A path that begins with a drive letter.
pub open spec fn has_drive(p: Seq<char>) -> bool {
    p.len() >= 2 && p[1] == ':' && ('a' <= p[0] <= 'z' || 'A' <= p[0] <= 'Z')
}

/// A path of a manifest, written with slashes, that may lead out of the directory
/// it is put below.
pub open spec fn is_unsafe(rel: Seq<char>, windows: bool) -> bool {
    paths::is_absolute(rel) || paths::climbs(rel) || (windows && has_drive(rel))
}

pub fn may_lead_out(rel: &str, windows: bool) -> (r: bool)
    ensures
        r == is_unsafe(rel@, windows),
{
    let c = chars_of(rel);
    if absolute(c.as_slice()) || leads_up(rel) {
        return true;
    }
    windows && c.len() >= 2 && c[1] == ':' && ((c[0] >= 'a' && c[0] <= 'z') || (c[0] >= 'A' && c[0]
        <= 'Z'))
}

/// Puts a path of a manifest below a directory; refuses one that may lead out.
pub fn join_under_root(root: &str, rel: &str, windows: bool) -> (r: Result<String>)
    ensures
        match r {
            Ok(p) => !is_unsafe(rel@, windows) && p@ == paths::path_join(root@, rel@),
            Err(e) => is_unsafe(rel@, windows) && e@ == ErrorView::InstallError(
                "Unsafe path in manifest: "@ + rel@,
            ),
        },
{
    if may_lead_out(rel, windows) {
        let mut s = String::from_str("Unsafe path in manifest: ");
        s.append(rel);
        Err(WaxError::InstallError(s))
    } else {
        Ok(below(root, rel))
    }
}

/// A path that is not refused stays below the directory: component by component
/// it begins with the directory, and it leads upwards nowhere unless the directory
/// itself does.
pub proof fn accepted_path_stays_below(root: Seq<char>, rel: Seq<char>, windows: bool)
    requires
        !is_unsafe(rel, windows),
    ensures
        paths::lies_in(paths::path_join(root, rel), root),
        !paths::climbs(root) ==> !paths::climbs(paths::path_join(root, rel)),
{
    paths::below_lies_in(root, rel);
    if !paths::climbs(root) {
        paths::below_does_not_climb(root, rel);
    }
}

/// Where an executable of the package is copied to, if it is there.
pub fn bin_copy(source: &str, present: bool, bin_dir: &str) -> (r: Result<String>)
    ensures
        match r {
            Ok(dest) => present && paths::file_name(source@) is Some && dest@ == paths::path_join(
                bin_dir@,
                paths::file_name(source@)->0,
            ),
            Err(e) => if present {
                paths::file_name(source@) is None && e@ == ErrorView::InstallError(
                    "Invalid bin path"@,
                )
            } else {
                e@ == ErrorView::InstallError(
                    "Expected binary missing after extract: "@ + source@,
                )
            },
        },
{
    if !present {
        let mut s = String::from_str("Expected binary missing after extract: ");
        s.append(source);
        return Err(WaxError::InstallError(s));
    }
    match name_of(source) {
        Some(n) => Ok(below(bin_dir, n.as_str())),
        None => Err(WaxError::InstallError(String::from_str("Invalid bin path"))),
    }
}

/// What is said when a package is installed.
pub fn installed_text(package: &str, version: &str, bin_dir: &str) -> (r: String)
    ensures
        r@ == "Installed "@ + package@ + " "@ + version@
            + " (Scoop manifest) — add to PATH if needed:\n  "@ + bin_dir@,
{
    let mut r = String::from_str("Installed ");
    r.append(package);
    r.append(" ");
    r.append(version);
    r.append(" (Scoop manifest) — add to PATH if needed:\n  ");
    r.append(bin_dir);
    r
}

// ---------------------------------------------------------------------------
// Laws of manifests

/// Each machine has its key in a manifest.
pub proof fn machines_have_their_key(arch: Seq<char>)
    ensures
        arch_key("aarch64"@) == "arm64"@,
        arch_key("x86"@) == "32bit"@,
        arch != "aarch64"@ && arch != "x86"@ ==> arch_key(arch) == "64bit"@,
{
    reveal_strlit("aarch64");
    reveal_strlit("x86");
    assert("aarch64"@[0] == 'a' && "x86"@[0] == 'x');
}

/// A script of nothing but comments and blank lines does nothing; any other does
/// something.
pub proof fn comments_do_nothing(s: String, a: Vec<Json>, n: int, v: Json)
    ensures
        idle(Json::Null),
        text::trim(s@).len() == 0 ==> idle(Json::Text(s)),
        text::trim(s@).len() > 0 ==> (idle(Json::Text(s)) <==> text::trim(s@)[0] == '#'),
        idle(Json::List(a)) && 0 <= n < a@.len() ==> a@[n] is Text && idle(a@[n]),
        (forall|i: int| 0 <= i < a@.len() ==> (#[trigger] a@[i]) is Text && idle(a@[i])) ==> idle(
            Json::List(a),
        ),
        !(v is Null) && !(v is Text) && !(v is List) ==> !idle(v),
{
    if forall|i: int| 0 <= i < a@.len() ==> (#[trigger] a@[i]) is Text && idle(a@[i]) {
        assert forall|i: int| 0 <= i < a@.len() implies (#[trigger] a@[i] matches Json::Text(t)
            && idle_line(t@)) by {
            assert(a@[i] is Text && idle(a@[i]));
        }
    }
}

/// A script that does something is told by the field that it stands in, that before the
/// installation first.
pub proof fn scripts_are_told(m: ScoopManifest)
    ensures
        (m.pre_install matches Some(v) && !idle(v)) ==> script_field(m) == Some("pre_install"@),
        (m.pre_install matches Some(v) ==> idle(v)) && (m.post_install matches Some(v) && !idle(v))
            ==> script_field(m) == Some("post_install"@),
        (m.pre_install matches Some(v) ==> idle(v)) && (m.post_install matches Some(v) ==> idle(v))
            && m.installer is Some ==> script_field(m) == Some("installer"@),
        (m.pre_install matches Some(v) ==> idle(v)) && (m.post_install matches Some(v) ==> idle(v))
            && m.installer is None ==> script_field(m) is None,
{
}

/// A checksum is read without the name of its kind and in small letters.
pub proof fn checksums_lose_their_kind(h: Seq<char>)
    requires
        text::trim("sha256:"@ + h) == "sha256:"@ + h,
        text::trim("SHA256:"@ + h) == "SHA256:"@ + h,
    ensures
        plain_hash("sha256:"@ + h) == text::ascii_lower(text::trim(h)),
        plain_hash("SHA256:"@ + h) == text::ascii_lower(text::trim(h)),
        text::trim(h) == h && !text::starts_with(h, "sha256:"@) && !text::starts_with(
            h,
            "SHA256:"@,
        ) ==> plain_hash(h) == text::ascii_lower(h),
{
    text::stripping_undoes_prefixing("sha256:"@, h);
    text::stripping_undoes_prefixing("SHA256:"@, h);
    reveal_strlit("sha256:");
    reveal_strlit("SHA256:");
    let s = "SHA256:"@ + h;
    assert(s[0] == 'S');
    if text::starts_with(s, "sha256:"@) {
        assert(s.subrange(0, "sha256:"@.len() as int)[0] == 's');
    }
}

/// A checksum has sixty-four digits of base sixteen.
pub proof fn checksums_are_hex(s: Seq<char>, i: int)
    ensures
        is_sha256(s) ==> s.len() == 64,
        is_sha256(s) && 0 <= i < s.len() ==> ('0' <= s[i] <= '9') || ('a' <= s[i] <= 'f') || ('A'
            <= s[i] <= 'F'),
        s.len() == 64 && (forall|j: int|
            0 <= j < s.len() ==> ('0' <= #[trigger] s[j] <= '9') || ('a' <= s[j] <= 'f') || ('A'
                <= s[j] <= 'F')) ==> is_sha256(s),
{
    if is_sha256(s) && 0 <= i < s.len() {
        assert(is_hex(s[i]));
    }
    if s.len() == 64 && (forall|j: int|
        0 <= j < s.len() ==> ('0' <= #[trigger] s[j] <= '9') || ('a' <= s[j] <= 'f') || ('A'
            <= s[j] <= 'F')) {
        assert forall|j: int| 0 <= j < s.len() implies is_hex(#[trigger] s[j]) by {}
    }
}

/// A path keeps what it is but for its strokes, of which all lean one way then.
pub proof fn strokes_lean_one_way(a: Seq<char>, b: Seq<char>)
    requires
        !a.contains('\\'),
    ensures
        slashed(a) == a,
        slashed(a + seq!['\\'] + b) == a + seq!['/'] + slashed(b),
{
    let f = seq!['\\'];
    assert(!text::contains(a, f)) by {
        if text::contains(a, f) {
            let i = choose|i: int| text::occurs_at(a, f, i);
            assert(a.subrange(i, i + 1)[0] == f[0]);
            assert(a[i] == '\\');
        }
    }
    text::replacing_nothing(a, f, seq!['/']);
    let s = a + f + b;
    assert(s.subrange(a.len() as int, a.len() as int + 1) =~= f);
    assert forall|j: int| 0 <= j < a.len() implies !text::occurs_at(s, f, j) by {
        if text::occurs_at(s, f, j) {
            assert(s.subrange(j, j + 1)[0] == f[0]);
            assert(s[j] == a[j]);
        }
    }
    text::replacing_the_first(a, f, b, seq!['/']);
}

/// An executable is named by itself or as the first of a list; what is neither names none.
pub proof fn executables_are_named(items: Seq<Json>, s: String, pair: Vec<Json>, other: Json)
    ensures
        bins_of(items.push(Json::Text(s))) == bins_of(items).push(slashed(s@)),
        pair@.len() > 0 && pair@[0] == Json::Text(s) ==> bins_of(items.push(Json::List(pair)))
            == bins_of(items).push(slashed(s@)),
        pair@.len() == 0 || !(pair@[0] is Text) ==> bins_of(items.push(Json::List(pair)))
            == bins_of(items),
        !(other is Text) && !(other is List) ==> bins_of(items.push(other)) == bins_of(items),
        bins_of(Seq::empty()).len() == 0,
{
    assert(items.push(Json::Text(s)).drop_last() =~= items);
    assert(items.push(Json::List(pair)).drop_last() =~= items);
    assert(items.push(other).drop_last() =~= items);
}

/// Executables are one text or a list that names at least one; without any a manifest is
/// refused.
pub proof fn executables_are_needed(s: String, items: Vec<Json>, other: Json)
    ensures
        bin_list(Some(Json::Text(s))) == Ok::<Seq<Seq<char>>, ErrorView>(seq![slashed(s@)]),
        bins_of(items@).len() > 0 ==> bin_list(Some(Json::List(items))) == Ok::<
            Seq<Seq<char>>,
            ErrorView,
        >(bins_of(items@)),
        bins_of(items@).len() == 0 ==> (bin_list(Some(Json::List(items))) matches Err(
            ErrorView::InstallError(_),
        )),
        bin_list(None) matches Err(ErrorView::InstallError(_)),
        !(other is Text) && !(other is List) ==> (bin_list(Some(other)) matches Err(
            ErrorView::ParseError(_),
        )),
{
}

/// Where a manifest has entries for machines, that of this one counts and no other; where it
/// has none, its own address and checksum do.
pub proof fn own_machine_counts(
    m: ScoopManifest,
    t: Table<ArchEntry>,
    key: Seq<char>,
    url: String,
    hash: String,
)
    ensures
        m.architecture == Some(t) && t@.contains_key(key) ==> download_of(m, key) == Ok::<
            (Seq<char>, Seq<char>, Option<Seq<char>>),
            ErrorView,
        >((t@[key].url@, t@[key].hash@, text::opt_view(t@[key].extract_dir))),
        m.architecture == Some(t) && !t@.contains_key(key) ==> (download_of(m, key) matches Err(
            ErrorView::InstallError(_),
        )),
        m.architecture is None && m.url == Some(url) && m.hash == Some(hash) ==> download_of(m, key)
            == Ok::<(Seq<char>, Seq<char>, Option<Seq<char>>), ErrorView>((url@, hash@, None)),
        m.architecture is None && (m.url is None || m.hash is None) ==> (download_of(
            m,
            key,
        ) matches Err(ErrorView::InstallError(_))),
{
}

/// A manifest without scripts, with a download for this machine, its whole checksum and
/// executables is resolved to just these; anything less is refused.
pub proof fn manifests_are_resolved(
    m: ScoopManifest,
    arch: Seq<char>,
    url: Seq<char>,
    hash: Seq<char>,
    dir: Option<Seq<char>>,
    bins: Seq<Seq<char>>,
)
    ensures
        script_field(m) is Some ==> (resolved(m, arch) matches Err(ErrorView::InstallError(_))),
        script_field(m) is None && download_of(m, arch_key(arch)) == Ok::<
            (Seq<char>, Seq<char>, Option<Seq<char>>),
            ErrorView,
        >((url, hash, dir)) ==> {
            &&& !is_sha256(plain_hash(hash)) ==> (resolved(m, arch) matches Err(
                ErrorView::InstallError(_),
            ))
            &&& is_sha256(plain_hash(hash)) && bin_list(m.bin) == Ok::<Seq<Seq<char>>, ErrorView>(
                bins,
            ) ==> (resolved(m, arch) matches Ok(p) && p.version == m.version@ && p.sha256
                == plain_hash(hash) && p.extract_dir == dir && p.bin_paths == bins
                && p.download_url == text::split(url, '#')[0])
        },
        script_field(m) is None && download_of(m, arch_key(arch)) is Err ==> resolved(m, arch)
            is Err,
{
}

/// The kind of an archive is told by the ending of its address, in capitals or not.
pub proof fn archives_are_told_by_ending(url: Seq<char>)
    ensures
        text::ends_with(text::ascii_lower(url), ".zip"@) ==> archive_kind(url) == Some("zip"@),
        !text::ends_with(text::ascii_lower(url), ".zip"@) && (text::ends_with(
            text::ascii_lower(url),
            ".tgz"@,
        ) || text::contains(text::ascii_lower(url), ".tar.gz"@)) ==> archive_kind(url) == Some(
            "tar.gz"@,
        ),
        !text::ends_with(text::ascii_lower(url), ".zip"@) && !text::ends_with(
            text::ascii_lower(url),
            ".tgz"@,
        ) && !text::contains(text::ascii_lower(url), ".tar.gz"@) ==> archive_kind(url) is None,
{
}

/// The address of a manifest is that of its bucket, whether it ends in strokes or not, with
/// the name of the package.
pub proof fn manifest_address_is_below(base: Seq<char>, package: Seq<char>)
    requires
        base.len() > 0,
        base.last() != '/',
    ensures
        manifest_address(base, package) == base + "/"@ + package + ".json"@,
        manifest_address(base.push('/'), package) == manifest_address(base, package),
{
    text::trimming_drops_one_character(base, '/');
}

/// An entry of an archive is put where it belongs: a folder is made, a file is unpacked, and
/// what would lead out is skipped. What follows a fault is not looked at.
pub proof fn entries_are_put(
    l: Seq<std::result::Result<ZippedView, Seq<char>>>,
    e: ZippedView,
    fault: Seq<char>,
)
    ensures
        zip_unpacking(l).fault is Some ==> zip_unpacking(l.push(Ok(e))) == zip_unpacking(l)
            && zip_unpacking(l.push(Err(fault))) == zip_unpacking(l),
        zip_unpacking(l).fault is None ==> {
            let now = zip_unpacking(l.push(Ok(e)));
            &&& now.fault is None
            &&& !e.enclosed || e.name.len() == 0 ==> now.placements == zip_unpacking(
                l,
            ).placements.push(PlacementView::Skip)
            &&& e.enclosed && e.name.len() > 0 && e.dir ==> now.placements == zip_unpacking(
                l,
            ).placements.push(PlacementView::MakeDir(e.name))
            &&& e.enclosed && e.name.len() > 0 && !e.dir ==> now.placements == zip_unpacking(
                l,
            ).placements.push(PlacementView::Unpack(e.name))
            &&& zip_unpacking(l.push(Err(fault))).fault == Some(fault)
            &&& zip_unpacking(l.push(Err(fault))).placements == zip_unpacking(l).placements
        },
        zip_unpacking(Seq::empty()).placements.len() == 0,
        zip_unpacking(Seq::empty()).fault is None,
{
    assert(l.push(Ok(e)).drop_last() =~= l);
    assert(l.push(Err(fault)).drop_last() =~= l);
}

/// The folders of a user lie below their home.
pub proof fn folders_lie_in_home(home: Seq<char>)
    requires
        home.len() > 0,
        home.last() != '/',
    ensures
        user_root(home) == home + "/.local/wax"@,
        bin_dir(home) == home + "/.local/wax/bin"@,
{
    reveal_strlit(".local");
    reveal_strlit("wax");
    reveal_strlit("bin");
    reveal_strlit("/.local/wax");
    reveal_strlit("/.local/wax/bin");
    assert(paths::path_join(home, ".local"@) == home.push('/') + ".local"@);
    assert(user_root(home) =~= home + "/.local/wax"@);
    assert(bin_dir(home) =~= home + "/.local/wax/bin"@);
}

/// A path of a manifest is refused where it begins at the root, climbs, or names a drive.
pub proof fn unsafe_paths_are_refused(rel: Seq<char>, windows: bool)
    ensures
        rel.len() > 0 && rel[0] == '/' ==> is_unsafe(rel, windows),
        paths::components(rel).contains(".."@) ==> is_unsafe(rel, windows),
        rel.len() >= 2 && rel[1] == ':' && ('a' <= rel[0] <= 'z' || 'A' <= rel[0] <= 'Z')
            ==> is_unsafe(rel, true),
        rel.len() > 1 && rel[0] != '/' && rel[1] != ':' && !paths::components(rel).contains(".."@)
            ==> !is_unsafe(rel, windows),
        rel.len() > 0 && rel[0] != '/' && !paths::components(rel).contains(".."@) ==> !is_unsafe(
            rel,
            false,
        ),
{
}

/// A folder that is missing after unpacking is told as the manifest says it.
pub proof fn missing_folders_are_told(d: Seq<char>)
    ensures
        missing_tree(None) == "Extracted files missing expected extract_dir "@ + "None"@,
        missing_tree(Some(d)) == "Extracted files missing expected extract_dir "@ + ("Some("@
            + outside::text_shown(d) + ")"@),
{
}

/// A manifest that cannot be resolved is told why.
pub proof fn refusals_are_told(m: ScoopManifest, key: Seq<char>, items: Vec<Json>, other: Json)
    ensures
        bin_list(None) == Err::<Seq<Seq<char>>, ErrorView>(
            ErrorView::InstallError(
                "Scoop manifest has no bin field (wax cannot guess executables)"@,
            ),
        ),
        bins_of(items@).len() == 0 ==> bin_list(Some(Json::List(items))) == Err::<
            Seq<Seq<char>>,
            ErrorView,
        >(ErrorView::InstallError("Scoop manifest bin field resolved to no executables"@)),
        !(other is Text) && !(other is List) ==> bin_list(Some(other)) == Err::<
            Seq<Seq<char>>,
            ErrorView,
        >(ErrorView::ParseError("Scoop manifest bin field has unsupported shape"@)),
        (m.architecture matches Some(t) && !t@.contains_key(key)) ==> download_of(m, key) == Err::<
            (Seq<char>, Seq<char>, Option<Seq<char>>),
            ErrorView,
        >(
            ErrorView::InstallError(
                "Scoop manifest has no "@ + key + " architecture entry for this host"@,
            ),
        ),
        m.architecture is None && m.url is None ==> download_of(m, key) == Err::<
            (Seq<char>, Seq<char>, Option<Seq<char>>),
            ErrorView,
        >(ErrorView::InstallError("Scoop manifest has no url (and no architecture block)"@)),
        m.architecture is None && m.url is Some && m.hash is None ==> download_of(m, key) == Err::<
            (Seq<char>, Seq<char>, Option<Seq<char>>),
            ErrorView,
        >(ErrorView::InstallError("Scoop manifest has no hash (and no architecture block)"@)),
{
}

/// A manifest with scripts, or without a whole checksum, is refused with what is wrong.
pub proof fn scripts_and_checksums_are_told(
    m: ScoopManifest,
    arch: Seq<char>,
    field: Seq<char>,
    url: Seq<char>,
    hash: Seq<char>,
    dir: Option<Seq<char>>,
)
    ensures
        script_field(m) == Some(field) ==> resolved(m, arch) == Err::<ResolvedView, ErrorView>(
            ErrorView::InstallError(
                "This Scoop manifest uses `"@ + field
                    + "` scripts; wax only supports portable zip/tar.gz installs without PowerShell hooks. Try another package or install with Scoop itself."@,
            ),
        ),
        script_field(m) is None && download_of(m, arch_key(arch)) == Ok::<
            (Seq<char>, Seq<char>, Option<Seq<char>>),
            ErrorView,
        >((url, hash, dir)) && !is_sha256(plain_hash(hash)) ==> resolved(m, arch) == Err::<
            ResolvedView,
            ErrorView,
        >(
            ErrorView::InstallError(
                "Expected 64-char sha256 hex from manifest, got "@ + outside::text_shown(
                    plain_hash(hash),
                ),
            ),
        ),
{
}

}
