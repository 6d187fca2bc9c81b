//! Casks: what is recorded of them, and what installing their artifacts takes.
use crate::bottle::check_hash;
use crate::error::{Result, WaxError};
use crate::outside::{lossy_text, path_debug, percent_decode, sha256_hex};
use crate::paths::{below, leads_up, name_of};
use crate::table::Table;
use crate::text::{
    after_prefix, begins, chars_of, ends, is, part, pieces, replaced, same_str,
    string_of, trimmed, without_leading, without_trailing,
};
use crate::ui::dirs;
use crate::ui::dirs::{home_dir, wax_dir};
use crate::ui::Clearing;
use crate::{outside, paths, table, text};
use vstd::prelude::*;

verus! {

#[derive(Debug)]
pub struct InstalledCask {
    pub name: String,
    pub version: String,
    pub install_date: i64,
    pub artifact_type: Option<String>,
    pub binary_paths: Option<Vec<String>>,
    pub app_name: Option<String>,
}

/// The mathematical content of an `InstalledCask`.
pub struct InstalledCaskView {
    pub name: Seq<char>,
    pub version: Seq<char>,
    pub install_date: int,
    pub artifact_type: Option<Seq<char>>,
    pub binary_paths: Option<Seq<Seq<char>>>,
    pub app_name: Option<Seq<char>>,
}

/// The names in an optional list.
pub open spec fn opt_views(v: Option<Vec<String>>) -> Option<Seq<Seq<char>>> {
    match v {
        Some(x) => Some(text::views(x@)),
        None => None,
    }
}

impl View for InstalledCask {
    type V = InstalledCaskView;

    open spec fn view(&self) -> InstalledCaskView {
        InstalledCaskView {
            name: self.name@,
            version: self.version@,
            install_date: self.install_date as int,
            artifact_type: text::opt_view(self.artifact_type),
            binary_paths: opt_views(self.binary_paths),
            app_name: text::opt_view(self.app_name),
        }
    }
}

/// An `InstalledCask` is seen as what it holds.
pub proof fn installed_cask_is_seen_as_it_is(x: InstalledCask)
    ensures
        x@.name == x.name@,
        x@.version == x.version@,
        x@.install_date == x.install_date as int,
        x@.artifact_type == text::opt_view(x.artifact_type),
        x@.binary_paths == opt_views(x.binary_paths),
        x@.app_name == text::opt_view(x.app_name),
{
}

/// An entry of a cask's directory, with the time it was last changed, if known.
pub struct VersionEntry {
    pub name: String,
    pub is_dir: bool,
    pub modified: Option<i64>,
}

/// The mathematical content of a `VersionEntry`.
pub struct VersionEntryView {
    pub name: Seq<char>,
    pub is_dir: bool,
    pub modified: Option<int>,
}

pub open spec fn opt_int(v: Option<i64>) -> Option<int> {
    match v {
        Some(x) => Some(x as int),
        None => None,
    }
}

impl View for VersionEntry {
    type V = VersionEntryView;

    open spec fn view(&self) -> VersionEntryView {
        VersionEntryView {
            name: self.name@,
            is_dir: self.is_dir,
            modified: opt_int(self.modified),
        }
    }
}

/// A `VersionEntry` is seen as what it holds.
pub proof fn version_entry_is_seen_as_it_is(x: VersionEntry)
    ensures
        x@.name == x.name@,
        x@.is_dir == x.is_dir,
        x@.modified == opt_int(x.modified),
{
}

pub open spec fn version_views(v: Seq<VersionEntry>) -> Seq<VersionEntryView> {
    Seq::new(v.len(), |i: int| v[i]@)
}

/// An entry of a Caskroom, with the entries that it holds.
pub struct CaskroomEntry {
    pub name: String,
    pub is_dir: bool,
    pub versions: Vec<VersionEntry>,
}

/// The mathematical content of a `CaskroomEntry`.
pub struct CaskroomEntryView {
    pub name: Seq<char>,
    pub is_dir: bool,
    pub versions: Seq<VersionEntryView>,
}

impl View for CaskroomEntry {
    type V = CaskroomEntryView;

    open spec fn view(&self) -> CaskroomEntryView {
        CaskroomEntryView {
            name: self.name@,
            is_dir: self.is_dir,
            versions: version_views(self.versions@),
        }
    }
}

/// A `CaskroomEntry` is seen as what it holds.
pub proof fn caskroom_entry_is_seen_as_it_is(x: CaskroomEntry)
    ensures
        x@.name == x.name@,
        x@.is_dir == x.is_dir,
        x@.versions == version_views(x.versions@),
{
}

pub open spec fn caskroom_views(v: Seq<CaskroomEntry>) -> Seq<CaskroomEntryView> {
    Seq::new(v.len(), |i: int| v[i]@)
}

/// An entry whose name begins with a dot is passed over.
pub open spec fn is_hidden(name: Seq<char>) -> bool {
    text::starts_with(name, "."@)
}

/// A cask's version and the date of its installation: those of the first
/// directory that is not hidden.
pub open spec fn version_in(entries: Seq<VersionEntryView>) -> (Seq<char>, int)
    decreases entries.len(),
{
    if entries.len() == 0 {
        ("unknown"@, 0)
    } else if entries[0].is_dir && !is_hidden(entries[0].name) {
        (
            entries[0].name,
            match entries[0].modified {
                Some(t) => t,
                None => 0,
            },
        )
    } else {
        version_in(entries.skip(1))
    }
}

/// What is recorded of a cask that was found in a Caskroom.
pub open spec fn found_cask(e: CaskroomEntryView) -> InstalledCaskView {
    InstalledCaskView {
        name: e.name,
        version: version_in(e.versions).0,
        install_date: version_in(e.versions).1,
        artifact_type: None,
        binary_paths: None,
        app_name: None,
    }
}

/// The record with the casks that were found; what is recorded already stands.
pub open spec fn with_found(
    m: Map<Seq<char>, InstalledCaskView>,
    found: Seq<CaskroomEntryView>,
) -> Map<Seq<char>, InstalledCaskView>
    decreases found.len(),
{
    if found.len() == 0 {
        m
    } else {
        let before = with_found(m, found.drop_last());
        let e = found.last();
        if !e.is_dir || is_hidden(e.name) || before.contains_key(e.name) {
            before
        } else {
            before.insert(e.name, found_cask(e))
        }
    }
}

/// What is recorded of a cask is never replaced by what a Caskroom shows.
pub proof fn records_win_over_caskrooms(
    m: Map<Seq<char>, InstalledCaskView>,
    found: Seq<CaskroomEntryView>,
    name: Seq<char>,
)
    requires
        m.contains_key(name),
    ensures
        with_found(m, found).contains_key(name),
        with_found(m, found)[name] == m[name],
    decreases found.len(),
{
    if found.len() > 0 {
        records_win_over_caskrooms(m, found.drop_last(), name);
    }
}

/// The record of installed casks.
pub struct CaskState {
    pub legacy_state_path: String,
}

impl CaskState {
    pub fn new(home: Option<&str>) -> (r: Result<Self>)
        ensures
            match dirs::str_view(home) {
                Some(h) => r matches Ok(s) && s.legacy_state_path@ == paths::path_join(
                    paths::path_join(h, ".wax"@),
                    "installed_casks.json"@,
                ),
                None => r matches Err(WaxError::InstallError(m)) && m@ == dirs::no_home(),
            },
    {
        match wax_dir(home) {
            Ok(d) => Ok(CaskState { legacy_state_path: below(d.as_str(), "installed_casks.json") }),
            Err(e) => Err(e),
        }
    }

    pub fn caskroom_dir(homebrew: &str) -> (r: String)
        ensures
            r@ == paths::path_join(homebrew@, "Caskroom"@),
    {
        below(homebrew, "Caskroom")
    }

    pub fn user_caskroom_dir(home: Option<&str>) -> (r: Result<String>)
        ensures
            match dirs::str_view(home) {
                Some(h) => r matches Ok(s) && s@ == paths::path_join(
                    paths::path_join(paths::path_join(h, ".local"@), "wax"@),
                    "Caskroom"@,
                ),
                None => r matches Err(WaxError::InstallError(m)) && m@ == dirs::no_home(),
            },
    {
        match home_dir(home) {
            Ok(h) => Ok(below(below(below(h.as_str(), ".local").as_str(), "wax").as_str(), "Caskroom")),
            Err(e) => Err(e),
        }
    }

    /// Adds to the record the casks that the Caskrooms hold and that it lacks.
    pub fn load(casks: &mut Table<InstalledCask>, found: &Vec<CaskroomEntry>)
        requires
            old(casks).wf(),
        ensures
            final(casks).wf(),
            table::contents(*final(casks)) == with_found(
                table::contents(*old(casks)),
                caskroom_views(found@),
            ),
    {
        let ghost m = table::contents(*casks);
        let ghost f = caskroom_views(found@);
        for i in 0..found.len()
            invariant
                f == caskroom_views(found@),
                casks.wf(),
                table::contents(*casks) == with_found(m, f.take(i as int)),
        {
            let ghost so_far = table::contents(*casks);
            proof {
                assert(f.take(i + 1).drop_last() =~= f.take(i as int));
                assert(f.take(i + 1).last() == found@[i as int]@);
            }
            let e = &found[i];
            let name = chars_of(e.name.as_str());
            if e.is_dir && !begins(name.as_slice(), ".") && !casks.contains_key(e.name.as_str()) {
                let (version, install_date) = Self::scan_cask_version_dir(&e.versions);
                let cask = InstalledCask {
                    name: e.name.clone(),
                    version,
                    install_date,
                    artifact_type: None,
                    binary_paths: None,
                    app_name: None,
                };
                let ghost shown = cask@;
                casks.insert(e.name.clone(), cask);
                proof {
                    assert(shown == found_cask(e@));
                    assert(table::contents(*casks) =~= so_far.insert(e.name@, shown));
                }
            }
        }
        proof {
            assert(f.take(f.len() as int) =~= f);
        }
    }

    /// A cask's version and the date of its installation.
    pub fn scan_cask_version_dir(entries: &Vec<VersionEntry>) -> (r: (String, i64))
        ensures
            (r.0@, r.1 as int) == version_in(version_views(entries@)),
    {
        let ghost v = version_views(entries@);
        proof {
            assert(v.skip(0) =~= v);
        }
        for i in 0..entries.len()
            invariant
                v == version_views(entries@),
                version_in(v) == version_in(v.skip(i as int)),
        {
            let e = &entries[i];
            let name = chars_of(e.name.as_str());
            proof {
                assert(v.skip(i as int)[0] == e@);
                assert(v.skip(i as int).skip(1) =~= v.skip(i + 1));
            }
            if e.is_dir && !begins(name.as_slice(), ".") {
                let date: i64 = match e.modified {
                    Some(t) => t,
                    None => 0,
                };
                return (e.name.clone(), date);
            }
        }
        (String::from_str("unknown"), 0)
    }

    /// Where a version of a cask stands in the Caskroom.
    pub fn version_dir(homebrew: &str, name: &str, version: &str) -> (r: String)
        ensures
            r@ == paths::path_join(
                paths::path_join(paths::path_join(homebrew@, "Caskroom"@), name@),
                version@,
            ),
    {
        below(below(Self::caskroom_dir(homebrew).as_str(), name).as_str(), version)
    }

    /// Records a cask under its name, in place of what was recorded there.
    pub fn add(casks: &mut Table<InstalledCask>, cask: InstalledCask)
        requires
            old(casks).wf(),
        ensures
            final(casks).wf(),
            table::contents(*final(casks)) == table::contents(*old(casks)).insert(cask@.name, cask@),
    {
        let ghost before = table::contents(*casks);
        let ghost shown = cask@;
        let name = cask.name.clone();
        casks.insert(name, cask);
        proof {
            assert(table::contents(*casks) =~= before.insert(shown.name, shown));
        }
    }

    /// Whether the app is linked into the Caskroom: it is there, and nothing is
    /// at the place of the link.
    pub fn links_app(app_exists: bool, link_exists: bool) -> (r: bool)
        ensures
            r == (app_exists && !link_exists),
    {
        app_exists && !link_exists
    }

    /// The app of a cask, and the link to it that is made beside the cask's version,
    /// where the app is there and the link is not.
    pub fn app_link(homebrew: &str, cask: &InstalledCask) -> (r: Option<(String, String)>)
        ensures
            match cask@.app_name {
                Some(a) => r matches Some(p) && p.0@ == paths::path_join("/Applications"@, a) && p.1@
                    == paths::path_join(
                    paths::path_join(
                        paths::path_join(
                            paths::path_join(homebrew@, "Caskroom"@),
                            cask@.name,
                        ),
                        cask@.version,
                    ),
                    a,
                ),
                None => r is None,
            },
    {
        match &cask.app_name {
            Some(a) => {
                let dir = Self::version_dir(homebrew, cask.name.as_str(), cask.version.as_str());
                Some((below("/Applications", a.as_str()), below(dir.as_str(), a.as_str())))
            },
            None => None,
        }
    }

    /// The directories that go with a cask that is removed, where they are there.
    pub fn dirs_of(homebrew: &str, home: Option<&str>, name: &str) -> (r: Vec<String>)
        ensures
            text::views(r@) == seq![
                paths::path_join(paths::path_join(homebrew@, "Caskroom"@), name@),
            ] + match dirs::str_view(home) {
                Some(h) => seq![
                    paths::path_join(
                        paths::path_join(
                            paths::path_join(paths::path_join(h, ".local"@), "wax"@),
                            "Caskroom"@,
                        ),
                        name@,
                    ),
                ],
                None => Seq::<Seq<char>>::empty(),
            },
    {
        let mut v: Vec<String> = Vec::new();
        v.push(below(Self::caskroom_dir(homebrew).as_str(), name));
        match Self::user_caskroom_dir(home) {
            Ok(d) => v.push(below(d.as_str(), name)),
            Err(_) => {},
        }
        v
    }

    pub fn remove(casks: &mut Table<InstalledCask>, name: &str)
        requires
            old(casks).wf(),
        ensures
            final(casks).wf(),
            table::contents(*final(casks)) == table::contents(*old(casks)).remove(name@),
    {
        let ghost before = table::contents(*casks);
        let _gone = casks.remove(name);
        proof {
            assert(table::contents(*casks) =~= before.remove(name@));
        }
    }
}

/// What was put in place so far, to be taken away again unless all succeeds.
pub struct RollbackContext {
    pub installed_paths: Vec<String>,
    pub committed: bool,
}

impl RollbackContext {
    pub fn new() -> (r: Self)
        ensures
            text::views(r.installed_paths@) == Seq::<Seq<char>>::empty(),
            !r.committed,
    {
        let r = RollbackContext { installed_paths: Vec::new(), committed: false };
        proof {
            assert(text::views(r.installed_paths@) =~= Seq::<Seq<char>>::empty());
        }
        r
    }

    pub fn add(&mut self, path: String)
        ensures
            text::views(final(self).installed_paths@) == text::views(old(self).installed_paths@).push(
                path@,
            ),
            final(self).committed == old(self).committed,
    {
        let ghost before = text::views(self.installed_paths@);
        self.installed_paths.push(path);
        proof {
            assert(text::views(self.installed_paths@) =~= before.push(path@));
        }
    }

    pub fn commit(&mut self)
        ensures
            final(self).committed,
            final(self).installed_paths == old(self).installed_paths,
    {
        self.committed = true;
    }

    /// What is to be taken away again: everything that was put in place, in that
    /// order, unless all was committed.
    pub fn undone(&self) -> (r: Vec<String>)
        ensures
            text::views(r@) == if self.committed {
                Seq::empty()
            } else {
                text::views(self.installed_paths@)
            },
    {
        if self.committed {
            let r: Vec<String> = Vec::new();
            proof {
                assert(text::views(r@) =~= Seq::<Seq<char>>::empty());
            }
            r
        } else {
            text::copied(&self.installed_paths)
        }
    }
}

// ---------------------------------------------------------------------------
// Staging

/// How a download is made ready.
#[derive(Debug)]
pub enum StagingStep {
    /// A disk image is attached at the mount point.
    Attach { mount_point: String },
    Unzip,
    Untar,
    /// The file is copied as it is.
    Copy { dest: String },
}

/// The mathematical content of a `StagingStep`.
pub enum StagingView {
    Attach { mount_point: Seq<char> },
    Unzip,
    Untar,
    Copy { dest: Seq<char> },
}

impl View for StagingStep {
    type V = StagingView;

    open spec fn view(&self) -> StagingView {
        match *self {
            StagingStep::Attach { mount_point } => StagingView::Attach { mount_point: mount_point@ },
            StagingStep::Unzip => StagingView::Unzip,
            StagingStep::Untar => StagingView::Untar,
            StagingStep::Copy { dest } => StagingView::Copy { dest: dest@ },
        }
    }
}

/// A `StagingStep` is seen as what it holds.
pub proof fn staging_step_is_seen_as_it_is(x: StagingStep)
    ensures
        x matches StagingStep::Attach { mount_point } ==> x@ == (StagingView::Attach {
            mount_point: mount_point@,
        }),
        x is Unzip ==> x@ == StagingView::Unzip,
        x is Untar ==> x@ == StagingView::Untar,
        x matches StagingStep::Copy { dest } ==> x@ == (StagingView::Copy { dest: dest@ }),
{
}

pub open spec fn is_tarball(artifact_type: Seq<char>) -> bool {
    artifact_type == "tar.gz"@ || artifact_type == "tar"@ || artifact_type == "tgz"@
        || artifact_type == "tar.bz2"@ || artifact_type == "tbz"@ || artifact_type == "tar.xz"@
        || artifact_type == "txz"@
}

/// The name that an address gives its file: what follows the last slash, without
/// the query.
pub open spec fn url_file(url: Seq<char>) -> Seq<char> {
    text::split(text::split(url, '?')[0], '/').last()
}

pub open spec fn staging_of(artifact_type: Seq<char>, url: Seq<char>, root: Seq<char>) -> StagingView {
    if artifact_type == "dmg"@ {
        StagingView::Attach { mount_point: paths::path_join(root, "mount"@) }
    } else if artifact_type == "zip"@ {
        StagingView::Unzip
    } else if is_tarball(artifact_type) {
        StagingView::Untar
    } else {
        StagingView::Copy {
            dest: paths::path_join(
                root,
                match outside::percent_decoded(url_file(url)) {
                    Some(d) => d,
                    None => url_file(url),
                },
            ),
        }
    }
}

/// Where a download is unpacked.
pub struct StagingContext {
    pub staging_root: String,
    pub mount_point: Option<String>,
}

impl StagingContext {
    /// What is done with a download of a type: images are attached, archives are
    /// unpacked, and anything else is copied under the name that its address
    /// gives it.
    pub fn step(artifact_type: &str, url: &str, root: &str) -> (r: StagingStep)
        ensures
            r@ == staging_of(artifact_type@, url@, root@),
    {
        if same_str(artifact_type, "dmg") {
            StagingStep::Attach { mount_point: below(root, "mount") }
        } else if same_str(artifact_type, "zip") {
            StagingStep::Unzip
        } else if same_str(artifact_type, "tar.gz") || same_str(artifact_type, "tar") || same_str(
            artifact_type,
            "tgz",
        ) || same_str(artifact_type, "tar.bz2") || same_str(artifact_type, "tbz") || same_str(
            artifact_type,
            "tar.xz",
        ) || same_str(artifact_type, "txz") {
            StagingStep::Untar
        } else {
            let name = file_of_url(url);
            let decoded = percent_decode(name.as_str());
            StagingStep::Copy { dest: staged_copy(root, name.as_str(), decoded) }
        }
    }

    /// The context once a step is done: the artifacts lie at the mount point, if
    /// there is one.
    pub fn new(step: StagingStep, root: &str) -> (r: Self)
        ensures
            match step@ {
                StagingView::Attach { mount_point } => r.staging_root@ == mount_point
                    && text::opt_view(r.mount_point) == Some(mount_point),
                _ => r.staging_root@ == root@ && r.mount_point is None,
            },
    {
        match step {
            StagingStep::Attach { mount_point } => {
                let staging_root = mount_point.clone();
                StagingContext { staging_root, mount_point: Some(mount_point) }
            },
            _ => StagingContext { staging_root: String::from_str(root), mount_point: None },
        }
    }
}

/// The name that an address gives its file.
pub fn file_of_url(url: &str) -> (r: String)
    ensures
        r@ == url_file(url@),
{
    let c = chars_of(url);
    let q = pieces(c.as_slice(), '?');
    proof {
        assert(text::slices(q@)[0] == q@[0]@);
    }
    let s = pieces(q[0], '/');
    proof {
        assert(text::slices(s@).last() == s@.last()@);
    }
    string_of(s[s.len() - 1])
}

/// Where a file goes whose name decodes as given.
pub fn staged_copy(root: &str, name: &str, decoded: Option<String>) -> (r: String)
    ensures
        r@ == paths::path_join(
            root@,
            match text::opt_view(decoded) {
                Some(d) => d,
                None => name@,
            },
        ),
{
    match decoded {
        Some(d) => below(root, d.as_str()),
        None => below(root, name),
    }
}

/// What is said when a step fails, before what the command printed.
pub open spec fn staging_failure(step: StagingView) -> Seq<char> {
    match step {
        StagingView::Attach { .. } => "Failed to mount DMG: "@,
        StagingView::Unzip => "Failed to extract ZIP: "@,
        _ => "Failed to extract tarball: "@,
    }
}

/// The outcome of a step's command.
pub fn staged(step: &StagingStep, success: bool, stderr: &[u8]) -> (r: Result<()>)
    ensures
        failed_with(r, success, staging_failure(step@) + outside::lossy(stderr@)),
{
    let what = match step {
        StagingStep::Attach { .. } => "Failed to mount DMG: ",
        StagingStep::Unzip => "Failed to extract ZIP: ",
        _ => "Failed to extract tarball: ",
    };
    outcome(success, what, stderr)
}

/// The result of a command: an error with the message where it failed.
pub open spec fn failed_with(r: Result<()>, success: bool, message: Seq<char>) -> bool {
    if success {
        r is Ok
    } else {
        r matches Err(WaxError::InstallError(m)) && m@ == message
    }
}

/// The result of a command: where it failed, what is said of it and what the
/// command printed.
pub fn outcome(success: bool, what: &str, stderr: &[u8]) -> (r: Result<()>)
    ensures
        failed_with(r, success, what@ + outside::lossy(stderr@)),
{
    if success {
        Ok(())
    } else {
        let mut m = String::from_str(what);
        m.append(lossy_text(stderr).as_str());
        Err(WaxError::InstallError(m))
    }
}

// ---------------------------------------------------------------------------
// Installing

/// The source path with its placeholders filled in.
pub open spec fn filled(source: Seq<char>, prefix: Seq<char>, root: Seq<char>) -> Seq<char> {
    text::replace(
        text::replace(
            text::replace(source, "$HOMEBREW_PREFIX"@, prefix),
            "#{HOMEBREW_PREFIX}"@,
            prefix,
        ),
        "$APPDIR"@,
        root,
    )
}

/// The path of an artifact. A relative one lies in the staging directory; one
/// that leads upwards counts only by its last name, in the staging directory.
pub open spec fn source_path(root: Seq<char>, prefix: Seq<char>, source: Seq<char>) -> Seq<char> {
    let full = paths::path_join(root, filled(source, prefix, root));
    if paths::climbs(full) {
        paths::path_join(
            root,
            match paths::file_name(source) {
                Some(n) => n,
                None => "unknown"@,
            },
        )
    } else {
        full
    }
}

/// Where the staging directory's own path does not lead upwards, no artifact's
/// path does.
pub proof fn source_path_does_not_climb(root: Seq<char>, prefix: Seq<char>, source: Seq<char>)
    requires
        !paths::climbs(root),
    ensures
        !paths::climbs(source_path(root, prefix, source)),
{
    let name = match paths::file_name(source) {
        Some(n) => n,
        None => "unknown"@,
    };
    reveal_strlit("unknown");
    reveal_strlit("..");
    assert("unknown"@.len() == 7 && ".."@.len() == 2);
    if paths::file_name(source) is Some {
        paths::file_name_is_plain(source);
    }
    paths::plain_name_does_not_climb(name);
    paths::below_does_not_climb(root, name);
}

/// What is said where casks cannot be installed.
pub open spec fn not_macos() -> Seq<char> {
    "Cask installation is only supported on macOS. Use formulae for Linux packages."@
}

/// The result of a step that only macOS has.
pub open spec fn on_macos(r: Result<String>, os: Seq<char>, rest: bool) -> bool {
    if os == "macos"@ {
        rest
    } else {
        r matches Err(WaxError::PlatformNotSupported(m)) && m@ == not_macos()
    }
}

/// The result where the source has to have a name: a path for that name, or an
/// error that quotes the source.
pub open spec fn named(r: Result<String>, source: Seq<char>, what: Seq<char>, dest: spec_fn(Seq<char>) -> Seq<char>) -> bool {
    match paths::file_name(source) {
        Some(n) => r matches Ok(p) && p@ == dest(n),
        None => r matches Err(WaxError::InstallError(m)) && m@ == what + source,
    }
}

pub struct CaskInstaller {}

impl CaskInstaller {
    pub fn check_platform_support(os: &str) -> (r: Result<()>)
        ensures
            if os@ == "macos"@ {
                r is Ok
            } else {
                r matches Err(WaxError::PlatformNotSupported(m)) && m@ == not_macos()
            },
    {
        if same_str(os, "macos") {
            Ok(())
        } else {
            Err(
                WaxError::PlatformNotSupported(
                    String::from_str(
                        "Cask installation is only supported on macOS. Use formulae for Linux packages.",
                    ),
                ),
            )
        }
    }

    pub fn applications_dir(os: &str) -> (r: Result<String>)
        ensures
            if os@ == "macos"@ {
                r matches Ok(p) && p@ == "/Applications"@
            } else {
                r matches Err(WaxError::PlatformNotSupported(m)) && m@
                    == "Applications directory concept is macOS-specific"@
            },
    {
        if same_str(os, "macos") {
            Ok(String::from_str("/Applications"))
        } else {
            Err(
                WaxError::PlatformNotSupported(
                    String::from_str("Applications directory concept is macOS-specific"),
                ),
            )
        }
    }

    /// The directories for binaries that are tried, in this order.
    pub fn bin_candidates(homebrew: &str) -> (r: Vec<String>)
        ensures
            text::views(r@) == seq![
                paths::path_join(homebrew@, "bin"@),
                "/usr/local/bin"@,
                "/opt/homebrew/bin"@,
            ],
    {
        let mut v: Vec<String> = Vec::new();
        v.push(below(homebrew, "bin"));
        v.push(String::from_str("/usr/local/bin"));
        v.push(String::from_str("/opt/homebrew/bin"));
        proof {
            assert(text::views(v@) =~= seq![
                paths::path_join(homebrew@, "bin"@),
                "/usr/local/bin"@,
                "/opt/homebrew/bin"@,
            ]);
        }
        v
    }

    /// The first candidate that is usable, given for each whether it is there and
    /// can be written to; or else a directory in the home directory.
    pub fn detect_writable_bin_dir(candidates: &Vec<String>, usable: &Vec<bool>, home: Option<&str>) -> (r:
        Result<String>)
        requires
            candidates@.len() == usable@.len(),
        ensures
            match first_true(usable@) {
                Some(i) => r matches Ok(p) && p@ == candidates@[i]@,
                None => match dirs::str_view(home) {
                    Some(h) => r matches Ok(p) && p@ == paths::path_join(
                        paths::path_join(h, ".local"@),
                        "bin"@,
                    ),
                    None => r matches Err(WaxError::InstallError(m)) && m@ == dirs::no_home(),
                },
            },
    {
        for i in 0..usable.len()
            invariant
                candidates@.len() == usable@.len(),
                forall|j: int| 0 <= j < i ==> !usable@[j],
        {
            if usable[i] {
                proof {
                    first_is(usable@, i as int);
                }
                return Ok(candidates[i].clone());
            }
        }
        proof {
            first_is(usable@, usable@.len() as int);
        }
        match home_dir(home) {
            Ok(h) => Ok(below(below(h.as_str(), ".local").as_str(), "bin")),
            Err(e) => Err(e),
        }
    }

    /// The path of an artifact.
    pub fn resolve_source_path(staging_root: &str, homebrew: &str, source_rel: &str) -> (r: String)
        ensures
            r@ == source_path(staging_root@, homebrew@, source_rel@),
    {
        let src = chars_of(source_rel);
        let prefix = chars_of(homebrew);
        let root = chars_of(staging_root);
        let dollar = chars_of("$HOMEBREW_PREFIX");
        let hash = chars_of("#{HOMEBREW_PREFIX}");
        let appdir = chars_of("$APPDIR");
        proof {
            reveal_strlit("$HOMEBREW_PREFIX");
            reveal_strlit("#{HOMEBREW_PREFIX}");
            reveal_strlit("$APPDIR");
        }
        let a = replaced(src.as_slice(), dollar.as_slice(), prefix.as_slice());
        let b = replaced(a.as_slice(), hash.as_slice(), prefix.as_slice());
        let c = replaced(b.as_slice(), appdir.as_slice(), root.as_slice());
        let full = below(staging_root, string_of(c.as_slice()).as_str());
        if leads_up(full.as_str()) {
            match name_of(source_rel) {
                Some(n) => below(staging_root, n.as_str()),
                None => below(staging_root, "unknown"),
            }
        } else {
            full
        }
    }

    /// The type of an artifact, told from the address it was fetched from after
    /// redirects, or else the name it was given, or else its content type.
    pub fn probe_artifact_type(
        final_url: &str,
        disposition: Option<&str>,
        content_type: Option<&str>,
    ) -> (r: Option<&'static str>)
        ensures
            dirs::str_view(r) == or_else(
                artifact_type(final_url@),
                or_else(
                    match dirs::str_view(disposition) {
                        Some(d) => type_of_disposition(text::split(d, ';')),
                        None => None,
                    },
                    match dirs::str_view(content_type) {
                        Some(c) => type_of_content(c),
                        None => None,
                    },
                ),
            ),
    {
        match detect_artifact_type(final_url) {
            Some(t) => {
                return Some(t);
            },
            None => {},
        }
        match disposition {
            Some(d) => match detect_artifact_type_from_disposition(d) {
                Some(t) => {
                    return Some(t);
                },
                None => {},
            },
            None => {},
        }
        match content_type {
            Some(c) => detect_artifact_type_from_content_type(c),
            None => None,
        }
    }

    /// Accepts content whose checksum is the expected one, and any content where
    /// none is to be checked.
    pub fn verify_checksum(content: &[u8], expected_sha256: &str) -> (r: Result<()>)
        ensures
            if expected_sha256@ == "no_check"@ || outside::sha256_of(content@) == expected_sha256@ {
                r is Ok
            } else {
                r matches Err(WaxError::ChecksumMismatch { expected, actual }) && expected@
                    == expected_sha256@ && actual@ == outside::sha256_of(content@)
            },
    {
        if same_str(expected_sha256, "no_check") {
            return Ok(());
        }
        check_hash(sha256_hex(content), expected_sha256)
    }

    /// Where an app goes.
    pub fn install_app(os: &str, source_rel: &str, source: &str, source_exists: bool) -> (r: Result<
        String,
    >)
        ensures
            on_macos(
                r,
                os@,
                match paths::file_name(source_rel@) {
                    Some(n) => if source_exists {
                        r matches Ok(p) && p@ == paths::path_join("/Applications"@, n)
                    } else {
                        r matches Err(WaxError::InstallError(m)) && m@
                            == "App source does not exist: "@ + outside::path_shown(source@)
                    },
                    None => r matches Err(WaxError::InstallError(m)) && m@
                        == "Invalid app source: "@ + source_rel@,
                },
            ),
    {
        match Self::check_platform_support(os) {
            Ok(_) => {},
            Err(e) => {
                return Err(e);
            },
        }
        match name_of(source_rel) {
            Some(n) => {
                if !source_exists {
                    return Err(missing("App source does not exist: ", source));
                }
                match Self::applications_dir(os) {
                    Ok(d) => Ok(below(d.as_str(), n.as_str())),
                    Err(e) => Err(e),
                }
            },
            None => Err(invalid("Invalid app source: ", source_rel)),
        }
    }

    /// The command that installs a package.
    pub fn install_pkg(os: &str, source: &str, source_exists: bool) -> (r: Result<Vec<String>>)
        ensures
            if os@ != "macos"@ {
                r matches Err(WaxError::PlatformNotSupported(m)) && m@ == not_macos()
            } else if !source_exists {
                r matches Err(WaxError::InstallError(m)) && m@ == "PKG source does not exist: "@
                    + outside::path_shown(source@)
            } else {
                r matches Ok(v) && text::views(v@) == seq![
                    "sudo"@,
                    "installer"@,
                    "-pkg"@,
                    source@,
                    "-target"@,
                    "/"@,
                ]
            },
    {
        match Self::check_platform_support(os) {
            Ok(_) => {},
            Err(e) => {
                return Err(e);
            },
        }
        if !source_exists {
            return Err(missing("PKG source does not exist: ", source));
        }
        let mut v: Vec<String> = Vec::new();
        v.push(String::from_str("sudo"));
        v.push(String::from_str("installer"));
        v.push(String::from_str("-pkg"));
        v.push(String::from_str(source));
        v.push(String::from_str("-target"));
        v.push(String::from_str("/"));
        proof {
            assert(text::views(v@) =~= seq![
                "sudo"@,
                "installer"@,
                "-pkg"@,
                source@,
                "-target"@,
                "/"@,
            ]);
        }
        Ok(v)
    }

    /// A binary that is not there may be a script that its cask writes before it is
    /// installed. Whether that script is looked for in the cask's source.
    pub fn wants_wrapper_script(os: &str, source_exists: bool, cask_name: Option<&str>) -> (r: bool)
        ensures
            r == (os@ == "macos"@ && !source_exists && cask_name is Some),
    {
        same_str(os, "macos") && !source_exists && cask_name.is_some()
    }

    /// Where a binary goes: under its target's name, or that of its source, in the
    /// first directory for binaries that is usable. One that is not there is passed
    /// over.
    pub fn install_binary(
        os: &str,
        source_rel: &str,
        target_name: Option<&str>,
        source_exists: bool,
        candidates: &Vec<String>,
        usable: &Vec<bool>,
        home: Option<&str>,
    ) -> (r: Result<Option<String>>)
        requires
            candidates@.len() == usable@.len(),
        ensures
            if os@ != "macos"@ {
                r matches Err(WaxError::PlatformNotSupported(m)) && m@ == not_macos()
            } else if !source_exists {
                r matches Ok(None)
            } else {
                let name = match dirs::str_view(target_name) {
                    Some(t) => t,
                    None => match paths::file_name(source_rel@) {
                        Some(n) => n,
                        None => source_rel@,
                    },
                };
                match first_true(usable@) {
                    Some(i) => r matches Ok(Some(p)) && p@ == paths::path_join(
                        candidates@[i]@,
                        name,
                    ),
                    None => match dirs::str_view(home) {
                        Some(h) => r matches Ok(Some(p)) && p@ == paths::path_join(
                            paths::path_join(paths::path_join(h, ".local"@), "bin"@),
                            name,
                        ),
                        None => r matches Err(WaxError::InstallError(m)) && m@ == dirs::no_home(),
                    },
                }
            },
    {
        match Self::check_platform_support(os) {
            Ok(_) => {},
            Err(e) => {
                return Err(e);
            },
        }
        if !source_exists {
            return Ok(None);
        }
        let dir = match Self::detect_writable_bin_dir(candidates, usable, home) {
            Ok(d) => d,
            Err(e) => {
                return Err(e);
            },
        };
        match target_name {
            Some(t) => Ok(Some(below(dir.as_str(), t))),
            None => match name_of(source_rel) {
                Some(n) => Ok(Some(below(dir.as_str(), n.as_str()))),
                None => Ok(Some(below(dir.as_str(), source_rel))),
            },
        }
    }

    /// Where a font goes.
    pub fn install_font(os: &str, source_rel: &str, home: Option<&str>) -> (r: Result<String>)
        ensures
            on_macos(
                r,
                os@,
                match paths::file_name(source_rel@) {
                    Some(n) => match dirs::str_view(home) {
                        Some(h) => r matches Ok(p) && p@ == paths::path_join(
                            paths::path_join(h, "Library/Fonts"@),
                            n,
                        ),
                        None => r matches Err(WaxError::InstallError(m)) && m@ == dirs::no_home(),
                    },
                    None => r matches Err(WaxError::InstallError(m)) && m@
                        == "Invalid font source: "@ + source_rel@,
                },
            ),
    {
        match Self::check_platform_support(os) {
            Ok(_) => {},
            Err(e) => {
                return Err(e);
            },
        }
        match name_of(source_rel) {
            Some(n) => match home_dir(home) {
                Ok(h) => Ok(below(below(h.as_str(), "Library/Fonts").as_str(), n.as_str())),
                Err(e) => Err(e),
            },
            None => Err(invalid("Invalid font source: ", source_rel)),
        }
    }

    /// Where a manual page goes: its extension names the section, which is the first
    /// where it has none.
    pub fn install_manpage(os: &str, source_rel: &str, homebrew: &str) -> (r: Result<String>)
        ensures
            on_macos(
                r,
                os@,
                named(
                    r,
                    source_rel@,
                    "Invalid manpage source: "@,
                    |n: Seq<char>|
                        paths::path_join(
                            paths::path_join(
                                paths::path_join(homebrew@, "share/man"@),
                                "man"@ + match extension(n) {
                                    Some(e) => e,
                                    None => "1"@,
                                },
                            ),
                            n,
                        ),
                ),
            ),
    {
        match Self::check_platform_support(os) {
            Ok(_) => {},
            Err(e) => {
                return Err(e);
            },
        }
        match name_of(source_rel) {
            Some(n) => {
                let mut section = String::from_str("man");
                match extension_of(n.as_str()) {
                    Some(e) => section.append(e.as_str()),
                    None => section.append("1"),
                }
                Ok(
                    below(
                        below(below(homebrew, "share/man").as_str(), section.as_str()).as_str(),
                        n.as_str(),
                    ),
                )
            },
            None => Err(invalid("Invalid manpage source: ", source_rel)),
        }
    }

    /// What is taken away before an artifact is copied to its place. Links that stand
    /// there are followed.
    pub fn install_artifact(os: &str, dest_exists: bool, dest_is_dir: bool) -> (r: Result<Clearing>)
        ensures
            if os@ != "macos"@ {
                r matches Err(WaxError::PlatformNotSupported(m)) && m@ == not_macos()
            } else {
                r == Ok::<Clearing, WaxError>(
                    if !dest_exists {
                        Clearing::Keep
                    } else if dest_is_dir {
                        Clearing::RemoveDir
                    } else {
                        Clearing::RemoveFile
                    },
                )
            },
    {
        match Self::check_platform_support(os) {
            Ok(_) => {},
            Err(e) => {
                return Err(e);
            },
        }
        if !dest_exists {
            Ok(Clearing::Keep)
        } else if dest_is_dir {
            Ok(Clearing::RemoveDir)
        } else {
            Ok(Clearing::RemoveFile)
        }
    }

    /// Where an artifact goes that keeps its name.
    pub fn install_generic_directory(os: &str, source_rel: &str, dest_parent: &str) -> (r: Result<
        String,
    >)
        ensures
            on_macos(
                r,
                os@,
                named(
                    r,
                    source_rel@,
                    "Invalid source: "@,
                    |n: Seq<char>| paths::path_join(dest_parent@, n),
                ),
            ),
    {
        match Self::check_platform_support(os) {
            Ok(_) => {},
            Err(e) => {
                return Err(e);
            },
        }
        match name_of(source_rel) {
            Some(n) => Ok(below(dest_parent, n.as_str())),
            None => Err(invalid("Invalid source: ", source_rel)),
        }
    }

    /// Where a shell completion goes; one that is not there is passed over.
    pub fn install_completion(
        os: &str,
        homebrew: &str,
        source_rel: &str,
        source_exists: bool,
        shell: &str,
        token: &str,
    ) -> (r: Result<Option<String>>)
        ensures
            if os@ != "macos"@ {
                r matches Err(WaxError::PlatformNotSupported(m)) && m@ == not_macos()
            } else if !source_exists {
                r matches Ok(None)
            } else {
                match completion_dir(shell@) {
                    Some(d) => r matches Ok(Some(p)) && p@ == paths::path_join(
                        paths::path_join(homebrew@, d),
                        match paths::file_name(source_rel@) {
                            Some(n) => n,
                            None => token@,
                        },
                    ),
                    None => r matches Err(WaxError::InstallError(m)) && m@
                        == "Unsupported shell: "@ + shell@,
                }
            },
    {
        match Self::check_platform_support(os) {
            Ok(_) => {},
            Err(e) => {
                return Err(e);
            },
        }
        if !source_exists {
            return Ok(None);
        }
        let dir = if same_str(shell, "bash") {
            "etc/bash_completion.d"
        } else if same_str(shell, "zsh") {
            "share/zsh/site-functions"
        } else if same_str(shell, "fish") {
            "share/fish/vendor_completions.d"
        } else {
            return Err(invalid("Unsupported shell: ", shell));
        };
        let dest_dir = below(homebrew, dir);
        match name_of(source_rel) {
            Some(n) => Ok(Some(below(dest_dir.as_str(), n.as_str()))),
            None => Ok(Some(below(dest_dir.as_str(), token))),
        }
    }
}

/// Where a shell looks for completions, below the prefix.
pub open spec fn completion_dir(shell: Seq<char>) -> Option<Seq<char>> {
    if shell == "bash"@ {
        Some("etc/bash_completion.d"@)
    } else if shell == "zsh"@ {
        Some("share/zsh/site-functions"@)
    } else if shell == "fish"@ {
        Some("share/fish/vendor_completions.d"@)
    } else {
        None
    }
}

fn missing(what: &str, source: &str) -> (r: WaxError)
    ensures
        r matches WaxError::InstallError(m) && m@ == what@ + outside::path_shown(source@),
{
    let mut m = String::from_str(what);
    m.append(path_debug(source).as_str());
    WaxError::InstallError(m)
}

fn invalid(what: &str, source: &str) -> (r: WaxError)
    ensures
        r matches WaxError::InstallError(m) && m@ == what@ + source@,
{
    let mut m = String::from_str(what);
    m.append(source);
    WaxError::InstallError(m)
}

/// Where the first true stands.
pub open spec fn first_true(v: Seq<bool>) -> Option<int>
    decreases v.len(),
{
    if v.len() == 0 {
        None
    } else if v[0] {
        Some(0)
    } else {
        match first_true(v.skip(1)) {
            Some(i) => Some(i + 1),
            None => None,
        }
    }
}

/// Where only false stands before a true, that is the first.
pub proof fn first_is(v: Seq<bool>, i: int)
    requires
        0 <= i <= v.len(),
        forall|j: int| 0 <= j < i ==> !v[j],
        i < v.len() ==> v[i],
    ensures
        first_true(v) == if i < v.len() {
            Some(i)
        } else {
            None
        },
    decreases v.len(),
{
    if i > 0 {
        assert forall|j: int| 0 <= j < i - 1 implies !v.skip(1)[j] by {
            assert(v.skip(1)[j] == v[j + 1]);
        }
        first_is(v.skip(1), i - 1);
    }
}

/// The first, where there is one, or else the second.
pub open spec fn or_else(a: Option<Seq<char>>, b: Option<Seq<char>>) -> Option<Seq<char>> {
    match a {
        Some(x) => Some(x),
        None => b,
    }
}

/// What follows the last dot of a name, unless the name has no other dot and
/// begins with that one.
pub open spec fn extension(name: Seq<char>) -> Option<Seq<char>> {
    let parts = text::split(name, '.');
    if parts.len() == 1 || (parts.len() == 2 && parts[0].len() == 0) {
        None
    } else {
        Some(parts.last())
    }
}

/// What follows the last dot of a name.
pub fn extension_of(name: &str) -> (r: Option<String>)
    ensures
        text::opt_view(r) == extension(name@),
{
    let c = chars_of(name);
    let p = pieces(c.as_slice(), '.');
    let n: usize = p.len();
    proof {
        assert(text::slices(p@)[0] == p@[0]@);
        assert(text::slices(p@).last() == p@[n - 1]@);
    }
    if n == 1 || (n == 2 && p[0].len() == 0) {
        None
    } else {
        Some(string_of(p[n - 1]))
    }
}

/// The type that an address tells by its ending, without query and fragment.
pub open spec fn artifact_type(url: Seq<char>) -> Option<Seq<char>> {
    let path = text::split(text::split(url, '?')[0], '#')[0];
    if text::ends_with(path, ".dmg"@) {
        Some("dmg"@)
    } else if text::ends_with(path, ".pkg"@) {
        Some("pkg"@)
    } else if text::ends_with(path, ".zip"@) {
        Some("zip"@)
    } else if text::ends_with(path, ".tar.gz"@) || text::ends_with(path, ".tgz"@)
        || text::ends_with(path, ".tar.bz2"@) || text::ends_with(path, ".tbz"@)
        || text::ends_with(path, ".tar.xz"@) || text::ends_with(path, ".txz"@) {
        Some("tar.gz"@)
    } else {
        None
    }
}

/// The type that an address tells by its ending.
pub fn detect_artifact_type(url: &str) -> (r: Option<&'static str>)
    ensures
        dirs::str_view(r) == artifact_type(url@),
{
    let c = chars_of(url);
    type_of_path(c.as_slice())
}

fn type_of_path(url: &[char]) -> (r: Option<&'static str>)
    ensures
        dirs::str_view(r) == artifact_type(url@),
{
    let q = pieces(url, '?');
    proof {
        assert(text::slices(q@)[0] == q@[0]@);
    }
    let h = pieces(q[0], '#');
    proof {
        assert(text::slices(h@)[0] == h@[0]@);
    }
    let path = h[0];
    if ends(path, ".dmg") {
        Some("dmg")
    } else if ends(path, ".pkg") {
        Some("pkg")
    } else if ends(path, ".zip") {
        Some("zip")
    } else if ends(path, ".tar.gz") || ends(path, ".tgz") || ends(path, ".tar.bz2") || ends(
        path,
        ".tbz",
    ) || ends(path, ".tar.xz") || ends(path, ".txz") {
        Some("tar.gz")
    } else {
        None
    }
}

/// The type that a content type tells, without its parameters.
pub open spec fn type_of_content(content_type: Seq<char>) -> Option<Seq<char>> {
    let ct = text::trim(text::split(content_type, ';')[0]);
    if ct == "application/x-apple-diskimage"@ {
        Some("dmg"@)
    } else if ct == "application/octet-stream"@ {
        Some("binary"@)
    } else if ct == "application/zip"@ || ct == "application/x-zip-compressed"@ {
        Some("zip"@)
    } else if ct == "application/x-tar"@ || ct == "application/gzip"@ || ct
        == "application/x-gzip"@ {
        Some("tar.gz"@)
    } else if ct == "application/x-pkg"@ || ct == "application/vnd.apple.installer+xml"@ {
        Some("pkg"@)
    } else {
        None
    }
}

pub fn detect_artifact_type_from_content_type(content_type: &str) -> (r: Option<&'static str>)
    ensures
        dirs::str_view(r) == type_of_content(content_type@),
{
    let c = chars_of(content_type);
    let p = pieces(c.as_slice(), ';');
    proof {
        assert(text::slices(p@)[0] == p@[0]@);
    }
    let ct = trimmed(p[0]);
    if is(ct, "application/x-apple-diskimage") {
        Some("dmg")
    } else if is(ct, "application/octet-stream") {
        Some("binary")
    } else if is(ct, "application/zip") || is(ct, "application/x-zip-compressed") {
        Some("zip")
    } else if is(ct, "application/x-tar") || is(ct, "application/gzip") || is(
        ct,
        "application/x-gzip",
    ) {
        Some("tar.gz")
    } else if is(ct, "application/x-pkg") || is(ct, "application/vnd.apple.installer+xml") {
        Some("pkg")
    } else {
        None
    }
}

/// What follows the second quote, or all of it where there are not two.
pub open spec fn after_charset(v: Seq<char>) -> Seq<char> {
    if !v.contains('\'') {
        v
    } else {
        let rest = v.skip(v.index_of_first('\'')->0 + 1);
        if !rest.contains('\'') {
            v
        } else {
            rest.skip(rest.index_of_first('\'')->0 + 1)
        }
    }
}

/// The file name that a part of a disposition gives.
pub open spec fn disposition_file(raw: Seq<char>) -> Option<Seq<char>> {
    let part = text::trim(raw);
    match text::strip_prefix(part, "filename*="@) {
        Some(v) => Some(after_charset(v)),
        None => match text::strip_prefix(part, "filename="@) {
            Some(v) => Some(text::trim_end_char(text::trim_start_char(v, '"'), '"')),
            None => None,
        },
    }
}

/// The type that the first telling file name of a disposition's parts tells.
pub open spec fn type_of_disposition(parts: Seq<Seq<char>>) -> Option<Seq<char>>
    decreases parts.len(),
{
    if parts.len() == 0 {
        None
    } else {
        let first = match disposition_file(parts[0]) {
            Some(f) => artifact_type(f),
            None => None,
        };
        match first {
            Some(t) => Some(t),
            None => type_of_disposition(parts.skip(1)),
        }
    }
}

/// Where a character first stands.
fn char_at(s: &[char], c: char) -> (r: Option<usize>)
    ensures
        match r {
            Some(i) => s@.contains(c) && s@.index_of_first(c) == Some(i as int) && i < s@.len(),
            None => !s@.contains(c),
        },
{
    for i in 0..s.len()
        invariant
            forall|j: int| 0 <= j < i ==> s@[j] != c,
    {
        if s[i] == c {
            proof {
                s@.index_of_first_ensures(c);
            }
            return Some(i);
        }
    }
    None
}

fn without_charset(v: &[char]) -> (r: &[char])
    ensures
        r@ == after_charset(v@),
{
    let n: usize = v.len();
    match char_at(v, '\'') {
        Some(i) => {
            let rest = part(v, i + 1, n);
            proof {
                assert(rest@ =~= v@.skip(i + 1));
            }
            let m: usize = rest.len();
            match char_at(rest, '\'') {
                Some(j) => {
                    let tail = part(rest, j + 1, m);
                    proof {
                        assert(tail@ =~= rest@.skip(j + 1));
                    }
                    tail
                },
                None => v,
            }
        },
        None => v,
    }
}

fn file_in_disposition(raw: &[char]) -> (r: Option<&[char]>)
    ensures
        text::opt(r) == disposition_file(raw@),
{
    let p = trimmed(raw);
    match after_prefix(p, "filename*=") {
        Some(v) => Some(without_charset(v)),
        None => match after_prefix(p, "filename=") {
            Some(v) => Some(without_trailing(without_leading(v, '"'), '"')),
            None => None,
        },
    }
}

/// The type that a `Content-Disposition` header tells by its file name.
pub fn detect_artifact_type_from_disposition(disposition: &str) -> (r: Option<&'static str>)
    ensures
        dirs::str_view(r) == type_of_disposition(text::split(disposition@, ';')),
{
    let c = chars_of(disposition);
    let p = pieces(c.as_slice(), ';');
    let ghost s = text::slices(p@);
    proof {
        assert(s.skip(0) =~= s);
    }
    for i in 0..p.len()
        invariant
            s == text::slices(p@),
            s == text::split(disposition@, ';'),
            type_of_disposition(s) == type_of_disposition(s.skip(i as int)),
    {
        proof {
            assert(s.skip(i as int)[0] == p@[i as int]@);
            assert(s.skip(i as int).skip(1) =~= s.skip(i + 1));
        }
        match file_in_disposition(p[i]) {
            Some(f) => match type_of_path(f) {
                Some(t) => {
                    return Some(t);
                },
                None => {},
            },
            None => {},
        }
    }
    None
}

// ---------------------------------------------------------------------------
// Laws

/// The version of a cask is the first directory below it that is not hidden, with the time
/// of its last change; where there is none, neither is known.
pub proof fn versions_are_directories(
    before: Seq<VersionEntryView>,
    e: VersionEntryView,
    after: Seq<VersionEntryView>,
)
    requires
        forall|i: int|
            0 <= i < before.len() ==> !(#[trigger] before[i]).is_dir || text::starts_with(
                before[i].name,
                "."@,
            ),
        e.is_dir,
        !text::starts_with(e.name, "."@),
    ensures
        version_in(before + seq![e] + after).0 == e.name,
        version_in(before + seq![e] + after).1 == match e.modified {
            Some(t) => t,
            None => 0,
        },
        version_in(before) == ("unknown"@, 0int),
    decreases before.len(),
{
    let all = before + seq![e] + after;
    if before.len() == 0 {
        assert(all[0] == e);
    } else {
        let t = before.skip(1);
        assert forall|i: int| 0 <= i < t.len() implies !(#[trigger] t[i]).is_dir
            || text::starts_with(t[i].name, "."@) by {
            assert(t[i] == before[i + 1]);
        }
        versions_are_directories(t, e, after);
        assert(all[0] == before[0]);
        assert(all.skip(1) =~= t + seq![e] + after);
    }
}

/// A cask that is found without a record is recorded under its name, with its version and
/// nothing else known of it; what is hidden, or no directory, is not.
pub proof fn found_casks_are_recorded(
    m: Map<Seq<char>, InstalledCaskView>,
    found: Seq<CaskroomEntryView>,
    e: CaskroomEntryView,
)
    ensures
        ({
            let before = with_found(m, found);
            let now = with_found(m, found.push(e));
            &&& e.is_dir && !text::starts_with(e.name, "."@) && !before.contains_key(e.name) ==> now
                == before.insert(
                e.name,
                InstalledCaskView {
                    name: e.name,
                    version: version_in(e.versions).0,
                    install_date: version_in(e.versions).1,
                    artifact_type: None,
                    binary_paths: None,
                    app_name: None,
                },
            )
            &&& !e.is_dir || text::starts_with(e.name, "."@) || before.contains_key(e.name) ==> now
                == before
        }),
{
    assert(found.push(e).drop_last() =~= found);
}

/// The file of an address is its last part, without what is asked of it.
pub proof fn files_are_last_in_addresses(base: Seq<char>, file: Seq<char>, asked: Seq<char>)
    requires
        !base.contains('?'),
        !file.contains('?'),
        !file.contains('/'),
    ensures
        url_file(base.push('/') + file) == file,
        url_file((base.push('/') + file).push('?') + asked) == file,
{
    let url = base.push('/') + file;
    assert(!url.contains('?')) by {
        if url.contains('?') {
            let i = choose|i: int| 0 <= i < url.len() && url[i] == '?';
            if i < base.len() {
                assert(base.contains(base[i]));
            } else if i > base.len() {
                assert(file.contains(file[i - base.len() - 1]));
            }
        }
    }
    text::plain_is_one_piece(url, '?');
    text::split_of_both(url, asked, '?');
    text::split_of_both(base, file, '/');
    text::plain_is_one_piece(file, '/');
}

proof fn kinds_differ()
    ensures
        "dmg"@.len() == 3 && "dmg"@[0] == 'd',
        "zip"@.len() == 3 && "zip"@[0] == 'z',
        "tar"@.len() == 3 && "tar"@[0] == 't',
        "tgz"@.len() == 3 && "tgz"@[0] == 't',
        "tbz"@.len() == 3 && "tbz"@[0] == 't',
        "txz"@.len() == 3 && "txz"@[0] == 't',
        "pkg"@.len() == 3 && "pkg"@[0] == 'p',
        "tar.gz"@.len() == 6 && "tar.xz"@.len() == 6 && "tar.bz2"@.len() == 7,
        "tar.gz"@[0] == 't' && "tar.xz"@[0] == 't' && "tar.bz2"@[0] == 't',
{
    reveal_strlit("dmg");
    reveal_strlit("zip");
    reveal_strlit("tar");
    reveal_strlit("tgz");
    reveal_strlit("tbz");
    reveal_strlit("txz");
    reveal_strlit("pkg");
    reveal_strlit("tar.gz");
    reveal_strlit("tar.xz");
    reveal_strlit("tar.bz2");
}

/// A disk image is attached, a zip archive and a tar archive are unpacked, and anything
/// else is copied under the name that its address gives it.
pub proof fn downloads_are_staged_by_kind(kind: Seq<char>, url: Seq<char>, root: Seq<char>)
    ensures
        kind == "dmg"@ ==> staging_of(kind, url, root) == (StagingView::Attach {
            mount_point: paths::path_join(root, "mount"@),
        }),
        kind == "zip"@ ==> staging_of(kind, url, root) == StagingView::Unzip,
        kind == "tar.gz"@ || kind == "tar"@ || kind == "tgz"@ || kind == "tar.bz2"@ || kind
            == "tbz"@ || kind == "tar.xz"@ || kind == "txz"@ ==> staging_of(kind, url, root)
            == StagingView::Untar,
        kind != "dmg"@ && kind != "zip"@ && kind != "tar.gz"@ && kind != "tar"@ && kind != "tgz"@
            && kind != "tar.bz2"@ && kind != "tbz"@ && kind != "tar.xz"@ && kind != "txz"@ ==> (
        staging_of(kind, url, root) matches StagingView::Copy { dest } && dest == paths::path_join(
            root,
            match outside::percent_decoded(url_file(url)) {
                Some(d) => d,
                None => url_file(url),
            },
        )),
{
    kinds_differ();
}

/// A step that failed is told as what it was.
pub proof fn failures_are_told_as_what_they_were(at: Seq<char>, r: Result<()>, success: bool, m: Seq<char>)
    ensures
        staging_failure(StagingView::Attach { mount_point: at }) == "Failed to mount DMG: "@,
        staging_failure(StagingView::Unzip) == "Failed to extract ZIP: "@,
        staging_failure(StagingView::Untar) == "Failed to extract tarball: "@,
        failed_with(r, success, m) && success ==> r is Ok,
        failed_with(r, success, m) && !success ==> (r matches Err(WaxError::InstallError(e)) && e@
            == m),
{
}

/// A source is found below the staged files; the variables in it stand for the prefix and
/// for these files, and one that holds none is taken as it is.
pub proof fn sources_are_below_the_staged_files(root: Seq<char>, prefix: Seq<char>, source: Seq<char>)
    requires
        !text::contains(source, "$HOMEBREW_PREFIX"@),
        !text::contains(source, "#{HOMEBREW_PREFIX}"@),
        !text::contains(source, "$APPDIR"@),
    ensures
        filled(source, prefix, root) == source,
        !paths::climbs(paths::path_join(root, source)) ==> source_path(root, prefix, source)
            == paths::path_join(root, source),
        paths::climbs(paths::path_join(root, source)) ==> source_path(root, prefix, source)
            == paths::path_join(
            root,
            match paths::file_name(source) {
                Some(n) => n,
                None => "unknown"@,
            },
        ),
{
    text::replacing_nothing(source, "$HOMEBREW_PREFIX"@, prefix);
    text::replacing_nothing(source, "#{HOMEBREW_PREFIX}"@, prefix);
    text::replacing_nothing(source, "$APPDIR"@, root);
}

/// The variable of a source stands for the directory that it names.
pub proof fn variables_are_filled_in(rest: Seq<char>, prefix: Seq<char>, root: Seq<char>)
    requires
        !text::contains(rest, "$HOMEBREW_PREFIX"@),
        !text::contains(rest, "#{HOMEBREW_PREFIX}"@),
        !text::contains(rest, "$APPDIR"@),
        !text::contains(prefix + rest, "#{HOMEBREW_PREFIX}"@),
        !text::contains(prefix + rest, "$APPDIR"@),
        !text::contains("$APPDIR"@ + rest, "$HOMEBREW_PREFIX"@),
        !text::contains("$APPDIR"@ + rest, "#{HOMEBREW_PREFIX}"@),
    ensures
        filled("$HOMEBREW_PREFIX"@ + rest, prefix, root) == prefix + rest,
        filled("$APPDIR"@ + rest, prefix, root) == root + rest,
{
    let none = Seq::<char>::empty();
    let p = "$HOMEBREW_PREFIX"@;
    let d = "$APPDIR"@;
    reveal_strlit("$HOMEBREW_PREFIX");
    reveal_strlit("$APPDIR");
    assert(none + p + rest =~= p + rest);
    assert((none + p + rest).subrange(0, p.len() as int) =~= p);
    assert(text::first_at(none + p + rest, p, 0));
    text::replacing_the_first(none, p, rest, prefix);
    text::replacing_nothing(rest, p, prefix);
    assert(none + prefix + rest =~= prefix + rest);
    text::replacing_nothing(prefix + rest, "#{HOMEBREW_PREFIX}"@, prefix);
    text::replacing_nothing(prefix + rest, d, root);
    text::replacing_nothing(d + rest, p, prefix);
    text::replacing_nothing(d + rest, "#{HOMEBREW_PREFIX}"@, prefix);
    assert(none + d + rest =~= d + rest);
    assert((none + d + rest).subrange(0, d.len() as int) =~= d);
    assert(text::first_at(none + d + rest, d, 0));
    text::replacing_the_first(none, d, rest, root);
    text::replacing_nothing(rest, d, root);
    assert(none + root + rest =~= root + rest);
}

/// On macOS a thing is installed, or what stands in the way is told; elsewhere it is not
/// supported.
pub proof fn casks_are_for_macos(r: Result<String>, os: Seq<char>, rest: bool)
    requires
        on_macos(r, os, rest),
    ensures
        os == "macos"@ ==> rest,
        os != "macos"@ ==> (r matches Err(WaxError::PlatformNotSupported(m)) && m@
            == "Cask installation is only supported on macOS. Use formulae for Linux packages."@),
{
}

/// A thing is installed under its file's name; one without a name is refused.
pub proof fn things_are_installed_under_their_name(
    r: Result<String>,
    source: Seq<char>,
    what: Seq<char>,
    dest: spec_fn(Seq<char>) -> Seq<char>,
)
    requires
        named(r, source, what, dest),
    ensures
        r is Ok <==> paths::file_name(source) is Some,
        r matches Ok(p) ==> p@ == dest(paths::file_name(source)->0),
        r matches Err(e) ==> (e matches WaxError::InstallError(m) && m@ == what + source),
{
}

/// Each shell that is known has a directory of its own for completions, named for it.
pub proof fn shells_have_directories(shell: Seq<char>)
    ensures
        completion_dir("bash"@) == Some("etc/bash_completion.d"@),
        completion_dir("zsh"@) == Some("share/zsh/site-functions"@),
        completion_dir("fish"@) == Some("share/fish/vendor_completions.d"@),
        shell != "bash"@ && shell != "zsh"@ && shell != "fish"@ ==> completion_dir(shell) is None,
{
    reveal_strlit("bash");
    reveal_strlit("zsh");
    reveal_strlit("fish");
    assert("bash"@[0] == 'b' && "zsh"@[0] == 'z' && "fish"@[0] == 'f');
}

/// The first answer counts, and the second only where there is none.
pub proof fn first_answer_counts(a: Seq<char>, b: Option<Seq<char>>)
    ensures
        or_else(Some(a), b) == Some(a),
        or_else(None, b) == b,
{
}

/// The ending of a name stands behind its last dot; a name without a dot has none, and
/// neither has one that only begins with one.
pub proof fn endings_stand_behind_the_last_dot(base: Seq<char>, ext: Seq<char>)
    requires
        !ext.contains('.'),
    ensures
        base.len() > 0 ==> extension(base.push('.') + ext) == Some(ext),
        base.len() == 0 ==> extension(base.push('.') + ext) is None,
        extension(ext) is None,
{
    broadcast use text::split_has_a_piece;

    text::split_of_both(base, ext, '.');
    text::plain_is_one_piece(ext, '.');
    if base.len() == 0 {
        assert(text::split(base, '.') =~= seq![Seq::<char>::empty()]);
    } else if text::split(base, '.').len() == 1 {
        split_keeps_all(base, '.');
    }
}

/// A text that is split into one piece is that piece.
proof fn split_keeps_all(s: Seq<char>, c: char)
    requires
        text::split(s, c).len() == 1,
    ensures
        text::split(s, c)[0] == s,
    decreases s.len(),
{
    broadcast use text::split_has_a_piece;

    if s.len() > 0 {
        if s.last() != c {
            split_keeps_all(s.drop_last(), c);
            assert(s.drop_last().push(s.last()) =~= s);
        }
    } else {
        assert(s =~= Seq::<char>::empty());
    }
}

/// What an address ends in, without what is asked of it and the place in it.
pub open spec fn plain_address(url: Seq<char>) -> bool {
    !url.contains('?') && !url.contains('#')
}

proof fn address_is_its_path(url: Seq<char>)
    requires
        plain_address(url),
    ensures
        text::split(text::split(url, '?')[0], '#')[0] == url,
{
    text::plain_is_one_piece(url, '?');
    text::plain_is_one_piece(url, '#');
}

/// The ending of an address tells what is downloaded, and so it does with something asked
/// of it or a place in it behind.
pub proof fn endings_tell_kinds(url: Seq<char>, more: Seq<char>)
    requires
        plain_address(url),
    ensures
        text::ends_with(url, ".dmg"@) ==> artifact_type(url) == Some("dmg"@),
        text::ends_with(url, ".pkg"@) ==> artifact_type(url) == Some("pkg"@),
        text::ends_with(url, ".zip"@) ==> artifact_type(url) == Some("zip"@),
        text::ends_with(url, ".tar.gz"@) || text::ends_with(url, ".tgz"@) || text::ends_with(
            url,
            ".tar.bz2"@,
        ) || text::ends_with(url, ".tbz"@) || text::ends_with(url, ".tar.xz"@) || text::ends_with(
            url,
            ".txz"@,
        ) ==> artifact_type(url) == Some("tar.gz"@),
        !text::ends_with(url, ".dmg"@) && !text::ends_with(url, ".pkg"@) && !text::ends_with(
            url,
            ".zip"@,
        ) && !text::ends_with(url, ".tar.gz"@) && !text::ends_with(url, ".tgz"@)
            && !text::ends_with(url, ".tar.bz2"@) && !text::ends_with(url, ".tbz"@)
            && !text::ends_with(url, ".tar.xz"@) && !text::ends_with(url, ".txz"@) ==> artifact_type(
            url,
        ) is None,
        artifact_type(url.push('?') + more) == artifact_type(url),
        !more.contains('?') ==> artifact_type(url.push('#') + more) == artifact_type(url),
{
    address_is_its_path(url);
    endings_exclude_each_other(url);
    text::split_of_both(url, more, '?');
    text::plain_is_one_piece(url, '?');
    text::plain_is_one_piece(url, '#');
    assert(text::split(url.push('?') + more, '?')[0] == url);
    if !more.contains('?') {
        let u = url.push('#') + more;
        assert(!u.contains('?')) by {
            if u.contains('?') {
                let i = choose|i: int| 0 <= i < u.len() && u[i] == '?';
                if i < url.len() {
                    assert(url.contains(url[i]));
                } else if i > url.len() {
                    assert(more.contains(more[i - url.len() - 1]));
                }
            }
        }
        text::plain_is_one_piece(u, '?');
        text::split_of_both(url, more, '#');
        assert(text::split(u, '#')[0] == url);
    }
}

proof fn endings_exclude_each_other(url: Seq<char>)
    ensures
        text::ends_with(url, ".pkg"@) ==> !text::ends_with(url, ".dmg"@),
        text::ends_with(url, ".zip"@) ==> !text::ends_with(url, ".dmg"@) && !text::ends_with(
            url,
            ".pkg"@,
        ),
        text::ends_with(url, ".tar.gz"@) || text::ends_with(url, ".tgz"@) || text::ends_with(
            url,
            ".tar.bz2"@,
        ) || text::ends_with(url, ".tbz"@) || text::ends_with(url, ".tar.xz"@) || text::ends_with(
            url,
            ".txz"@,
        ) ==> !text::ends_with(url, ".dmg"@) && !text::ends_with(url, ".pkg"@) && !text::ends_with(
            url,
            ".zip"@,
        ),
{
    reveal_strlit(".dmg");
    reveal_strlit(".pkg");
    reveal_strlit(".zip");
    reveal_strlit(".tar.gz");
    reveal_strlit(".tgz");
    reveal_strlit(".tar.bz2");
    reveal_strlit(".tbz");
    reveal_strlit(".tar.xz");
    reveal_strlit(".txz");
    ends_in(url, ".dmg"@);
    ends_in(url, ".pkg"@);
    ends_in(url, ".zip"@);
    ends_in(url, ".tar.gz"@);
    ends_in(url, ".tgz"@);
    ends_in(url, ".tar.bz2"@);
    ends_in(url, ".tbz"@);
    ends_in(url, ".tar.xz"@);
    ends_in(url, ".txz"@);
}

proof fn ends_in(s: Seq<char>, e: Seq<char>)
    requires
        e.len() >= 2,
    ensures
        text::ends_with(s, e) ==> s.len() >= 2 && s[s.len() - 1] == e[e.len() - 1] && s[s.len() - 2]
            == e[e.len() - 2],
{
    if text::ends_with(s, e) {
        let t = s.subrange(s.len() - e.len(), s.len() as int);
        assert(t[e.len() - 1] == s[s.len() - 1] && t[e.len() - 2] == s[s.len() - 2]);
    }
}

/// What a server says of a download tells its kind, whatever it adds behind a semicolon.
pub proof fn content_types_tell_kinds(ct: Seq<char>, more: Seq<char>)
    requires
        !ct.contains(';'),
        text::trim(ct) == ct,
    ensures
        type_of_content(ct.push(';') + more) == type_of_content(ct),
        ct == "application/x-apple-diskimage"@ ==> type_of_content(ct) == Some("dmg"@),
        ct == "application/zip"@ || ct == "application/x-zip-compressed"@ ==> type_of_content(ct)
            == Some("zip"@),
        ct == "application/x-tar"@ || ct == "application/gzip"@ || ct == "application/x-gzip"@
            ==> type_of_content(ct) == Some("tar.gz"@),
        ct == "application/x-pkg"@ || ct == "application/vnd.apple.installer+xml"@
            ==> type_of_content(ct) == Some("pkg"@),
        ct == "application/octet-stream"@ ==> type_of_content(ct) == Some("binary"@),
{
    text::split_of_both(ct, more, ';');
    text::plain_is_one_piece(ct, ';');
    reveal_strlit("application/x-apple-diskimage");
    reveal_strlit("application/zip");
    reveal_strlit("application/x-zip-compressed");
    reveal_strlit("application/x-tar");
    reveal_strlit("application/gzip");
    reveal_strlit("application/x-gzip");
    reveal_strlit("application/x-pkg");
    reveal_strlit("application/vnd.apple.installer+xml");
    reveal_strlit("application/octet-stream");
    assert("application/x-apple-diskimage"@.len() == 29 && "application/zip"@.len() == 15);
    assert("application/x-zip-compressed"@.len() == 28 && "application/x-tar"@.len() == 17);
    assert("application/gzip"@.len() == 16 && "application/x-gzip"@.len() == 18);
    assert("application/x-pkg"@.len() == 17 && "application/octet-stream"@.len() == 24);
    assert("application/vnd.apple.installer+xml"@.len() == 35);
    assert("application/x-tar"@[14] == 't' && "application/x-pkg"@[14] == 'p');
}

/// A header that names a file gives that name without its quotes, or, in the extended form,
/// without the character set and the language before it.
pub proof fn headers_name_files(name: Seq<char>, charset: Seq<char>, language: Seq<char>, part: Seq<char>)
    requires
        name.len() > 0,
        name[0] != '"',
        name.last() != '"',
        !name.contains('\''),
        !text::is_space(name.last()),
        !charset.contains('\''),
        !language.contains('\''),
    ensures
        disposition_file("filename="@ + (seq!['"'] + name + seq!['"'])) == Some(name),
        disposition_file("filename="@ + name) == Some(name),
        disposition_file("filename*="@ + (charset.push('\'') + language.push('\'') + name)) == Some(
            name,
        ),
        !text::starts_with(text::trim(part), "filename="@) && !text::starts_with(
            text::trim(part),
            "filename*="@,
        ) ==> disposition_file(part) is None,
{
    let none = Seq::<char>::empty();
    let f = "filename="@;
    let g = "filename*="@;
    reveal_strlit("filename=");
    reveal_strlit("filename*=");
    text::seen_characters_are_no_space('f');
    text::seen_characters_are_no_space('"');
    // In quotes, and without.
    let q = seq!['"'] + name + seq!['"'];
    let a = f + q;
    assert(a[0] == 'f' && a.last() == '"');
    text::trimming_keeps_the_middle(none, a, none);
    let b = f + name;
    assert(b[0] == 'f' && b.last() == name.last());
    text::trimming_keeps_the_middle(none, b, none);
    assert(!text::starts_with(a, g)) by {
        if text::starts_with(a, g) {
            assert(a.subrange(0, 10)[8] == a[8]);
        }
    }
    assert(!text::starts_with(b, g)) by {
        if text::starts_with(b, g) {
            assert(b.subrange(0, 10)[8] == b[8]);
        }
    }
    text::stripping_undoes_prefixing(f, q);
    text::stripping_undoes_prefixing(f, name);
    let inner = name + seq!['"'];
    assert(q.skip(1) =~= inner);
    assert(inner[0] == name[0]);
    assert(text::trim_start_char(inner, '"') == inner);
    assert(text::trim_start_char(q, '"') == inner);
    assert(inner.drop_last() =~= name);
    assert(text::trim_end_char(name, '"') == name);
    assert(text::trim_end_char(inner, '"') == name);
    assert(text::trim_start_char(name, '"') == name);
    // The extended form.
    let v = charset.push('\'') + language.push('\'') + name;
    let c = g + v;
    assert(c[0] == 'f' && c.last() == name.last());
    text::trimming_keeps_the_middle(none, c, none);
    text::stripping_undoes_prefixing(g, v);
    charset_is_dropped(charset, language, name);
}

proof fn charset_is_dropped(charset: Seq<char>, language: Seq<char>, name: Seq<char>)
    requires
        !charset.contains('\''),
        !language.contains('\''),
    ensures
        after_charset(charset.push('\'') + language.push('\'') + name) == name,
        !name.contains('\'') ==> after_charset(name) == name,
{
    let v = charset.push('\'') + language.push('\'') + name;
    let n = charset.len() as int;
    assert(v[n] == '\'');
    assert(v.contains('\''));
    first_quote(v, n);
    let rest = v.skip(n + 1);
    assert(rest =~= language.push('\'') + name);
    let m = language.len() as int;
    assert(rest[m] == '\'');
    first_quote(rest, m);
    assert(rest.skip(m + 1) =~= name);
}

proof fn first_quote(v: Seq<char>, n: int)
    requires
        0 <= n < v.len(),
        v[n] == '\'',
        !v.take(n).contains('\''),
    ensures
        v.index_of_first('\'') == Some(n),
{
    assert(v.contains(v[n]));
    v.index_of_first_ensures('\'');
    let k = v.index_of_first('\'')->0;
    if k < n {
        assert(v.take(n)[k] == '\'');
    } else if n < k {
        assert(v.take(k)[n] == '\'');
    }
}

/// The first part of a header that names a file of a kind that is known tells the kind.
pub proof fn first_named_file_counts(parts: Seq<Seq<char>>, part: Seq<char>, name: Seq<char>)
    ensures
        disposition_file(part) is None ==> type_of_disposition(seq![part] + parts)
            == type_of_disposition(parts),
        disposition_file(part) == Some(name) && artifact_type(name) is Some ==> type_of_disposition(
            seq![part] + parts,
        ) == artifact_type(name),
        disposition_file(part) == Some(name) && artifact_type(name) is None ==> type_of_disposition(
            seq![part] + parts,
        ) == type_of_disposition(parts),
        type_of_disposition(Seq::empty()) is None,
{
    assert((seq![part] + parts).skip(1) =~= parts);
}

/// A refusal on another system says that casks are for macOS.
pub proof fn other_systems_are_told_why()
    ensures
        not_macos()
            == "Cask installation is only supported on macOS. Use formulae for Linux packages."@,
{
}

}
