//! Where formulae are installed, what is recorded of them, and how they are
//! linked into the prefix.
use crate::{paths, table, text};
use crate::error::{Result, WaxError};
use crate::paths::{below, path_in};
use crate::table::Table;
use crate::text::same_str;
use crate::ui::{Standing, dirs};
use crate::ui::dirs::home_dir;
use vstd::prelude::*;

verus! {

#[derive(Debug, Clone, Copy, PartialEq, Eq, Structural)]
pub enum InstallMode {
    User,
    Global,
}

/// Where a mode installs to: Homebrew's prefix, or a place in the home directory.
pub open spec fn prefix_of(mode: InstallMode, home: Option<Seq<char>>, homebrew: Seq<char>) -> Option<
    Seq<char>,
> {
    match mode {
        InstallMode::User => match home {
            Some(h) => Some(paths::path_join(paths::path_join(h, ".local"@), "wax"@)),
            None => None,
        },
        InstallMode::Global => Some(homebrew),
    }
}

/// The mode that the flags ask for; they cannot ask for both.
pub open spec fn asked_mode(user: bool, global: bool) -> Option<Option<InstallMode>> {
    if user && global {
        None
    } else if user {
        Some(Some(InstallMode::User))
    } else if global {
        Some(Some(InstallMode::Global))
    } else {
        Some(None)
    }
}

/// The flags that ask for a mode.
pub open spec fn mode_flags(mode: Option<InstallMode>) -> (bool, bool) {
    (mode == Some(InstallMode::User), mode == Some(InstallMode::Global))
}

/// The flags of a mode ask for that mode.
pub proof fn flags_ask_for_their_mode(mode: Option<InstallMode>)
    ensures
        asked_mode(mode_flags(mode).0, mode_flags(mode).1) == Some(mode),
{
    match mode {
        Some(InstallMode::User) => {},
        Some(InstallMode::Global) => {},
        None => {},
    }
}

impl InstallMode {
    /// Global where Homebrew's prefix, or its directory of packages, is there and
    /// can be written to.
    pub fn detect(prefix_exists: bool, cellar_exists: bool, prefix_writable: bool) -> (r: Self)
        ensures
            r == if (cellar_exists || prefix_exists) && prefix_writable {
                InstallMode::Global
            } else {
                InstallMode::User
            },
    {
        if (cellar_exists || prefix_exists) && prefix_writable {
            InstallMode::Global
        } else {
            InstallMode::User
        }
    }

    /// The mode that the flags ask for, if they ask for one.
    pub fn from_flags(user: bool, global: bool) -> (r: Result<Option<Self>>)
        ensures
            match asked_mode(user, global) {
                Some(mode) => r == Ok::<Option<InstallMode>, WaxError>(mode),
                None => r matches Err(WaxError::InstallError(m)) && m@
                    == "Cannot specify both --user and --global"@,
            },
    {
        match (user, global) {
            (true, true) => Err(
                WaxError::InstallError(String::from_str("Cannot specify both --user and --global")),
            ),
            (true, false) => Ok(Some(InstallMode::User)),
            (false, true) => Ok(Some(InstallMode::Global)),
            (false, false) => Ok(None),
        }
    }

    /// The flags that ask for a mode.
    pub fn flags(mode: Option<InstallMode>) -> (r: (bool, bool))
        ensures
            r == mode_flags(mode),
    {
        match mode {
            Some(InstallMode::User) => (true, false),
            Some(InstallMode::Global) => (false, true),
            None => (false, false),
        }
    }

    /// Refuses a global installation into a prefix that cannot be written to.
    pub fn validate(&self, prefix: &str, prefix_writable: bool) -> (r: Result<()>)
        ensures
            if *self == InstallMode::Global && !prefix_writable {
                r matches Err(WaxError::InstallError(m)) && m@ == "Cannot write to "@ + prefix@
                    + ". This usually means:\n  - You don't have permission (try: sudo wax install or wax install --user)\n  - The directory doesn't exist (Homebrew may not be installed)\n\n  For per-user installation: wax install --user"@
            } else {
                r is Ok
            },
    {
        if *self == InstallMode::Global {
            if !prefix_writable {
                let mut m = String::from_str("Cannot write to ");
                m.append(prefix);
                m.append(
                    ". This usually means:\n  - You don't have permission (try: sudo wax install or wax install --user)\n  - The directory doesn't exist (Homebrew may not be installed)\n\n  For per-user installation: wax install --user",
                );
                return Err(WaxError::InstallError(m));
            }
        }
        Ok(())
    }

    pub fn prefix(&self, home: Option<&str>, homebrew: &str) -> (r: Result<String>)
        ensures
            match prefix_of(*self, dirs::str_view(home), homebrew@) {
                Some(p) => r matches Ok(s) && s@ == p,
                None => r matches Err(WaxError::InstallError(m)) && m@ == dirs::no_home(),
            },
    {
        match self {
            InstallMode::User => match home_dir(home) {
                Ok(h) => Ok(below(below(h.as_str(), ".local").as_str(), "wax")),
                Err(e) => Err(e),
            },
            InstallMode::Global => Ok(String::from_str(homebrew)),
        }
    }

    /// Where the packages of a mode lie.
    pub fn cellar_path(&self, home: Option<&str>, homebrew: &str) -> (r: Result<String>)
        ensures
            match prefix_of(*self, dirs::str_view(home), homebrew@) {
                Some(p) => r matches Ok(s) && s@ == paths::path_join(p, "Cellar"@),
                None => r matches Err(WaxError::InstallError(m)) && m@ == dirs::no_home(),
            },
    {
        match self.prefix(home, homebrew) {
            Ok(p) => Ok(below(p.as_str(), "Cellar")),
            Err(e) => Err(e),
        }
    }
}

pub fn default_install_mode() -> (r: InstallMode)
    ensures
        r == InstallMode::Global,
{
    InstallMode::Global
}

#[derive(Debug)]
pub struct InstalledPackage {
    pub name: String,
    pub version: String,
    pub platform: String,
    pub install_date: i64,
    pub install_mode: InstallMode,
    pub from_source: bool,
    pub bottle_rebuild: u32,
    pub bottle_sha256: Option<String>,
    pub pinned: bool,
}

/// The mathematical content of an `InstalledPackage`.
pub struct InstalledView {
    pub name: Seq<char>,
    pub version: Seq<char>,
    pub platform: Seq<char>,
    pub install_date: int,
    pub install_mode: InstallMode,
    pub from_source: bool,
    pub bottle_rebuild: nat,
    pub bottle_sha256: Option<Seq<char>>,
    pub pinned: bool,
}

impl View for InstalledPackage {
    type V = InstalledView;

    open spec fn view(&self) -> InstalledView {
        InstalledView {
            name: self.name@,
            version: self.version@,
            platform: self.platform@,
            install_date: self.install_date as int,
            install_mode: self.install_mode,
            from_source: self.from_source,
            bottle_rebuild: self.bottle_rebuild as nat,
            bottle_sha256: text::opt_view(self.bottle_sha256),
            pinned: self.pinned,
        }
    }
}

/// An `InstalledPackage` is seen as what it holds.
pub proof fn installed_package_is_seen_as_it_is(x: InstalledPackage)
    ensures
        x@.name == x.name@,
        x@.version == x.version@,
        x@.platform == x.platform@,
        x@.install_date == x.install_date as int,
        x@.install_mode == x.install_mode,
        x@.from_source == x.from_source,
        x@.bottle_rebuild == x.bottle_rebuild as nat,
        x@.bottle_sha256 == text::opt_view(x.bottle_sha256),
        x@.pinned == x.pinned,
{
}

impl InstalledPackage {
    /// A copy of the record.
    pub fn duplicate(&self) -> (r: Self)
        ensures
            r@ == self@,
    {
        InstalledPackage {
            name: self.name.clone(),
            version: self.version.clone(),
            platform: self.platform.clone(),
            install_date: self.install_date,
            install_mode: self.install_mode,
            from_source: self.from_source,
            bottle_rebuild: self.bottle_rebuild,
            bottle_sha256: self.bottle_sha256.clone(),
            pinned: self.pinned,
        }
    }
}

/// The record of installed packages.
pub struct InstallState {
    pub state_path: String,
}

impl InstallState {
    /// The record lies in the user's data directory or, where there is none, in
    /// wax's own.
    pub fn new(data_local_dir: Option<&str>, home: Option<&str>) -> (r: Result<Self>)
        ensures
            match dirs::str_view(data_local_dir) {
                Some(d) => r matches Ok(s) && s.state_path@ == paths::path_join(
                    paths::path_join(d, "wax"@),
                    "installed.json"@,
                ),
                None => match dirs::str_view(home) {
                    Some(h) => r matches Ok(s) && s.state_path@ == paths::path_join(
                        paths::path_join(h, ".wax"@),
                        "installed.json"@,
                    ),
                    None => r matches Err(WaxError::InstallError(m)) && m@ == dirs::no_home(),
                },
            },
    {
        match data_local_dir {
            Some(d) => Ok(
                InstallState { state_path: below(below(d, "wax").as_str(), "installed.json") },
            ),
            None => match home_dir(home) {
                Ok(h) => Ok(
                    InstallState {
                        state_path: below(below(h.as_str(), ".wax").as_str(), "installed.json"),
                    },
                ),
                Err(e) => Err(e),
            },
        }
    }

    /// Records a package under its name, in place of what was recorded there.
    pub fn add(packages: &mut Table<InstalledPackage>, package: InstalledPackage)
        requires
            old(packages).wf(),
        ensures
            final(packages).wf(),
            table::contents(*final(packages)) == table::contents(*old(packages)).insert(package@.name, package@),
    {
        let ghost before = table::contents(*packages);
        let ghost shown = package@;
        let name = package.name.clone();
        packages.insert(name, package);
        proof {
            assert(table::contents(*packages) =~= before.insert(shown.name, shown));
        }
    }

    pub fn remove(packages: &mut Table<InstalledPackage>, name: &str)
        requires
            old(packages).wf(),
        ensures
            final(packages).wf(),
            table::contents(*final(packages)) == table::contents(*old(packages)).remove(name@),
    {
        let ghost before = table::contents(*packages);
        let _gone = packages.remove(name);
        proof {
            assert(table::contents(*packages) =~= before.remove(name@));
        }
    }

    /// Pins or unpins a package, and tells whether there was one.
    pub fn set_pinned(packages: &mut Table<InstalledPackage>, name: &str, pinned: bool) -> (r: bool)
        requires
            old(packages).wf(),
        ensures
            final(packages).wf(),
            r == table::contents(*old(packages)).contains_key(name@),
            table::contents(*final(packages)) == with_pin(table::contents(*old(packages)), name@, pinned),
    {
        let ghost before = table::contents(*packages);
        match packages.remove(name) {
            Some(p) => {
                let mut q = p;
                q.pinned = pinned;
                packages.insert(String::from_str(name), q);
                proof {
                    assert(table::contents(*packages) =~= with_pin(before, name@, pinned));
                }
                true
            },
            None => {
                proof {
                    assert(table::contents(*packages) =~= before);
                }
                false
            },
        }
    }

    /// The mode of packages that lie in `cellar`.
    pub fn detect_install_mode(cellar: &str) -> (r: InstallMode)
        ensures
            r == mode_of_cellar(cellar@),
    {
        if path_in(cellar, "/opt/homebrew") || path_in(cellar, "/usr/local") {
            InstallMode::Global
        } else {
            InstallMode::User
        }
    }

    /// The prefixes that are searched for packages, in this order; the first that
    /// has some counts.
    pub fn cellar_candidates(os: &str, arch: &str) -> (r: Vec<String>)
        ensures
            text::views(r@) == candidates(os@, arch@),
    {
        let mut v: Vec<String> = Vec::new();
        if same_str(os, "macos") {
            if same_str(arch, "aarch64") {
                v.push(String::from_str("/opt/homebrew"));
                v.push(String::from_str("/usr/local"));
            } else {
                v.push(String::from_str("/usr/local"));
                v.push(String::from_str("/opt/homebrew"));
            }
        } else if same_str(os, "linux") {
            v.push(String::from_str("/home/linuxbrew/.linuxbrew"));
            v.push(String::from_str("/usr/local"));
        } else {
            v.push(String::from_str("/usr/local"));
        }
        proof {
            assert(text::views(v@) =~= candidates(os@, arch@));
        }
        v
    }

    /// Brings the record in line with the packages found in `cellar`, each given
    /// with its latest version.
    pub fn scan_cellar_and_update(
        packages: &mut Table<InstalledPackage>,
        found: &Vec<(String, String)>,
        cellar: &str,
        os: &str,
        arch: &str,
    )
        requires
            old(packages).wf(),
        ensures
            final(packages).wf(),
            table::contents(*final(packages)) == scanned(
                table::contents(*old(packages)),
                found_views(found@),
                cellar@,
                os@ + "-"@ + arch@,
            ),
    {
        let ghost before = table::contents(*packages);
        let ghost f = found_views(found@);
        let mut platform = String::from_str(os);
        platform.append("-");
        platform.append(arch);
        for i in 0..found.len()
            invariant
                f == found_views(found@),
                packages.wf(),
                platform@ == os@ + "-"@ + arch@,
                table::contents(*packages) == scanned(before, f.take(i as int), cellar@, platform@),
        {
            let ghost so_far = table::contents(*packages);
            proof {
                assert(f.take(i + 1).drop_last() =~= f.take(i as int));
                assert(f.take(i + 1).last() == (found@[i as int].0@, found@[i as int].1@));
            }
            let name = &found[i].0;
            match packages.remove(name.as_str()) {
                Some(p) => {
                    let mut q = p;
                    q.version = found[i].1.clone();
                    let ghost shown = q@;
                    packages.insert(name.clone(), q);
                    proof {
                        assert(table::contents(*packages) =~= so_far.insert(name@, shown));
                    }
                },
                None => {
                    let q = InstalledPackage {
                        name: name.clone(),
                        version: found[i].1.clone(),
                        platform: platform.clone(),
                        install_date: 0,
                        install_mode: Self::detect_install_mode(cellar),
                        from_source: false,
                        bottle_rebuild: 0,
                        bottle_sha256: None,
                        pinned: false,
                    };
                    let ghost shown = q@;
                    packages.insert(name.clone(), q);
                    proof {
                        assert(table::contents(*packages) =~= so_far.insert(name@, shown));
                    }
                },
            }
        }
        proof {
            assert(f.take(f.len() as int) =~= f);
        }
    }
}

/// The record with a package pinned or not.
pub open spec fn with_pin(
    m: Map<Seq<char>, InstalledView>,
    name: Seq<char>,
    pinned: bool,
) -> Map<Seq<char>, InstalledView> {
    if m.contains_key(name) {
        m.insert(name, InstalledView { pinned, ..m[name] })
    } else {
        m
    }
}

pub open spec fn mode_of_cellar(cellar: Seq<char>) -> InstallMode {
    if paths::lies_in(cellar, "/opt/homebrew"@) || paths::lies_in(cellar, "/usr/local"@) {
        InstallMode::Global
    } else {
        InstallMode::User
    }
}

pub open spec fn candidates(os: Seq<char>, arch: Seq<char>) -> Seq<Seq<char>> {
    if os == "macos"@ {
        if arch == "aarch64"@ {
            seq!["/opt/homebrew"@, "/usr/local"@]
        } else {
            seq!["/usr/local"@, "/opt/homebrew"@]
        }
    } else if os == "linux"@ {
        seq!["/home/linuxbrew/.linuxbrew"@, "/usr/local"@]
    } else {
        seq!["/usr/local"@]
    }
}

pub open spec fn found_views(v: Seq<(String, String)>) -> Seq<(Seq<char>, Seq<char>)> {
    Seq::new(v.len(), |i: int| (v[i].0@, v[i].1@))
}

/// What is recorded of a package that was found in `cellar` without a record.
pub open spec fn newly_found(
    name: Seq<char>,
    version: Seq<char>,
    cellar: Seq<char>,
    platform: Seq<char>,
) -> InstalledView {
    InstalledView {
        name,
        version,
        platform,
        install_date: 0,
        install_mode: mode_of_cellar(cellar),
        from_source: false,
        bottle_rebuild: 0,
        bottle_sha256: None,
        pinned: false,
    }
}

/// A package with a record gets the version that was found; one without gets a
/// new record.
pub open spec fn scanned(
    m: Map<Seq<char>, InstalledView>,
    found: Seq<(Seq<char>, Seq<char>)>,
    cellar: Seq<char>,
    platform: Seq<char>,
) -> Map<Seq<char>, InstalledView>
    decreases found.len(),
{
    if found.len() == 0 {
        m
    } else {
        let before = scanned(m, found.drop_last(), cellar, platform);
        let (name, version) = found.last();
        before.insert(
            name,
            if before.contains_key(name) {
                InstalledView { version, ..before[name] }
            } else {
                newly_found(name, version, cellar, platform)
            },
        )
    }
}

/// The Cellars that are scanned, in order: the one of Homebrew itself, the first
/// of the usual ones that is there, and the user's own.
pub open spec fn scan_order(
    brew: Option<Seq<char>>,
    usual: Seq<Seq<char>>,
    there: Seq<bool>,
    own: Option<Seq<char>>,
) -> Seq<Seq<char>> {
    (match brew {
        Some(c) => seq![c],
        None => seq![],
    }) + first_there(usual, there) + (match own {
        Some(c) => seq![c],
        None => seq![],
    })
}

/// The Cellar of the first prefix whose Cellar is there.
pub open spec fn first_there(prefixes: Seq<Seq<char>>, there: Seq<bool>) -> Seq<Seq<char>>
    decreases prefixes.len(),
{
    if prefixes.len() == 0 || there.len() == 0 {
        seq![]
    } else if there[0] {
        seq![paths::path_join(prefixes[0], "Cellar"@)]
    } else {
        first_there(prefixes.skip(1), there.skip(1))
    }
}

/// The Cellars that are scanned: `brew` and `own` are given where they are there,
/// `there` says of each of the usual prefixes whether its Cellar is.
pub fn cellars_to_scan(
    brew: Option<String>,
    usual: &Vec<String>,
    there: &Vec<bool>,
    own: Option<String>,
) -> (r: Vec<String>)
    requires
        usual@.len() == there@.len(),
    ensures
        text::views(r@) == scan_order(
            text::opt_view(brew),
            text::views(usual@),
            there@,
            text::opt_view(own),
        ),
{
    let ghost u = text::views(usual@);
    let ghost b = text::opt_view(brew);
    let ghost o = text::opt_view(own);
    let mut out: Vec<String> = Vec::new();
    if let Some(c) = brew {
        out.push(c);
    }
    let ghost head = text::views(out@);
    let mut found: Option<String> = None;
    proof {
        assert(u.skip(0) =~= u);
        assert(there@.skip(0) =~= there@);
    }
    let mut i: usize = 0;
    while i < usual.len() && found.is_none()
        invariant
            i <= usual@.len(),
            usual@.len() == there@.len(),
            u == text::views(usual@),
            match found {
                Some(c) => first_there(u, there@) == seq![c@],
                None => first_there(u, there@) == first_there(
                    u.skip(i as int),
                    there@.skip(i as int),
                ),
            },
        decreases usual@.len() - i,
    {
        proof {
            assert(u.skip(i as int)[0] == usual@[i as int]@);
            assert(there@.skip(i as int)[0] == there@[i as int]);
            assert(u.skip(i as int).skip(1) =~= u.skip(i + 1));
            assert(there@.skip(i as int).skip(1) =~= there@.skip(i + 1));
        }
        if there[i] {
            found = Some(below(usual[i].as_str(), "Cellar"));
        }
        i += 1;
    }
    if let Some(c) = found {
        out.push(c);
    }
    if let Some(c) = own {
        out.push(c);
    }
    proof {
        assert(text::views(out@) =~= scan_order(b, u, there@, o));
    }
    out
}

/// Removing a package undoes adding it, where it was not recorded before; adding it
/// again brings it back.
pub proof fn removing_undoes_adding(m: Map<Seq<char>, InstalledView>, p: InstalledView)
    ensures
        !m.contains_key(p.name) ==> m.insert(p.name, p).remove(p.name) == m,
        m.contains_key(p.name) && m[p.name] == p ==> m.remove(p.name).insert(p.name, p) == m,
{
    if !m.contains_key(p.name) {
        assert(m.insert(p.name, p).remove(p.name) =~= m);
    }
    if m.contains_key(p.name) && m[p.name] == p {
        assert(m.remove(p.name).insert(p.name, p) =~= m);
    }
}

/// A scan forgets no package, and keeps whether it is pinned.
pub proof fn scanning_keeps_packages(
    m: Map<Seq<char>, InstalledView>,
    found: Seq<(Seq<char>, Seq<char>)>,
    cellar: Seq<char>,
    platform: Seq<char>,
    name: Seq<char>,
)
    requires
        m.contains_key(name),
    ensures
        scanned(m, found, cellar, platform).contains_key(name),
        scanned(m, found, cellar, platform)[name].pinned == m[name].pinned,
        scanned(m, found, cellar, platform)[name].install_mode == m[name].install_mode,
    decreases found.len(),
{
    if found.len() > 0 {
        scanning_keeps_packages(m, found.drop_last(), cellar, platform, name);
    }
}

/// A package that was found is recorded with the version that was found last.
pub proof fn scanning_records_found(
    m: Map<Seq<char>, InstalledView>,
    found: Seq<(Seq<char>, Seq<char>)>,
    cellar: Seq<char>,
    platform: Seq<char>,
    i: int,
)
    requires
        0 <= i < found.len(),
        forall|j: int| i < j < found.len() ==> (#[trigger] found[j]).0 != found[i].0,
    ensures
        scanned(m, found, cellar, platform).contains_key(found[i].0),
        scanned(m, found, cellar, platform)[found[i].0].version == found[i].1,
    decreases found.len(),
{
    let before = found.drop_last();
    if i < before.len() {
        assert forall|j: int| i < j < before.len() implies (#[trigger] before[j]).0
            != before[i].0 by {
            assert(before[j] == found[j]);
        }
        scanning_records_found(m, before, cellar, platform, i);
        assert(found[found.len() - 1].0 != found[i].0);
    }
}

/// A package that is neither recorded nor found is not recorded by a scan.
pub proof fn scanning_invents_nothing(
    m: Map<Seq<char>, InstalledView>,
    found: Seq<(Seq<char>, Seq<char>)>,
    cellar: Seq<char>,
    platform: Seq<char>,
    name: Seq<char>,
)
    requires
        scanned(m, found, cellar, platform).contains_key(name),
    ensures
        m.contains_key(name) || exists|i: int| 0 <= i < found.len() && (#[trigger] found[i]).0 == name,
    decreases found.len(),
{
    if found.len() > 0 {
        let before = found.drop_last();
        if found.last().0 == name {
            assert(found[found.len() - 1].0 == name);
        } else {
            scanning_invents_nothing(m, before, cellar, platform, name);
            if !m.contains_key(name) {
                let i = choose|i: int| 0 <= i < before.len() && (#[trigger] before[i]).0 == name;
                assert(found[i].0 == name);
            }
        }
    }
}

// ---------------------------------------------------------------------------
// Links

/// The directories of a package that are linked into the prefix.
pub open spec fn linked_dirs() -> Seq<Seq<char>> {
    seq!["bin"@, "lib"@, "include"@, "share"@, "etc"@, "sbin"@]
}

/// The directories of a package that are linked, each with the place it is
/// linked into.
pub fn link_dirs(formula_path: &str, prefix: &str) -> (r: Vec<(String, String)>)
    ensures
        r@.len() == linked_dirs().len(),
        forall|i: int|
            0 <= i < r@.len() ==> (#[trigger] r@[i]).0@ == paths::path_join(
                formula_path@,
                linked_dirs()[i],
            ) && r@[i].1@ == paths::path_join(prefix@, linked_dirs()[i]),
{
    let mut v: Vec<(String, String)> = Vec::new();
    v.push((below(formula_path, "bin"), below(prefix, "bin")));
    v.push((below(formula_path, "lib"), below(prefix, "lib")));
    v.push((below(formula_path, "include"), below(prefix, "include")));
    v.push((below(formula_path, "share"), below(prefix, "share")));
    v.push((below(formula_path, "etc"), below(prefix, "etc")));
    v.push((below(formula_path, "sbin"), below(prefix, "sbin")));
    v
}

/// Where a version of a package lies.
pub fn formula_path(cellar: &str, name: &str, version: &str) -> (r: String)
    ensures
        r@ == paths::path_join(paths::path_join(cellar@, name@), version@),
{
    below(below(cellar, name).as_str(), version)
}

/// The link to a package's current version.
pub fn opt_link(prefix: &str, name: &str) -> (r: String)
    ensures
        r@ == paths::path_join(paths::path_join(prefix@, "opt"@), name@),
{
    below(below(prefix, "opt").as_str(), name)
}

/// What is done with an entry of a package's directory.
#[derive(Debug, Clone, Copy, PartialEq, Eq, Structural)]
pub enum LinkStep {
    /// The entry is a directory and so is what stands at its place: its own
    /// entries are linked.
    Descend,
    /// Nothing is done, and nothing counts as linked.
    Skip,
    /// The entry counts as linked. What stands at its place is removed first, if
    /// `remove` says so, and the link is made, if `create` says so.
    Link { remove: bool, create: bool },
}

/// What is done with an entry: a trial run removes and creates nothing, and
/// passes over files whose place is taken.
pub open spec fn link_step(source_is_dir: bool, at: Standing, dry_run: bool) -> LinkStep {
    if source_is_dir && at == Standing::Dir {
        LinkStep::Descend
    } else if !source_is_dir && at != Standing::Nothing && dry_run {
        LinkStep::Skip
    } else {
        LinkStep::Link { remove: at != Standing::Nothing && !dry_run, create: !dry_run }
    }
}

pub fn link_entry(source_is_dir: bool, at: Standing, dry_run: bool) -> (r: LinkStep)
    ensures
        r == link_step(source_is_dir, at, dry_run),
{
    if source_is_dir && at == Standing::Dir {
        LinkStep::Descend
    } else if !source_is_dir && at != Standing::Nothing && dry_run {
        LinkStep::Skip
    } else {
        LinkStep::Link { remove: at != Standing::Nothing && !dry_run, create: !dry_run }
    }
}

/// What is done at the place of the link to the current version: a directory is
/// removed with what it holds, anything else as a file.
pub fn clear_opt_link(at: Standing, dry_run: bool) -> (r: crate::ui::Clearing)
    ensures
        r == if dry_run || at == Standing::Nothing {
            crate::ui::Clearing::Keep
        } else if at == Standing::Dir {
            crate::ui::Clearing::RemoveDir
        } else {
            crate::ui::Clearing::RemoveFile
        },
{
    if dry_run || at == Standing::Nothing {
        crate::ui::Clearing::Keep
    } else if at == Standing::Dir {
        crate::ui::Clearing::RemoveDir
    } else {
        crate::ui::Clearing::RemoveFile
    }
}

/// What is done at the place of an entry when a package is unlinked.
#[derive(Debug, Clone, Copy, PartialEq, Eq, Structural)]
pub enum UnlinkStep {
    Descend,
    Skip,
    /// The link counts as removed; it is removed, if `remove` says so.
    Unlink { remove: bool },
}

/// What is done at the place of an entry: a link that leads into the package is
/// removed, and a directory of the same name is searched.
pub open spec fn unlink_step(
    source_is_dir: bool,
    at: Standing,
    link_target: Option<Seq<char>>,
    formula_path: Seq<char>,
    dry_run: bool,
) -> UnlinkStep {
    match at {
        Standing::Symlink => match link_target {
            Some(t) => if paths::lies_in(t, formula_path) {
                UnlinkStep::Unlink { remove: !dry_run }
            } else {
                UnlinkStep::Skip
            },
            None => UnlinkStep::Skip,
        },
        Standing::Dir => if source_is_dir {
            UnlinkStep::Descend
        } else {
            UnlinkStep::Skip
        },
        _ => UnlinkStep::Skip,
    }
}

pub fn unlink_entry(
    source_is_dir: bool,
    at: Standing,
    link_target: Option<&str>,
    formula_path: &str,
    dry_run: bool,
) -> (r: UnlinkStep)
    ensures
        r == unlink_step(source_is_dir, at, dirs::str_view(link_target), formula_path@, dry_run),
{
    match at {
        Standing::Symlink => match link_target {
            Some(t) => if path_in(t, formula_path) {
                UnlinkStep::Unlink { remove: !dry_run }
            } else {
                UnlinkStep::Skip
            },
            None => UnlinkStep::Skip,
        },
        Standing::Dir => if source_is_dir {
            UnlinkStep::Descend
        } else {
            UnlinkStep::Skip
        },
        _ => UnlinkStep::Skip,
    }
}

// ---------------------------------------------------------------------------
// Laws

/// Each flag asks for the mode that it is named for, neither for none, and both
/// together for what cannot be.
pub proof fn each_flag_asks_for_its_mode()
    ensures
        asked_mode(true, false) == Some(Some(InstallMode::User)),
        asked_mode(false, true) == Some(Some(InstallMode::Global)),
        asked_mode(false, false) == Some(None::<InstallMode>),
        asked_mode(true, true) is None,
{
}

/// A user's packages lie below the user's home directory, whatever Homebrew's prefix
/// is, and the others in that prefix, whatever the home directory is.
pub proof fn prefixes_of_modes(home: Seq<char>, any: Option<Seq<char>>, homebrew: Seq<char>)
    ensures
        prefix_of(InstallMode::Global, any, homebrew) == Some(homebrew),
        prefix_of(InstallMode::User, None, homebrew) is None,
        prefix_of(InstallMode::User, Some(home), homebrew) matches Some(p) && paths::lies_in(p, home)
            && p == paths::path_join(paths::path_join(home, ".local"@), "wax"@),
{
    reveal_strlit(".local");
    reveal_strlit("wax");
    let local = paths::path_join(home, ".local"@);
    assert(".local"@[0] == '.' && "wax"@[0] == 'w');
    paths::below_lies_in(home, ".local"@);
    paths::below_lies_in(local, "wax"@);
    paths::lying_in_is_transitive(paths::path_join(local, "wax"@), local, home);
}

/// Pinning changes whether a recorded package is pinned, nothing else of it, and no
/// other package; it records none.
pub proof fn pinning_changes_the_pin(
    m: Map<Seq<char>, InstalledView>,
    name: Seq<char>,
    other: Seq<char>,
    pinned: bool,
)
    requires
        other != name,
    ensures
        with_pin(m, name, pinned).dom() == m.dom(),
        m.contains_key(name) ==> with_pin(m, name, pinned)[name] == (InstalledView {
            pinned,
            ..m[name]
        }),
        m.contains_key(other) ==> with_pin(m, name, pinned)[other] == m[other],
        !m.contains_key(name) ==> with_pin(m, name, pinned) == m,
{
    assert(with_pin(m, name, pinned).dom() =~= m.dom());
}

/// What lies in one of the directories that all users share is installed for all of
/// them, and anything else for one user.
pub proof fn shared_cellars_are_global(cellar: Seq<char>, rel: Seq<char>)
    requires
        rel.len() > 0 ==> rel[0] != '/',
    ensures
        mode_of_cellar(paths::path_join("/opt/homebrew"@, rel)) == InstallMode::Global,
        mode_of_cellar(paths::path_join("/usr/local"@, rel)) == InstallMode::Global,
        !paths::lies_in(cellar, "/opt/homebrew"@) && !paths::lies_in(cellar, "/usr/local"@)
            ==> mode_of_cellar(cellar) == InstallMode::User,
{
    paths::below_lies_in("/opt/homebrew"@, rel);
    paths::below_lies_in("/usr/local"@, rel);
}

/// Homebrew is looked for where it usually stands on a system, the place of the
/// machine's own architecture first.
pub proof fn usual_places_come_first(os: Seq<char>, arch: Seq<char>)
    ensures
        os == "macos"@ && arch == "aarch64"@ ==> candidates(os, arch)[0] == "/opt/homebrew"@,
        os == "macos"@ && arch != "aarch64"@ ==> candidates(os, arch)[0] == "/usr/local"@,
        os == "macos"@ ==> candidates(os, arch).len() == 2 && candidates(os, arch).contains(
            "/opt/homebrew"@,
        ) && candidates(os, arch).contains("/usr/local"@),
        os == "linux"@ ==> candidates(os, arch).len() == 2 && candidates(os, arch)[0]
            == "/home/linuxbrew/.linuxbrew"@ && candidates(os, arch)[1] == "/usr/local"@,
        os != "macos"@ && os != "linux"@ ==> candidates(os, arch) == seq!["/usr/local"@],
{
    reveal_strlit("macos");
    reveal_strlit("linux");
    assert("macos"@[0] == 'm' && "linux"@[0] == 'l');
    let c = candidates(os, arch);
    if os == "macos"@ {
        assert(c[0] == "/opt/homebrew"@ || c[1] == "/opt/homebrew"@);
        assert(c[0] == "/usr/local"@ || c[1] == "/usr/local"@);
    }
}

/// A package that a scan finds for the first time is recorded as one of the Cellar that
/// it was found in, not pinned, and with nothing known of its bottle; one that was
/// recorded keeps everything but its version.
pub proof fn scanning_records_what_it_knows(
    m: Map<Seq<char>, InstalledView>,
    found: Seq<(Seq<char>, Seq<char>)>,
    name: Seq<char>,
    version: Seq<char>,
    cellar: Seq<char>,
    platform: Seq<char>,
)
    ensures
        ({
            let before = scanned(m, found, cellar, platform);
            let after = scanned(m, found.push((name, version)), cellar, platform);
            &&& after.contains_key(name)
            &&& before.contains_key(name) ==> after[name] == (InstalledView {
                version,
                ..before[name]
            })
            &&& !before.contains_key(name) ==> after[name].name == name && after[name].version
                == version && after[name].platform == platform && after[name].install_mode
                == mode_of_cellar(cellar) && after[name].install_date == 0
                && !after[name].from_source && !after[name].pinned && after[name].bottle_rebuild
                == 0 && after[name].bottle_sha256 is None
            &&& forall|n: Seq<char>|
                n != name ==> #[trigger] after.contains_key(n) == before.contains_key(n) && (
                before.contains_key(n) ==> after[n] == before[n])
        }),
{
    assert(found.push((name, version)).drop_last() =~= found);
}

/// Homebrew's own answer is scanned first and the user's own Cellar last; between them
/// the first of the usual places that is there, and no other.
pub proof fn cellars_are_scanned_in_order(
    brew: Option<Seq<char>>,
    usual: Seq<Seq<char>>,
    there: Seq<bool>,
    own: Option<Seq<char>>,
    k: int,
)
    requires
        usual.len() == there.len(),
        0 <= k < usual.len(),
        there[k],
        forall|j: int| 0 <= j < k ==> !#[trigger] there[j],
    ensures
        first_there(usual, there) == seq![paths::path_join(usual[k], "Cellar"@)],
        brew matches Some(c) ==> scan_order(brew, usual, there, own)[0] == c,
        own matches Some(c) ==> scan_order(brew, usual, there, own).last() == c,
        scan_order(brew, usual, there, own).len() == 1 + (if brew is Some {
            1int
        } else {
            0int
        }) + (if own is Some {
            1int
        } else {
            0int
        }),
        scan_order(brew, usual, there, own).contains(paths::path_join(usual[k], "Cellar"@)),
    decreases usual.len(),
{
    if k > 0 {
        assert(!there[0]);
        let t = there.skip(1);
        assert forall|j: int| 0 <= j < k - 1 implies !#[trigger] t[j] by {
            assert(!there[j + 1]);
        }
        cellars_are_scanned_in_order(brew, usual.skip(1), t, own, k - 1);
    }
    let s = scan_order(brew, usual, there, own);
    let at = if brew is Some {
        1int
    } else {
        0int
    };
    assert(s[at] == paths::path_join(usual[k], "Cellar"@));
}

/// Where none of the usual places is there, none is scanned.
pub proof fn absent_places_are_not_scanned(usual: Seq<Seq<char>>, there: Seq<bool>)
    requires
        forall|j: int| 0 <= j < there.len() ==> !#[trigger] there[j],
    ensures
        first_there(usual, there).len() == 0,
    decreases usual.len(),
{
    if usual.len() > 0 && there.len() > 0 {
        assert(!there[0]);
        let t = there.skip(1);
        assert forall|j: int| 0 <= j < t.len() implies !#[trigger] t[j] by {
            assert(!there[j + 1]);
        }
        absent_places_are_not_scanned(usual.skip(1), t);
    }
}

/// The directories of a package that are linked: no two are one, and each kind of thing
/// that a package offers is among them.
pub proof fn offered_directories_are_linked()
    ensures
        linked_dirs().contains("bin"@) && linked_dirs().contains("sbin"@),
        linked_dirs().contains("lib"@) && linked_dirs().contains("include"@),
        linked_dirs().contains("share"@) && linked_dirs().contains("etc"@),
        linked_dirs().len() == 6,
        linked_dirs()[0] == "bin"@,
{
    let d = linked_dirs();
    assert(d[0] == "bin"@ && d[1] == "lib"@ && d[2] == "include"@);
    assert(d[3] == "share"@ && d[4] == "etc"@ && d[5] == "sbin"@);
}

/// A directory is shared with what is there already; anything else is linked, and what
/// stands in its place is removed first. A trial changes nothing, and leaves alone a file
/// whose place is taken.
pub proof fn entries_are_linked(source_is_dir: bool, at: Standing)
    ensures
        link_step(true, Standing::Dir, false) == LinkStep::Descend,
        link_step(true, Standing::Dir, true) == LinkStep::Descend,
        !source_is_dir || at != Standing::Dir ==> link_step(source_is_dir, at, false) == (
        LinkStep::Link { remove: at != Standing::Nothing, create: true }),
        link_step(source_is_dir, at, true) matches LinkStep::Link { remove, create } ==> !remove
            && !create,
        !source_is_dir && at != Standing::Nothing ==> link_step(source_is_dir, at, true)
            == LinkStep::Skip,
        link_step(source_is_dir, Standing::Nothing, true) == (LinkStep::Link {
            remove: false,
            create: false,
        }),
{
}

/// Only a link that leads into the package is removed; a directory is looked into where
/// the package has one there, and anything else stays. A trial removes nothing.
pub proof fn only_own_links_are_removed(
    source_is_dir: bool,
    at: Standing,
    target: Seq<char>,
    formula_path: Seq<char>,
    any: Option<Seq<char>>,
    dry_run: bool,
)
    ensures
        paths::lies_in(target, formula_path) ==> unlink_step(
            source_is_dir,
            Standing::Symlink,
            Some(target),
            formula_path,
            dry_run,
        ) == (UnlinkStep::Unlink { remove: !dry_run }),
        !paths::lies_in(target, formula_path) ==> unlink_step(
            source_is_dir,
            Standing::Symlink,
            Some(target),
            formula_path,
            dry_run,
        ) == UnlinkStep::Skip,
        unlink_step(source_is_dir, Standing::Symlink, None, formula_path, dry_run)
            == UnlinkStep::Skip,
        unlink_step(true, Standing::Dir, any, formula_path, dry_run) == UnlinkStep::Descend,
        unlink_step(false, Standing::Dir, any, formula_path, dry_run) == UnlinkStep::Skip,
        at != Standing::Symlink && at != Standing::Dir ==> unlink_step(
            source_is_dir,
            at,
            any,
            formula_path,
            dry_run,
        ) == UnlinkStep::Skip,
{
}

}
