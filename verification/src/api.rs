//! Formulae and casks, as the package index describes them.
use crate::json::Json;
use crate::table::Table;
use crate::text::same_str;
use crate::{cask, table, text};
use vstd::prelude::*;

verus! {

/// A bottle for one platform.
#[derive(Debug)]
pub struct BottleFile {
    pub url: String,
    pub sha256: String,
}

/// The mathematical content of a `BottleFile`.
pub struct BottleFileView {
    pub url: Seq<char>,
    pub sha256: Seq<char>,
}

impl View for BottleFile {
    type V = BottleFileView;

    open spec fn view(&self) -> BottleFileView {
        BottleFileView { url: self.url@, sha256: self.sha256@ }
    }
}

/// A `BottleFile` is seen as what it holds.
pub proof fn bottle_file_is_seen_as_it_is(x: BottleFile)
    ensures
        x@.url == x.url@,
        x@.sha256 == x.sha256@,
{
}

/// The bottles of a formula's stable version, by platform.
pub struct Bottle {
    pub rebuild: u32,
    pub files: Table<BottleFile>,
}

/// The mathematical content of a `Bottle`.
pub struct BottleView {
    pub rebuild: nat,
    pub files: Map<Seq<char>, BottleFileView>,
}

impl View for Bottle {
    type V = BottleView;

    open spec fn view(&self) -> BottleView {
        BottleView { rebuild: self.rebuild as nat, files: table::contents(self.files) }
    }
}

/// A `Bottle` is seen as what it holds.
pub proof fn bottle_is_seen_as_it_is(x: Bottle)
    ensures
        x@.rebuild == x.rebuild as nat,
        x@.files == table::contents(x.files),
{
}

pub struct Formula {
    pub name: String,
    pub full_name: String,
    pub desc: Option<String>,
    pub homepage: String,
    /// The stable version.
    pub stable: String,
    /// Whether the stable version comes as a bottle.
    pub bottled: bool,
    /// The versions that are installed.
    pub installed: Option<Vec<String>>,
    pub dependencies: Option<Vec<String>>,
    pub build_dependencies: Option<Vec<String>>,
    pub bottle: Option<Bottle>,
    pub post_install_defined: bool,
}

/// The mathematical content of a `Formula`.
pub struct FormulaView {
    pub name: Seq<char>,
    pub full_name: Seq<char>,
    pub desc: Option<Seq<char>>,
    pub homepage: Seq<char>,
    pub stable: Seq<char>,
    pub bottled: bool,
    pub installed: Option<Seq<Seq<char>>>,
    pub dependencies: Option<Seq<Seq<char>>>,
    pub build_dependencies: Option<Seq<Seq<char>>>,
    pub bottle: Option<BottleView>,
    pub post_install_defined: bool,
}

pub open spec fn bottle_view(b: Option<Bottle>) -> Option<BottleView> {
    match b {
        Some(x) => Some(x@),
        None => None,
    }
}

impl View for Formula {
    type V = FormulaView;

    open spec fn view(&self) -> FormulaView {
        FormulaView {
            name: self.name@,
            full_name: self.full_name@,
            desc: text::opt_view(self.desc),
            homepage: self.homepage@,
            stable: self.stable@,
            bottled: self.bottled,
            installed: cask::opt_views(self.installed),
            dependencies: cask::opt_views(self.dependencies),
            build_dependencies: cask::opt_views(self.build_dependencies),
            bottle: bottle_view(self.bottle),
            post_install_defined: self.post_install_defined,
        }
    }
}

/// A `Formula` is seen as what it holds.
pub proof fn formula_is_seen_as_it_is(x: Formula)
    ensures
        x@.name == x.name@,
        x@.full_name == x.full_name@,
        x@.desc == text::opt_view(x.desc),
        x@.homepage == x.homepage@,
        x@.stable == x.stable@,
        x@.bottled == x.bottled,
        x@.installed == cask::opt_views(x.installed),
        x@.dependencies == cask::opt_views(x.dependencies),
        x@.build_dependencies == cask::opt_views(x.build_dependencies),
        x@.bottle == bottle_view(x.bottle),
        x@.post_install_defined == x.post_install_defined,
{
}

impl FormulaView {
    /// The bottle for a platform, or else the one for all.
    pub open spec fn file_for(self, platform: Seq<char>) -> Option<BottleFileView> {
        match self.bottle {
            Some(b) => if b.files.contains_key(platform) {
                Some(b.files[platform])
            } else if b.files.contains_key("all"@) {
                Some(b.files["all"@])
            } else {
                None
            },
            None => None,
        }
    }

    /// How often the stable bottle was rebuilt.
    pub open spec fn rebuild(self) -> nat {
        match self.bottle {
            Some(b) => b.rebuild,
            None => 0,
        }
    }

    /// Depends on a formula, when it runs.
    pub open spec fn needs(self, name: Seq<char>) -> bool {
        self.dependencies matches Some(d) && d.contains(name)
    }
}

pub open spec fn file_view(r: Option<&BottleFile>) -> Option<BottleFileView> {
    match r {
        Some(f) => Some(f@),
        None => None,
    }
}

impl Formula {
    /// No platform has two bottles.
    pub open spec fn wf(&self) -> bool {
        self.bottle matches Some(b) ==> b.files.wf()
    }

    /// The bottle for a platform, or else the one for all.
    pub fn bottle_file(&self, platform: &str) -> (r: Option<&BottleFile>)
        requires
            self.wf(),
        ensures
            file_view(r) == self@.file_for(platform@),
    {
        match &self.bottle {
            Some(b) => match b.files.get(platform) {
                Some(f) => Some(f),
                None => b.files.get("all"),
            },
            None => None,
        }
    }

    /// How often the stable bottle was rebuilt.
    pub fn bottle_rebuild(&self) -> (r: u32)
        ensures
            r == self@.rebuild(),
    {
        match &self.bottle {
            Some(b) => b.rebuild,
            None => 0,
        }
    }

    /// Whether the formula depends on another, when it runs.
    pub fn needs(&self, name: &str) -> (r: bool)
        ensures
            r == self@.needs(name@),
    {
        match &self.dependencies {
            Some(d) => listed(d, name),
            None => false,
        }
    }
}

/// Whether a name is in a list.
pub fn listed(v: &Vec<String>, name: &str) -> (r: bool)
    ensures
        r == text::views(v@).contains(name@),
{
    proof {
        assert(text::views(v@).len() == v@.len());
    }
    for i in 0..v.len()
        invariant
            forall|j: int| 0 <= j < i ==> text::views(v@)[j] != name@,
    {
        proof {
            assert(text::views(v@)[i as int] == v@[i as int]@);
        }
        if same_str(v[i].as_str(), name) {
            return true;
        }
    }
    false
}

pub open spec fn formula_views(v: Seq<Formula>) -> Seq<FormulaView> {
    Seq::new(v.len(), |i: int| v[i]@)
}

pub open spec fn formulae_wf(v: Seq<Formula>) -> bool {
    forall|i: int| 0 <= i < v.len() ==> (#[trigger] v[i]).wf()
}

/// The first formula of a name.
pub open spec fn first_named(f: Seq<FormulaView>, name: Seq<char>) -> Option<FormulaView>
    decreases f.len(),
{
    if f.len() == 0 {
        None
    } else if f[0].name == name {
        Some(f[0])
    } else {
        first_named(f.skip(1), name)
    }
}

/// The first formula of a name.
pub fn find_first<'a>(formulae: &'a Vec<Formula>, name: &str) -> (r: Option<&'a Formula>)
    requires
        formulae_wf(formulae@),
    ensures
        match r {
            Some(f) => f.wf() && first_named(formula_views(formulae@), name@) == Some(f@),
            None => first_named(formula_views(formulae@), name@) is None,
        },
{
    let ghost f = formula_views(formulae@);
    proof {
        assert(f.skip(0) =~= f);
    }
    for i in 0..formulae.len()
        invariant
            formulae_wf(formulae@),
            f == formula_views(formulae@),
            first_named(f, name@) == first_named(f.skip(i as int), name@),
    {
        proof {
            assert(f.skip(i as int)[0] == formulae@[i as int]@);
            assert(f.skip(i as int).skip(1) =~= f.skip(i + 1));
        }
        if same_str(formulae[i].name.as_str(), name) {
            return Some(&formulae[i]);
        }
    }
    None
}

/// A cask, in the index.
#[derive(Debug)]
pub struct Cask {
    pub token: String,
    pub full_token: String,
    pub name: Vec<String>,
    pub desc: Option<String>,
    pub homepage: String,
    pub version: String,
    pub deprecated: bool,
    pub disabled: bool,
}

/// The mathematical content of a `Cask`.
pub struct CaskView {
    pub token: Seq<char>,
    pub full_token: Seq<char>,
    pub name: Seq<Seq<char>>,
    pub desc: Option<Seq<char>>,
    pub homepage: Seq<char>,
    pub version: Seq<char>,
}

impl View for Cask {
    type V = CaskView;

    open spec fn view(&self) -> CaskView {
        CaskView {
            token: self.token@,
            full_token: self.full_token@,
            name: text::views(self.name@),
            desc: text::opt_view(self.desc),
            homepage: self.homepage@,
            version: self.version@,
        }
    }
}

/// A `Cask` is seen as what it holds.
pub proof fn cask_is_seen_as_it_is(x: Cask)
    ensures
        x@.token == x.token@,
        x@.full_token == x.full_token@,
        x@.name == text::views(x.name@),
        x@.desc == text::opt_view(x.desc),
        x@.homepage == x.homepage@,
        x@.version == x.version@,
{
}

pub open spec fn cask_views(v: Seq<Cask>) -> Seq<CaskView> {
    Seq::new(v.len(), |i: int| v[i]@)
}

/// A cask goes by its token and its full token.
pub open spec fn goes_by(c: CaskView, name: Seq<char>) -> bool {
    c.token == name || c.full_token == name
}

pub open spec fn cask_known(c: Seq<CaskView>, name: Seq<char>) -> bool {
    exists|i: int| 0 <= i < c.len() && #[trigger] goes_by(c[i], name)
}

/// Whether there is a cask that goes by the name.
pub fn has_cask(casks: &Vec<Cask>, name: &str) -> (r: bool)
    ensures
        r == cask_known(cask_views(casks@), name@),
{
    let ghost v = cask_views(casks@);
    for i in 0..casks.len()
        invariant
            v == cask_views(casks@),
            forall|j: int| 0 <= j < i ==> !#[trigger] goes_by(v[j], name@),
    {
        proof {
            assert(v[i as int] == casks@[i as int]@);
        }
        if same_str(casks[i].token.as_str(), name) || same_str(casks[i].full_token.as_str(), name) {
            proof {
                assert(goes_by(v[i as int], name@));
            }
            return true;
        }
    }
    false
}

/// What a cask installs.
#[derive(Debug)]
pub enum CaskArtifact {
    App { app: Vec<Json> },
    Pkg { pkg: Vec<Json> },
    Binary { binary: Vec<Json> },
    Font { font: Vec<Json> },
    Manpage { manpage: Vec<Json> },
    Dictionary { dictionary: Vec<Json> },
    Colorpicker { colorpicker: Vec<Json> },
    Prefpane { prefpane: Vec<Json> },
    Qlplugin { qlplugin: Vec<Json> },
    ScreenSaver { screen_saver: Vec<Json> },
    Service { service: Vec<Json> },
    Suite { suite: Vec<Json> },
    Artifact { artifact: Vec<Json> },
    BashCompletion { bash_completion: Vec<Json> },
    ZshCompletion { zsh_completion: Vec<Json> },
    FishCompletion { fish_completion: Vec<Json> },
    Uninstall { uninstall: Vec<Json> },
    Zap { zap: Vec<Json> },
    Preflight { preflight: Option<Json> },
    Postflight { postflight: Option<Json> },
    Other(Json),
}

/// A cask, in full.
#[derive(Debug)]
pub struct CaskDetails {
    pub token: String,
    pub name: Vec<String>,
    pub desc: Option<String>,
    pub homepage: String,
    pub version: String,
    pub url: String,
    pub sha256: String,
    pub artifacts: Option<Vec<CaskArtifact>>,
}

// ---------------------------------------------------------------------------
// Laws

/// A bottle for the platform comes before one for all platforms, and where there is
/// neither there is none.
pub proof fn own_bottle_comes_first(f: FormulaView, b: BottleView, platform: Seq<char>)
    requires
        f.bottle == Some(b),
    ensures
        b.files.contains_key(platform) ==> f.file_for(platform) == Some(b.files[platform]),
        !b.files.contains_key(platform) && b.files.contains_key("all"@) ==> f.file_for(platform)
            == Some(b.files["all"@]),
        !b.files.contains_key(platform) && !b.files.contains_key("all"@) ==> f.file_for(
            platform,
        ) is None,
        f.rebuild() == b.rebuild,
{
}

/// A formula without bottles has none for any platform, and was never rebuilt.
pub proof fn no_bottle_for_any_platform(f: FormulaView, platform: Seq<char>)
    requires
        f.bottle is None,
    ensures
        f.file_for(platform) is None,
        f.rebuild() == 0,
{
}

/// The formula that is found has the name, and none before it does.
pub proof fn first_named_is_first(f: Seq<FormulaView>, name: Seq<char>, i: int)
    requires
        0 <= i < f.len(),
        f[i].name == name,
        forall|j: int| 0 <= j < i ==> (#[trigger] f[j]).name != name,
    ensures
        first_named(f, name) == Some(f[i]),
    decreases i,
{
    if i > 0 {
        assert(f[0].name != name);
        assert(f.skip(1)[i - 1] == f[i]);
        assert forall|j: int| 0 <= j < i - 1 implies (#[trigger] f.skip(1)[j]).name != name by {
            assert(f.skip(1)[j] == f[j + 1]);
        }
        first_named_is_first(f.skip(1), name, i - 1);
    }
}

/// No formula is found where none has the name.
pub proof fn nothing_else_is_found(f: Seq<FormulaView>, name: Seq<char>)
    requires
        forall|j: int| 0 <= j < f.len() ==> (#[trigger] f[j]).name != name,
    ensures
        first_named(f, name) is None,
    decreases f.len(),
{
    if f.len() > 0 {
        assert(f[0].name != name);
        assert forall|j: int| 0 <= j < f.skip(1).len() implies (#[trigger] f.skip(1)[j]).name
            != name by {
            assert(f.skip(1)[j] == f[j + 1]);
        }
        nothing_else_is_found(f.skip(1), name);
    }
}

/// A cask is known by its short name and by its full name, and by no other.
pub proof fn casks_are_known_by_both_names(c: Seq<CaskView>, name: Seq<char>)
    ensures
        forall|i: int| 0 <= i < c.len() ==> cask_known(c, (#[trigger] c[i]).token) && cask_known(
            c,
            c[i].full_token,
        ),
        (forall|i: int|
            0 <= i < c.len() ==> (#[trigger] c[i]).token != name && c[i].full_token != name)
            ==> !cask_known(c, name),
{
    assert forall|i: int| 0 <= i < c.len() implies cask_known(c, (#[trigger] c[i]).token)
        && cask_known(c, c[i].full_token) by {
        assert(goes_by(c[i], c[i].token));
        assert(goes_by(c[i], c[i].full_token));
    }
}

}
