//! Installing casks: which are installed and how, and what is recorded of them.
use crate::api::{has_cask, Cask, CaskArtifact, CaskDetails, CaskView};
use crate::cask::{CaskInstaller, InstalledCask, InstalledCaskView};
use crate::error::{Result, WaxError};
use crate::json::Json;
use crate::paths::below;
use crate::table::Table;
use crate::text::{joined, number, same_str};
use crate::ui::dirs;
use crate::ui::dirs::home_dir;
use crate::{api, cask, json, paths, table, text};
use vstd::prelude::*;

verus! {

// ---------------------------------------------------------------------------
// The steps of an installation

/// What kind of directory an artifact goes into.
#[derive(Debug, Clone, Copy, PartialEq, Eq, Structural)]
pub enum Folder {
    Dictionary,
    Colorpicker,
    Prefpane,
    Qlplugin,
    ScreenSaver,
    Service,
    Suite,
}

#[derive(Debug, Clone, Copy, PartialEq, Eq, Structural)]
pub enum Shell {
    Bash,
    Zsh,
    Fish,
}

/// A step of an installation.
#[derive(Debug)]
pub enum CaskStep {
    App { source: String, guessed: bool },
    Pkg { source: String },
    Binary { source: String, target: Option<String> },
    Font { source: String },
    Manpage { source: String },
    Artifact { source: String, target: String },
    Directory { folder: Folder, source: String },
    Completion { shell: Shell, source: String, target: Option<String> },
    SkipPreflight,
    SkipPostflight,
    Nothing,
}

/// The mathematical content of a `CaskStep`.
pub enum StepView {
    App { source: Seq<char>, guessed: bool },
    Pkg { source: Seq<char> },
    Binary { source: Seq<char>, target: Option<Seq<char>> },
    Font { source: Seq<char> },
    Manpage { source: Seq<char> },
    Artifact { source: Seq<char>, target: Seq<char> },
    Directory { folder: Folder, source: Seq<char> },
    Completion { shell: Shell, source: Seq<char>, target: Option<Seq<char>> },
    SkipPreflight,
    SkipPostflight,
    Nothing,
}

impl View for CaskStep {
    type V = StepView;

    open spec fn view(&self) -> StepView {
        match *self {
            CaskStep::App { source, guessed } => StepView::App { source: source@, guessed },
            CaskStep::Pkg { source } => StepView::Pkg { source: source@ },
            CaskStep::Binary { source, target } => StepView::Binary {
                source: source@,
                target: text::opt_view(target),
            },
            CaskStep::Font { source } => StepView::Font { source: source@ },
            CaskStep::Manpage { source } => StepView::Manpage { source: source@ },
            CaskStep::Artifact { source, target } => StepView::Artifact {
                source: source@,
                target: target@,
            },
            CaskStep::Directory { folder, source } => StepView::Directory {
                folder,
                source: source@,
            },
            CaskStep::Completion { shell, source, target } => StepView::Completion {
                shell,
                source: source@,
                target: text::opt_view(target),
            },
            CaskStep::SkipPreflight => StepView::SkipPreflight,
            CaskStep::SkipPostflight => StepView::SkipPostflight,
            CaskStep::Nothing => StepView::Nothing,
        }
    }
}

/// A `CaskStep` is seen as what it holds.
pub proof fn cask_step_is_seen_as_it_is(x: CaskStep)
    ensures
        x matches CaskStep::App { source, guessed } ==> x@ == (StepView::App {
            source: source@,
            guessed,
        }),
        x matches CaskStep::Pkg { source } ==> x@ == (StepView::Pkg { source: source@ }),
        x matches CaskStep::Binary { source, target } ==> x@ == (StepView::Binary {
            source: source@,
            target: text::opt_view(target),
        }),
        x matches CaskStep::Font { source } ==> x@ == (StepView::Font { source: source@ }),
        x matches CaskStep::Manpage { source } ==> x@ == (StepView::Manpage { source: source@ }),
        x matches CaskStep::Artifact { source, target } ==> x@ == (StepView::Artifact {
            source: source@,
            target: target@,
        }),
        x matches CaskStep::Directory { folder, source } ==> x@ == (StepView::Directory {
            folder,
            source: source@,
        }),
        x matches CaskStep::Completion { shell, source, target } ==> x@ == (StepView::Completion {
            shell,
            source: source@,
            target: text::opt_view(target),
        }),
        x is SkipPreflight ==> x@ == StepView::SkipPreflight,
        x is SkipPostflight ==> x@ == StepView::SkipPostflight,
        x is Nothing ==> x@ == StepView::Nothing,
{
}

/// The source that an artifact's values begin with.
pub open spec fn source_in(v: Seq<Json>) -> Option<Seq<char>> {
    if v.len() > 0 {
        json::as_text(v[0])
    } else {
        None
    }
}

/// The target that an artifact's second value names.
pub open spec fn target_in(v: Seq<Json>) -> Option<Seq<char>> {
    if v.len() > 1 {
        json::text_field(v[1], "target"@)
    } else {
        None
    }
}

pub open spec fn directory_step(folder: Folder, v: Seq<Json>) -> StepView {
    match source_in(v) {
        Some(source) => StepView::Directory { folder, source },
        None => StepView::Nothing,
    }
}

pub open spec fn completion_step(shell: Shell, v: Seq<Json>) -> StepView {
    match source_in(v) {
        Some(source) => StepView::Completion { shell, source, target: target_in(v) },
        None => StepView::Nothing,
    }
}

/// The step that installs an artifact. An artifact without a source takes none,
/// and scripts are not run.
pub open spec fn step_of(a: CaskArtifact) -> StepView {
    match a {
        CaskArtifact::App { app } => match source_in(app@) {
            Some(source) => StepView::App { source, guessed: false },
            None => StepView::Nothing,
        },
        CaskArtifact::Pkg { pkg } => match source_in(pkg@) {
            Some(source) => StepView::Pkg { source },
            None => StepView::Nothing,
        },
        CaskArtifact::Binary { binary } => match source_in(binary@) {
            Some(source) => StepView::Binary { source, target: target_in(binary@) },
            None => StepView::Nothing,
        },
        CaskArtifact::Font { font } => match source_in(font@) {
            Some(source) => StepView::Font { source },
            None => StepView::Nothing,
        },
        CaskArtifact::Manpage { manpage } => match source_in(manpage@) {
            Some(source) => StepView::Manpage { source },
            None => StepView::Nothing,
        },
        CaskArtifact::Artifact { artifact } => match (source_in(artifact@), target_in(artifact@)) {
            (Some(source), Some(target)) => StepView::Artifact { source, target },
            _ => StepView::Nothing,
        },
        CaskArtifact::Dictionary { dictionary } => directory_step(Folder::Dictionary, dictionary@),
        CaskArtifact::Colorpicker { colorpicker } => directory_step(
            Folder::Colorpicker,
            colorpicker@,
        ),
        CaskArtifact::Prefpane { prefpane } => directory_step(Folder::Prefpane, prefpane@),
        CaskArtifact::Qlplugin { qlplugin } => directory_step(Folder::Qlplugin, qlplugin@),
        CaskArtifact::ScreenSaver { screen_saver } => directory_step(
            Folder::ScreenSaver,
            screen_saver@,
        ),
        CaskArtifact::Service { service } => directory_step(Folder::Service, service@),
        CaskArtifact::Suite { suite } => directory_step(Folder::Suite, suite@),
        CaskArtifact::BashCompletion { bash_completion } => completion_step(
            Shell::Bash,
            bash_completion@,
        ),
        CaskArtifact::ZshCompletion { zsh_completion } => completion_step(
            Shell::Zsh,
            zsh_completion@,
        ),
        CaskArtifact::FishCompletion { fish_completion } => completion_step(
            Shell::Fish,
            fish_completion@,
        ),
        CaskArtifact::Preflight { preflight } => match preflight {
            Some(_) => StepView::SkipPreflight,
            None => StepView::Nothing,
        },
        CaskArtifact::Postflight { postflight } => match postflight {
            Some(_) => StepView::SkipPostflight,
            None => StepView::Nothing,
        },
        _ => StepView::Nothing,
    }
}

fn source_of(v: &Vec<Json>) -> (r: Option<String>)
    ensures
        text::opt_view(r) == source_in(v@),
{
    if v.len() > 0 {
        match v[0].as_str() {
            Some(s) => Some(s.clone()),
            None => None,
        }
    } else {
        None
    }
}

fn target_of(v: &Vec<Json>) -> (r: Option<String>)
    ensures
        text::opt_view(r) == target_in(v@),
{
    if v.len() > 1 {
        v[1].get_str("target")
    } else {
        None
    }
}

fn into_directory(folder: Folder, v: &Vec<Json>) -> (r: CaskStep)
    ensures
        r@ == directory_step(folder, v@),
{
    match source_of(v) {
        Some(source) => CaskStep::Directory { folder, source },
        None => CaskStep::Nothing,
    }
}

fn into_completion(shell: Shell, v: &Vec<Json>) -> (r: CaskStep)
    ensures
        r@ == completion_step(shell, v@),
{
    match source_of(v) {
        Some(source) => CaskStep::Completion { shell, source, target: target_of(v) },
        None => CaskStep::Nothing,
    }
}

/// The step that installs an artifact.
pub fn artifact_step(a: &CaskArtifact) -> (r: CaskStep)
    ensures
        r@ == step_of(*a),
{
    match a {
        CaskArtifact::App { app } => match source_of(app) {
            Some(source) => CaskStep::App { source, guessed: false },
            None => CaskStep::Nothing,
        },
        CaskArtifact::Pkg { pkg } => match source_of(pkg) {
            Some(source) => CaskStep::Pkg { source },
            None => CaskStep::Nothing,
        },
        CaskArtifact::Binary { binary } => match source_of(binary) {
            Some(source) => CaskStep::Binary { source, target: target_of(binary) },
            None => CaskStep::Nothing,
        },
        CaskArtifact::Font { font } => match source_of(font) {
            Some(source) => CaskStep::Font { source },
            None => CaskStep::Nothing,
        },
        CaskArtifact::Manpage { manpage } => match source_of(manpage) {
            Some(source) => CaskStep::Manpage { source },
            None => CaskStep::Nothing,
        },
        CaskArtifact::Artifact { artifact } => match (source_of(artifact), target_of(artifact)) {
            (Some(source), Some(target)) => CaskStep::Artifact { source, target },
            _ => CaskStep::Nothing,
        },
        CaskArtifact::Dictionary { dictionary } => into_directory(Folder::Dictionary, dictionary),
        CaskArtifact::Colorpicker { colorpicker } => into_directory(
            Folder::Colorpicker,
            colorpicker,
        ),
        CaskArtifact::Prefpane { prefpane } => into_directory(Folder::Prefpane, prefpane),
        CaskArtifact::Qlplugin { qlplugin } => into_directory(Folder::Qlplugin, qlplugin),
        CaskArtifact::ScreenSaver { screen_saver } => into_directory(
            Folder::ScreenSaver,
            screen_saver,
        ),
        CaskArtifact::Service { service } => into_directory(Folder::Service, service),
        CaskArtifact::Suite { suite } => into_directory(Folder::Suite, suite),
        CaskArtifact::BashCompletion { bash_completion } => into_completion(
            Shell::Bash,
            bash_completion,
        ),
        CaskArtifact::ZshCompletion { zsh_completion } => into_completion(
            Shell::Zsh,
            zsh_completion,
        ),
        CaskArtifact::FishCompletion { fish_completion } => into_completion(
            Shell::Fish,
            fish_completion,
        ),
        CaskArtifact::Preflight { preflight } => match preflight {
            Some(_) => CaskStep::SkipPreflight,
            None => CaskStep::Nothing,
        },
        CaskArtifact::Postflight { postflight } => match postflight {
            Some(_) => CaskStep::SkipPostflight,
            None => CaskStep::Nothing,
        },
        _ => CaskStep::Nothing,
    }
}

/// The first name with the extension of an app.
pub open spec fn first_app(names: Seq<Seq<char>>) -> Option<Seq<char>>
    decreases names.len(),
{
    if names.len() == 0 {
        None
    } else if cask::extension(names[0]) == Some("app"@) {
        Some(names[0])
    } else {
        first_app(names.skip(1))
    }
}

pub open spec fn steps_of(v: Seq<CaskArtifact>) -> Seq<StepView> {
    Seq::new(v.len(), |i: int| step_of(v[i]))
}

pub open spec fn step_views(v: Seq<CaskStep>) -> Seq<StepView> {
    Seq::new(v.len(), |i: int| v[i]@)
}

/// The steps of a cask: one for each of its artifacts or, where it names none, one
/// for the first app in an image or an archive.
pub open spec fn cask_steps(
    artifacts: Option<Seq<CaskArtifact>>,
    artifact_type: Seq<char>,
    staged: Seq<Seq<char>>,
) -> Seq<StepView> {
    match artifacts {
        Some(v) => steps_of(v),
        None => if artifact_type == "dmg"@ || artifact_type == "zip"@ {
            match first_app(staged) {
                Some(source) => seq![StepView::App { source, guessed: true }],
                None => Seq::empty(),
            }
        } else {
            Seq::empty()
        },
    }
}

pub open spec fn artifacts_view(v: Option<Vec<CaskArtifact>>) -> Option<Seq<CaskArtifact>> {
    match v {
        Some(x) => Some(x@),
        None => None,
    }
}

fn guessed_app(staged: &Vec<String>) -> (r: Option<String>)
    ensures
        text::opt_view(r) == first_app(text::views(staged@)),
{
    let ghost v = text::views(staged@);
    proof {
        assert(v.skip(0) =~= v);
    }
    for i in 0..staged.len()
        invariant
            v == text::views(staged@),
            first_app(v) == first_app(v.skip(i as int)),
    {
        proof {
            assert(v.skip(i as int)[0] == staged@[i as int]@);
            assert(v.skip(i as int).skip(1) =~= v.skip(i + 1));
        }
        let found = match cask::extension_of(staged[i].as_str()) {
            Some(e) => same_str(e.as_str(), "app"),
            None => false,
        };
        if found {
            return Some(staged[i].clone());
        }
    }
    None
}

/// The steps that install a cask that was fetched, given what was unpacked.
pub fn install_from_downloaded(details: &CaskDetails, artifact_type: &str, staged: &Vec<String>) -> (r:
    Vec<CaskStep>)
    ensures
        step_views(r@) == cask_steps(
            artifacts_view(details.artifacts),
            artifact_type@,
            text::views(staged@),
        ),
{
    let mut out: Vec<CaskStep> = Vec::new();
    proof {
        assert(step_views(out@) =~= Seq::empty());
    }
    match &details.artifacts {
        Some(v) => {
            for i in 0..v.len()
                invariant
                    details.artifacts == Some(*v),
                    step_views(out@) == steps_of(v@.take(i as int)),
            {
                let ghost before = step_views(out@);
                let step = artifact_step(&v[i]);
                out.push(step);
                proof {
                    assert(step_views(out@) =~= before.push(step@));
                    assert(steps_of(v@.take(i + 1)) =~= before.push(step@));
                }
            }
            proof {
                assert(v@.take(v@.len() as int) =~= v@);
            }
        },
        None => {
            if same_str(artifact_type, "dmg") || same_str(artifact_type, "zip") {
                match guessed_app(staged) {
                    Some(source) => {
                        let step = CaskStep::App { source, guessed: true };
                        out.push(step);
                        proof {
                            assert(step_views(out@) =~= seq![step@]);
                        }
                    },
                    None => {},
                }
            }
        },
    }
    out
}

/// What is said of a step, if anything.
pub open spec fn step_text(s: StepView) -> Option<Seq<char>> {
    match s {
        StepView::App { source, guessed } => Some(
            if guessed {
                "installing guessed app: "@ + source
            } else {
                "installing app: "@ + source
            },
        ),
        StepView::Pkg { source } => Some("installing pkg: "@ + source),
        StepView::Binary { source, .. } => Some("installing binary: "@ + source),
        StepView::Font { source } => Some("installing font: "@ + source),
        StepView::Manpage { source } => Some("installing manpage: "@ + source),
        StepView::Artifact { source, target } => Some(
            "installing artifact: "@ + source + " to "@ + target,
        ),
        StepView::Directory { folder, source } => Some(folder_text(folder) + source),
        StepView::Completion { shell, source, .. } => Some(
            (match shell {
                Shell::Bash => "installing bash completion: "@,
                Shell::Zsh => "installing zsh completion: "@,
                Shell::Fish => "installing fish completion: "@,
            }) + source,
        ),
        StepView::SkipPreflight => Some("skipping preflight script (not supported yet)"@),
        StepView::SkipPostflight => Some("skipping postflight script (not supported yet)"@),
        StepView::Nothing => None,
    }
}

pub open spec fn folder_text(f: Folder) -> Seq<char> {
    match f {
        Folder::Dictionary => "installing dictionary: "@,
        Folder::Colorpicker => "installing colorpicker: "@,
        Folder::Prefpane => "installing prefpane: "@,
        Folder::Qlplugin => "installing qlplugin: "@,
        Folder::ScreenSaver => "installing screen saver: "@,
        Folder::Service => "installing service: "@,
        Folder::Suite => "installing suite: "@,
    }
}

fn said(what: &str, source: &str) -> (r: Option<String>)
    ensures
        text::opt_view(r) == Some(what@ + source@),
{
    let mut m = String::from_str(what);
    m.append(source);
    Some(m)
}

/// What is said of a step, if anything.
pub fn step_message(s: &CaskStep) -> (r: Option<String>)
    ensures
        text::opt_view(r) == step_text(s@),
{
    match s {
        CaskStep::App { source, guessed } => if *guessed {
            said("installing guessed app: ", source.as_str())
        } else {
            said("installing app: ", source.as_str())
        },
        CaskStep::Pkg { source } => said("installing pkg: ", source.as_str()),
        CaskStep::Binary { source, .. } => said("installing binary: ", source.as_str()),
        CaskStep::Font { source } => said("installing font: ", source.as_str()),
        CaskStep::Manpage { source } => said("installing manpage: ", source.as_str()),
        CaskStep::Artifact { source, target } => {
            let mut m = String::from_str("installing artifact: ");
            m.append(source.as_str());
            m.append(" to ");
            m.append(target.as_str());
            Some(m)
        },
        CaskStep::Directory { folder, source } => match folder {
            Folder::Dictionary => said("installing dictionary: ", source.as_str()),
            Folder::Colorpicker => said("installing colorpicker: ", source.as_str()),
            Folder::Prefpane => said("installing prefpane: ", source.as_str()),
            Folder::Qlplugin => said("installing qlplugin: ", source.as_str()),
            Folder::ScreenSaver => said("installing screen saver: ", source.as_str()),
            Folder::Service => said("installing service: ", source.as_str()),
            Folder::Suite => said("installing suite: ", source.as_str()),
        },
        CaskStep::Completion { shell, source, .. } => match shell {
            Shell::Bash => said("installing bash completion: ", source.as_str()),
            Shell::Zsh => said("installing zsh completion: ", source.as_str()),
            Shell::Fish => said("installing fish completion: ", source.as_str()),
        },
        CaskStep::SkipPreflight => Some(
            String::from_str("skipping preflight script (not supported yet)"),
        ),
        CaskStep::SkipPostflight => Some(
            String::from_str("skipping postflight script (not supported yet)"),
        ),
        CaskStep::Nothing => None,
    }
}

/// Where the artifacts of a kind lie in the home directory.
pub open spec fn library_folder(f: Folder) -> Seq<char> {
    match f {
        Folder::Dictionary => "Library/Dictionaries"@,
        Folder::Colorpicker => "Library/ColorPickers"@,
        Folder::Prefpane => "Library/PreferencePanes"@,
        Folder::Qlplugin => "Library/QuickLook"@,
        Folder::ScreenSaver => "Library/Screen Savers"@,
        _ => "Library/Services"@,
    }
}

/// The directory that an artifact of a kind goes into: suites are applications,
/// and everything else belongs to the user.
pub fn folder_path(f: Folder, os: &str, home: Option<&str>) -> (r: Result<String>)
    ensures
        if f == Folder::Suite {
            if os@ == "macos"@ {
                r matches Ok(p) && p@ == "/Applications"@
            } else {
                r matches Err(WaxError::PlatformNotSupported(m)) && m@
                    == "Applications directory concept is macOS-specific"@
            }
        } else {
            match dirs::str_view(home) {
                Some(h) => r matches Ok(p) && p@ == paths::path_join(h, library_folder(f)),
                None => r matches Err(WaxError::InstallError(m)) && m@ == dirs::no_home(),
            }
        },
{
    let library = match f {
        Folder::Dictionary => "Library/Dictionaries",
        Folder::Colorpicker => "Library/ColorPickers",
        Folder::Prefpane => "Library/PreferencePanes",
        Folder::Qlplugin => "Library/QuickLook",
        Folder::ScreenSaver => "Library/Screen Savers",
        Folder::Service => "Library/Services",
        Folder::Suite => {
            return CaskInstaller::applications_dir(os);
        },
    };
    match home_dir(home) {
        Ok(h) => Ok(below(h.as_str(), library)),
        Err(e) => Err(e),
    }
}

/// The app that was installed last.
pub open spec fn last_app(s: Seq<StepView>) -> Option<Seq<char>>
    decreases s.len(),
{
    if s.len() == 0 {
        None
    } else {
        match s.last() {
            StepView::App { source, .. } => Some(source),
            _ => last_app(s.drop_last()),
        }
    }
}

fn app_installed(steps: &Vec<CaskStep>) -> (r: Option<String>)
    ensures
        text::opt_view(r) == last_app(step_views(steps@)),
{
    let ghost s = step_views(steps@);
    let mut i: usize = steps.len();
    proof {
        assert(s.take(i as int) =~= s);
    }
    while i > 0
        invariant
            i <= steps@.len(),
            s == step_views(steps@),
            last_app(s) == last_app(s.take(i as int)),
        decreases i,
    {
        proof {
            assert(s.take(i as int).last() == steps@[i - 1]@);
            assert(s.take(i as int).drop_last() =~= s.take(i - 1));
        }
        match &steps[i - 1] {
            CaskStep::App { source, .. } => {
                return Some(source.clone());
            },
            _ => {},
        }
        i = i - 1;
    }
    None
}

/// What is recorded of a cask once its steps are done.
pub fn registered(
    details: &CaskDetails,
    artifact_type: &str,
    steps: &Vec<CaskStep>,
    binary_paths: Vec<String>,
    now: i64,
) -> (r: InstalledCask)
    ensures
        r@ == (InstalledCaskView {
            name: details.token@,
            version: details.version@,
            install_date: now as int,
            artifact_type: Some(artifact_type@),
            binary_paths: if binary_paths@.len() == 0 {
                None
            } else {
                Some(text::views(binary_paths@))
            },
            app_name: last_app(step_views(steps@)),
        }),
{
    InstalledCask {
        name: details.token.clone(),
        version: details.version.clone(),
        install_date: now,
        artifact_type: Some(String::from_str(artifact_type)),
        binary_paths: if binary_paths.len() == 0 {
            None
        } else {
            Some(binary_paths)
        },
        app_name: app_installed(steps),
    }
}

// ---------------------------------------------------------------------------
// Which casks

/// The casks that were asked for, by what is done with them.
pub struct CaskRequests {
    pub to_install: Vec<String>,
    /// Those that the system's package managers are asked for.
    pub linux_installs: Vec<String>,
    pub already_installed: Vec<String>,
    pub unknown: Vec<String>,
}

/// The mathematical content of `CaskRequests`.
#[verifier::ext_equal]
pub struct CaskRequestsView {
    pub to_install: Seq<Seq<char>>,
    pub linux_installs: Seq<Seq<char>>,
    pub already_installed: Seq<Seq<char>>,
    pub unknown: Seq<Seq<char>>,
}

impl View for CaskRequests {
    type V = CaskRequestsView;

    open spec fn view(&self) -> CaskRequestsView {
        CaskRequestsView {
            to_install: text::views(self.to_install@),
            linux_installs: text::views(self.linux_installs@),
            already_installed: text::views(self.already_installed@),
            unknown: text::views(self.unknown@),
        }
    }
}

/// A `CaskRequests` is seen as what it holds.
pub proof fn cask_requests_is_seen_as_it_is(x: CaskRequests)
    ensures
        x@.to_install == text::views(x.to_install@),
        x@.linux_installs == text::views(x.linux_installs@),
        x@.already_installed == text::views(x.already_installed@),
        x@.unknown == text::views(x.unknown@),
{
}

pub open spec fn sorted_requests(
    names: Seq<Seq<char>>,
    installed: Set<Seq<char>>,
    macos: bool,
    casks: Seq<CaskView>,
) -> CaskRequestsView
    decreases names.len(),
{
    if names.len() == 0 {
        CaskRequestsView {
            to_install: Seq::empty(),
            linux_installs: Seq::empty(),
            already_installed: Seq::empty(),
            unknown: Seq::empty(),
        }
    } else {
        let s = sorted_requests(names.drop_last(), installed, macos, casks);
        let name = names.last();
        if installed.contains(name) {
            CaskRequestsView { already_installed: s.already_installed.push(name), ..s }
        } else if !macos {
            CaskRequestsView { linux_installs: s.linux_installs.push(name), ..s }
        } else if api::cask_known(casks, name) {
            CaskRequestsView { to_install: s.to_install.push(name), ..s }
        } else {
            CaskRequestsView { unknown: s.unknown.push(name), ..s }
        }
    }
}

/// Sorts the casks that were asked for: what is installed stays, on macOS those
/// that the index knows are installed, and elsewhere all are asked of the
/// system's package managers.
pub fn sort_requests(
    names: &Vec<String>,
    installed: &Table<InstalledCask>,
    macos: bool,
    casks: &Vec<Cask>,
) -> (r: CaskRequests)
    ensures
        r@ == sorted_requests(
            text::views(names@),
            installed@.dom(),
            macos,
            api::cask_views(casks@),
        ),
{
    let ghost n = text::views(names@);
    let ghost c = api::cask_views(casks@);
    let mut s = CaskRequests {
        to_install: Vec::new(),
        linux_installs: Vec::new(),
        already_installed: Vec::new(),
        unknown: Vec::new(),
    };
    proof {
        assert(s@ =~= sorted_requests(n.take(0), installed@.dom(), macos, c));
    }
    for i in 0..names.len()
        invariant
            n == text::views(names@),
            c == api::cask_views(casks@),
            s@ == sorted_requests(n.take(i as int), installed@.dom(), macos, c),
    {
        let ghost before = s@;
        proof {
            assert(n.take(i + 1).drop_last() =~= n.take(i as int));
            assert(n.take(i + 1).last() == names@[i as int]@);
        }
        let name = names[i].as_str();
        if installed.contains_key(name) {
            s.already_installed.push(names[i].clone());
            proof {
                assert(s@.already_installed =~= before.already_installed.push(names@[i as int]@));
            }
        } else if !macos {
            s.linux_installs.push(names[i].clone());
            proof {
                assert(s@.linux_installs =~= before.linux_installs.push(names@[i as int]@));
            }
        } else if has_cask(casks, name) {
            s.to_install.push(names[i].clone());
            proof {
                assert(s@.to_install =~= before.to_install.push(names@[i as int]@));
            }
        } else {
            s.unknown.push(names[i].clone());
            proof {
                assert(s@.unknown =~= before.unknown.push(names@[i as int]@));
            }
        }
        proof {
            assert(s@ =~= sorted_requests(n.take(i + 1), installed@.dom(), macos, c));
        }
    }
    proof {
        assert(n.take(n.len() as int) =~= n);
    }
    s
}

pub open spec fn has_binary(v: Seq<CaskArtifact>) -> bool {
    exists|i: int| 0 <= i < v.len() && (#[trigger] v[i]) is Binary
}

pub open spec fn has_pkg(v: Seq<CaskArtifact>) -> bool {
    exists|i: int| 0 <= i < v.len() && (#[trigger] v[i]) is Pkg
}

/// What usually comes in a disk image.
pub open spec fn imaged(a: CaskArtifact) -> bool {
    a is App || a is Suite || a is Font || a is Manpage || a is Artifact
}

pub open spec fn has_imaged(v: Seq<CaskArtifact>) -> bool {
    exists|i: int| 0 <= i < v.len() && imaged(#[trigger] v[i])
}

/// The type that a cask's artifacts suggest.
pub open spec fn inferred(artifacts: Option<Seq<CaskArtifact>>, macos: bool) -> Option<Seq<char>> {
    match artifacts {
        Some(v) => if has_pkg(v) {
            Some("pkg"@)
        } else if has_binary(v) {
            Some("binary"@)
        } else if macos && has_imaged(v) {
            Some("dmg"@)
        } else {
            None
        },
        None => None,
    }
}

fn any_binary(v: &Vec<CaskArtifact>) -> (r: bool)
    ensures
        r == has_binary(v@),
{
    for i in 0..v.len()
        invariant
            forall|j: int| 0 <= j < i ==> !((#[trigger] v@[j]) is Binary),
    {
        match &v[i] {
            CaskArtifact::Binary { .. } => {
                return true;
            },
            _ => {},
        }
    }
    false
}

fn any_pkg(v: &Vec<CaskArtifact>) -> (r: bool)
    ensures
        r == has_pkg(v@),
{
    for i in 0..v.len()
        invariant
            forall|j: int| 0 <= j < i ==> !((#[trigger] v@[j]) is Pkg),
    {
        match &v[i] {
            CaskArtifact::Pkg { .. } => {
                return true;
            },
            _ => {},
        }
    }
    false
}

fn any_imaged(v: &Vec<CaskArtifact>) -> (r: bool)
    ensures
        r == has_imaged(v@),
{
    for i in 0..v.len()
        invariant
            forall|j: int| 0 <= j < i ==> !imaged(#[trigger] v@[j]),
    {
        let found = match &v[i] {
            CaskArtifact::App { .. } => true,
            CaskArtifact::Suite { .. } => true,
            CaskArtifact::Font { .. } => true,
            CaskArtifact::Manpage { .. } => true,
            CaskArtifact::Artifact { .. } => true,
            _ => false,
        };
        if found {
            return true;
        }
    }
    false
}

/// The type that a cask's artifacts suggest.
pub fn infer_artifact_type_from_cask_artifacts(details: &CaskDetails, macos: bool) -> (r: Option<
    &'static str,
>)
    ensures
        dirs::str_view(r) == inferred(artifacts_view(details.artifacts), macos),
{
    match &details.artifacts {
        Some(v) => if any_pkg(v) {
            Some("pkg")
        } else if any_binary(v) {
            Some("binary")
        } else if macos && any_imaged(v) {
            Some("dmg")
        } else {
            None
        },
        None => None,
    }
}

/// The type of what a cask fetches: told by its address, or else by what the
/// server says of it, or else by its artifacts, where a binary counts most.
pub open spec fn type_for(
    url: Seq<char>,
    probed: Option<Seq<char>>,
    artifacts: Option<Seq<CaskArtifact>>,
    macos: bool,
) -> Option<Seq<char>> {
    if cask::artifact_type(url) is Some {
        cask::artifact_type(url)
    } else if probed is Some {
        probed
    } else if artifacts matches Some(v) && has_binary(v) {
        Some("binary"@)
    } else {
        inferred(artifacts, macos)
    }
}

/// The type of what a cask fetches, given what the server says of it.
pub fn resolve_artifact_type(details: &CaskDetails, probed: Option<&str>, macos: bool) -> (r: Result<
    String,
>)
    ensures
        match type_for(
            details.url@,
            dirs::str_view(probed),
            artifacts_view(details.artifacts),
            macos,
        ) {
            Some(t) => r matches Ok(s) && s@ == t,
            None => r matches Err(WaxError::InstallError(m)) && m@
                == "Unsupported artifact type for URL: "@ + details.url@,
        },
{
    match cask::detect_artifact_type(details.url.as_str()) {
        Some(t) => {
            return Ok(String::from_str(t));
        },
        None => {},
    }
    match probed {
        Some(t) => {
            return Ok(String::from_str(t));
        },
        None => {},
    }
    let binary = match &details.artifacts {
        Some(v) => any_binary(v),
        None => false,
    };
    if binary {
        return Ok(String::from_str("binary"));
    }
    match infer_artifact_type_from_cask_artifacts(details, macos) {
        Some(t) => Ok(String::from_str(t)),
        None => {
            let mut m = String::from_str("Unsupported artifact type for URL: ");
            m.append(details.url.as_str());
            Err(WaxError::InstallError(m))
        },
    }
}

/// Refuses to go on where no cask could be resolved and none is left for the
/// system's package managers.
pub fn check_resolved(resolved: usize, linux_installs: usize) -> (r: Result<()>)
    ensures
        if resolved == 0 && linux_installs == 0 {
            r matches Err(WaxError::InstallError(m)) && m@ == "No casks could be resolved"@
        } else {
            r is Ok
        },
{
    if resolved == 0 && linux_installs == 0 {
        Err(WaxError::InstallError(String::from_str("No casks could be resolved")))
    } else {
        Ok(())
    }
}

/// Where the installation of a cask failed.
#[derive(Debug, Clone, Copy, PartialEq, Eq, Structural)]
pub enum CaskPipelineFail {
    Download,
    Checksum,
    Install,
}

/// What is said of a cask that failed.
pub fn failure_text(fail: CaskPipelineFail, name: &str, error: &str) -> (r: String)
    ensures
        r@ == name@ + (match fail {
            CaskPipelineFail::Download => " download failed: "@,
            CaskPipelineFail::Checksum => " checksum failed: "@,
            CaskPipelineFail::Install => " failed: "@,
        }) + error@,
{
    let mut m = String::from_str(name);
    match fail {
        CaskPipelineFail::Download => m.append(" download failed: "),
        CaskPipelineFail::Checksum => m.append(" checksum failed: "),
        CaskPipelineFail::Install => m.append(" failed: "),
    }
    m.append(error);
    m
}

/// The casks that failed, of those whose installation ended.
pub open spec fn failed_names(outcomes: Seq<(Seq<char>, Option<CaskPipelineFail>)>) -> Seq<Seq<char>>
    decreases outcomes.len(),
{
    if outcomes.len() == 0 {
        Seq::empty()
    } else {
        match outcomes.last().1 {
            Some(_) => failed_names(outcomes.drop_last()).push(outcomes.last().0),
            None => failed_names(outcomes.drop_last()),
        }
    }
}

pub open spec fn outcome_views(v: Seq<(String, Option<CaskPipelineFail>)>) -> Seq<
    (Seq<char>, Option<CaskPipelineFail>),
> {
    Seq::new(v.len(), |i: int| (v[i].0@, v[i].1))
}

/// How many casks were installed, and which failed.
pub fn tally(outcomes: &Vec<(String, Option<CaskPipelineFail>)>) -> (r: (usize, Vec<String>))
    ensures
        text::views(r.1@) == failed_names(outcome_views(outcomes@)),
        r.0 + r.1@.len() == outcomes@.len(),
{
    let ghost o = outcome_views(outcomes@);
    let mut installed: usize = 0;
    let mut failed: Vec<String> = Vec::new();
    proof {
        assert(text::views(failed@) =~= failed_names(o.take(0)));
    }
    for i in 0..outcomes.len()
        invariant
            o == outcome_views(outcomes@),
            installed + failed@.len() == i,
            text::views(failed@) == failed_names(o.take(i as int)),
    {
        let ghost before = text::views(failed@);
        proof {
            assert(o.take(i + 1).drop_last() =~= o.take(i as int));
            assert(o.take(i + 1).last() == o[i as int]);
        }
        match outcomes[i].1 {
            Some(_) => {
                failed.push(outcomes[i].0.clone());
                proof {
                    assert(text::views(failed@) =~= before.push(outcomes@[i as int].0@));
                }
            },
            None => {
                installed = installed + 1;
            },
        }
    }
    proof {
        assert(o.take(o.len() as int) =~= o);
    }
    (installed, failed)
}

/// The last line of an installation of casks.
pub open spec fn summary_of(installed: nat, failed: nat, ms: nat) -> Seq<char> {
    if failed == 0 {
        text::decimal(installed) + (if installed == 1 {
            " cask"@
        } else {
            " casks"@
        }) + " installed ["@ + text::decimal(ms) + "ms]"@
    } else {
        text::decimal(installed) + "/"@ + text::decimal(installed + failed) + " casks installed ("@
            + text::decimal(failed) + " failed) ["@ + text::decimal(ms) + "ms]"@
    }
}

/// The last line of an installation of casks.
pub fn summary(installed: usize, failed: usize, ms: u128) -> (r: String)
    ensures
        r@ == summary_of(installed as nat, failed as nat, ms as nat),
{
    let mut m = number(installed as u128);
    if failed == 0 {
        if installed == 1 {
            m.append(" cask");
        } else {
            m.append(" casks");
        }
        m.append(" installed [");
    } else {
        m.append("/");
        m.append(number(installed as u128 + failed as u128).as_str());
        m.append(" casks installed (");
        m.append(number(failed as u128).as_str());
        m.append(" failed) [");
    }
    m.append(number(ms).as_str());
    m.append("ms]");
    m
}

/// What follows once the casks that were asked for are sorted.
#[derive(Debug, Clone, Copy, PartialEq, Eq, Structural)]
pub enum CaskNext {
    /// No cask is left to install.
    Nothing,
    /// It is only said that nothing is changed.
    Trial,
    Install,
}

/// What follows: a trial run installs nothing.
pub open spec fn cask_next_of(c: CaskRequestsView, dry_run: bool) -> CaskNext {
    if c.to_install.len() == 0 && c.linux_installs.len() == 0 {
        CaskNext::Nothing
    } else if dry_run {
        CaskNext::Trial
    } else {
        CaskNext::Install
    }
}

pub fn cask_next(requests: &CaskRequests, dry_run: bool) -> (r: CaskNext)
    ensures
        r == cask_next_of(requests@, dry_run),
{
    proof {
        assert(requests@.to_install.len() == requests.to_install@.len());
        assert(requests@.linux_installs.len() == requests.linux_installs@.len());
    }
    if requests.to_install.len() == 0 && requests.linux_installs.len() == 0 {
        CaskNext::Nothing
    } else if dry_run {
        CaskNext::Trial
    } else {
        CaskNext::Install
    }
}

/// The outcome of an installation of casks.
pub fn install_casks(failed: &Vec<String>) -> (r: Result<()>)
    ensures
        if failed@.len() == 0 {
            r is Ok
        } else {
            r matches Err(WaxError::InstallError(m)) && m@ == "Some casks failed: "@ + text::join(
                text::views(failed@),
                ", "@,
            )
        },
{
    if failed.len() == 0 {
        Ok(())
    } else {
        let mut m = String::from_str("Some casks failed: ");
        m.append(joined(failed, ", ").as_str());
        Err(WaxError::InstallError(m))
    }
}

/// What casks that were found without a record add to it: a record stands.
pub fn add_discovered(installed: &mut Table<InstalledCask>, found: Vec<InstalledCask>)
    requires
        old(installed).wf(),
    ensures
        final(installed).wf(),
        table::contents(*final(installed)) == with_discovered(
            table::contents(*old(installed)),
            cask_records(found@),
        ),
{
    let ghost m = table::contents(*installed);
    let ghost f = cask_records(found@);
    for c in it: found
        invariant
            installed.wf(),
            f == cask_records(it.seq()),
            table::contents(*installed) == with_discovered(m, f.take(it.index())),
    {
        let ghost so_far = table::contents(*installed);
        let ghost shown = c@;
        proof {
            assert(f.take(it.index() + 1).drop_last() =~= f.take(it.index()));
            assert(f.take(it.index() + 1).last() == shown);
        }
        let name = c.name.clone();
        installed.or_insert(name, c);
        proof {
            if !so_far.contains_key(shown.name) {
                assert(table::contents(*installed) =~= so_far.insert(shown.name, shown));
            }
        }
    }
    proof {
        assert(f.take(f.len() as int) =~= f);
    }
}

pub open spec fn cask_records(v: Seq<InstalledCask>) -> Seq<InstalledCaskView> {
    Seq::new(v.len(), |i: int| v[i]@)
}

pub open spec fn with_discovered(
    m: Map<Seq<char>, InstalledCaskView>,
    found: Seq<InstalledCaskView>,
) -> Map<Seq<char>, InstalledCaskView>
    decreases found.len(),
{
    if found.len() == 0 {
        m
    } else {
        let before = with_discovered(m, found.drop_last());
        if before.contains_key(found.last().name) {
            before
        } else {
            before.insert(found.last().name, found.last())
        }
    }
}

// ---------------------------------------------------------------------------
// Laws

/// A thing that a cask offers is installed as the kind of thing that it is, from the file
/// that it names first; where it names none, nothing is done.
pub proof fn things_are_installed_as_their_kind(v: Vec<Json>, source: Seq<char>)
    requires
        v@.len() > 0,
        json::as_text(v@[0]) == Some(source),
    ensures
        step_of(CaskArtifact::App { app: v }) == (StepView::App { source, guessed: false }),
        step_of(CaskArtifact::Pkg { pkg: v }) == (StepView::Pkg { source }),
        step_of(CaskArtifact::Font { font: v }) == (StepView::Font { source }),
        step_of(CaskArtifact::Manpage { manpage: v }) == (StepView::Manpage { source }),
        step_of(CaskArtifact::Binary { binary: v }) matches StepView::Binary { source: s, .. } && s
            == source,
        step_of(CaskArtifact::Dictionary { dictionary: v }) == (StepView::Directory {
            folder: Folder::Dictionary,
            source,
        }),
        step_of(CaskArtifact::Colorpicker { colorpicker: v }) == (StepView::Directory {
            folder: Folder::Colorpicker,
            source,
        }),
        step_of(CaskArtifact::Prefpane { prefpane: v }) == (StepView::Directory {
            folder: Folder::Prefpane,
            source,
        }),
        step_of(CaskArtifact::Qlplugin { qlplugin: v }) == (StepView::Directory {
            folder: Folder::Qlplugin,
            source,
        }),
        step_of(CaskArtifact::ScreenSaver { screen_saver: v }) == (StepView::Directory {
            folder: Folder::ScreenSaver,
            source,
        }),
        step_of(CaskArtifact::Service { service: v }) == (StepView::Directory {
            folder: Folder::Service,
            source,
        }),
        step_of(CaskArtifact::Suite { suite: v }) == (StepView::Directory {
            folder: Folder::Suite,
            source,
        }),
        step_of(
            CaskArtifact::BashCompletion { bash_completion: v },
        ) matches StepView::Completion { shell, source: s, .. } && shell == Shell::Bash && s == source,
        step_of(
            CaskArtifact::ZshCompletion { zsh_completion: v },
        ) matches StepView::Completion { shell, source: s, .. } && shell == Shell::Zsh && s == source,
        step_of(
            CaskArtifact::FishCompletion { fish_completion: v },
        ) matches StepView::Completion { shell, source: s, .. } && shell == Shell::Fish && s == source,
{
}

/// A thing without a file does nothing, and neither does what is only for removing it; a
/// script is skipped.
pub proof fn other_things_do_nothing(v: Vec<Json>, script: Json)
    requires
        v@.len() == 0 || json::as_text(v@[0]) is None,
    ensures
        step_of(CaskArtifact::App { app: v }) == StepView::Nothing,
        step_of(CaskArtifact::Pkg { pkg: v }) == StepView::Nothing,
        step_of(CaskArtifact::Binary { binary: v }) == StepView::Nothing,
        step_of(CaskArtifact::Artifact { artifact: v }) == StepView::Nothing,
        step_of(CaskArtifact::Font { font: v }) == StepView::Nothing,
        step_of(CaskArtifact::Uninstall { uninstall: v }) == StepView::Nothing,
        step_of(CaskArtifact::Zap { zap: v }) == StepView::Nothing,
        step_of(CaskArtifact::Preflight { preflight: Some(script) }) == StepView::SkipPreflight,
        step_of(CaskArtifact::Postflight { postflight: Some(script) })
            == StepView::SkipPostflight,
        step_of(CaskArtifact::Preflight { preflight: None }) == StepView::Nothing,
        step_of(CaskArtifact::Postflight { postflight: None }) == StepView::Nothing,
{
}

/// A binary, a completion and an artifact may be given another name, as the target of what
/// stands behind the file; an artifact has to be.
pub proof fn targets_rename(v: Vec<Json>, source: Seq<char>, target: Seq<char>)
    requires
        v@.len() > 0,
        json::as_text(v@[0]) == Some(source),
    ensures
        v@.len() > 1 && json::text_field(v@[1], "target"@) == Some(target) ==> step_of(
            CaskArtifact::Binary { binary: v },
        ) == (StepView::Binary { source, target: Some(target) }) && step_of(
            CaskArtifact::Artifact { artifact: v },
        ) == (StepView::Artifact { source, target }),
        v@.len() == 1 ==> step_of(CaskArtifact::Binary { binary: v }) == (StepView::Binary {
            source,
            target: None,
        }) && step_of(CaskArtifact::Artifact { artifact: v }) == StepView::Nothing,
{
}

/// The things of a cask are installed in the order in which it lists them; where it lists
/// none, an image or a zip archive gives its first app, and anything else nothing.
pub proof fn things_are_installed_in_order(
    v: Seq<CaskArtifact>,
    staged: Seq<Seq<char>>,
    kind: Seq<char>,
    app: Seq<char>,
    i: int,
)
    ensures
        cask_steps(Some(v), kind, staged).len() == v.len(),
        0 <= i < v.len() ==> cask_steps(Some(v), kind, staged)[i] == step_of(v[i]),
        (kind == "dmg"@ || kind == "zip"@) && first_app(staged) == Some(app) ==> cask_steps(
            None,
            kind,
            staged,
        ) == seq![StepView::App { source: app, guessed: true }],
        (kind == "dmg"@ || kind == "zip"@) && first_app(staged) is None ==> cask_steps(
            None,
            kind,
            staged,
        ).len() == 0,
        kind != "dmg"@ && kind != "zip"@ ==> cask_steps(None, kind, staged).len() == 0,
{
}

/// The first staged file whose name ends in that of an app is the app.
pub proof fn first_app_is_first(before: Seq<Seq<char>>, app: Seq<char>, after: Seq<Seq<char>>)
    requires
        cask::extension(app) == Some("app"@),
        forall|i: int|
            0 <= i < before.len() ==> cask::extension(#[trigger] before[i]) != Some("app"@),
    ensures
        first_app(before + seq![app] + after) == Some(app),
        first_app(before) is None,
    decreases before.len(),
{
    let all = before + seq![app] + after;
    if before.len() == 0 {
        assert(all[0] == app);
    } else {
        let t = before.skip(1);
        assert forall|i: int| 0 <= i < t.len() implies cask::extension(#[trigger] t[i]) != Some(
            "app"@,
        ) by {
            assert(t[i] == before[i + 1]);
        }
        first_app_is_first(t, app, after);
        assert(all[0] == before[0]);
        assert(all.skip(1) =~= t + seq![app] + after);
    }
}

/// The app that a cask installed is recorded: the last one, or none.
pub proof fn installed_app_is_recorded(s: Seq<StepView>, x: StepView, source: Seq<char>, guessed: bool)
    ensures
        last_app(s.push(StepView::App { source, guessed })) == Some(source),
        !(x is App) ==> last_app(s.push(x)) == last_app(s),
        last_app(Seq::empty()) is None,
{
    assert(s.push(StepView::App { source, guessed }).drop_last() =~= s);
    assert(s.push(x).drop_last() =~= s);
}

/// Each step tells what it installs, and ends with the file that it installs it from.
pub proof fn steps_tell_their_source(source: Seq<char>, target: Option<Seq<char>>, f: Folder)
    ensures
        step_text(StepView::App { source, guessed: false }) == Some("installing app: "@ + source),
        step_text(StepView::App { source, guessed: true }) == Some(
            "installing guessed app: "@ + source,
        ),
        step_text(StepView::Pkg { source }) == Some("installing pkg: "@ + source),
        step_text(StepView::Binary { source, target }) == Some("installing binary: "@ + source),
        step_text(StepView::Font { source }) == Some("installing font: "@ + source),
        step_text(StepView::Manpage { source }) == Some("installing manpage: "@ + source),
        step_text(StepView::Directory { folder: f, source }) matches Some(t) && text::ends_with(
            t,
            source,
        ),
        step_text(StepView::Completion { shell: Shell::Bash, source, target }) == Some(
            "installing bash completion: "@ + source,
        ),
        step_text(StepView::Completion { shell: Shell::Zsh, source, target }) == Some(
            "installing zsh completion: "@ + source,
        ),
        step_text(StepView::Completion { shell: Shell::Fish, source, target }) == Some(
            "installing fish completion: "@ + source,
        ),
        step_text(StepView::Nothing) is None,
{
    text::stripping_undoes_prefixing(source, folder_text(f));
}

/// Each kind of thing of the system goes to its own folder in the library, and no two kinds
/// share one.
pub proof fn folders_are_of_their_kind()
    ensures
        library_folder(Folder::Dictionary) == "Library/Dictionaries"@,
        library_folder(Folder::Colorpicker) == "Library/ColorPickers"@,
        library_folder(Folder::Prefpane) == "Library/PreferencePanes"@,
        library_folder(Folder::Qlplugin) == "Library/QuickLook"@,
        library_folder(Folder::ScreenSaver) == "Library/Screen Savers"@,
        library_folder(Folder::Service) == "Library/Services"@,
{
}

/// A cask that is asked for ends in one list: installed already, left to the system where
/// it is not macOS, known, or not known. Each list keeps its order.
pub proof fn cask_requests_are_sorted(
    names: Seq<Seq<char>>,
    installed: Set<Seq<char>>,
    macos: bool,
    casks: Seq<CaskView>,
    name: Seq<char>,
)
    ensures
        ({
            let s = sorted_requests(names, installed, macos, casks);
            let now = sorted_requests(names.push(name), installed, macos, casks);
            &&& installed.contains(name) ==> now == (CaskRequestsView {
                already_installed: s.already_installed.push(name),
                ..s
            })
            &&& !installed.contains(name) && !macos ==> now == (CaskRequestsView {
                linux_installs: s.linux_installs.push(name),
                ..s
            })
            &&& !installed.contains(name) && macos && api::cask_known(casks, name) ==> now == (
            CaskRequestsView { to_install: s.to_install.push(name), ..s })
            &&& !installed.contains(name) && macos && !api::cask_known(casks, name) ==> now == (
            CaskRequestsView { unknown: s.unknown.push(name), ..s })
        }),
        sorted_requests(Seq::empty(), installed, macos, casks).to_install.len() == 0,
        sorted_requests(Seq::empty(), installed, macos, casks).linux_installs.len() == 0,
{
    assert(names.push(name).drop_last() =~= names);
}

/// What a cask offers tells what is downloaded: a package before a binary, and an image
/// only on macOS.
pub proof fn things_tell_kinds(v: Seq<CaskArtifact>, macos: bool)
    ensures
        (exists|i: int| 0 <= i < v.len() && (#[trigger] v[i]) is Pkg) ==> inferred(Some(v), macos)
            == Some("pkg"@),
        (forall|i: int| 0 <= i < v.len() ==> !((#[trigger] v[i]) is Pkg)) && (exists|i: int|
            0 <= i < v.len() && (#[trigger] v[i]) is Binary) ==> inferred(Some(v), macos) == Some(
            "binary"@,
        ),
        (forall|i: int|
            0 <= i < v.len() ==> !((#[trigger] v[i]) is Pkg) && !(v[i] is Binary)) && (exists|
            i: int,
        |
            0 <= i < v.len() && ((#[trigger] v[i]) is App || v[i] is Suite || v[i] is Font
                || v[i] is Manpage || v[i] is Artifact)) ==> inferred(Some(v), true) == Some(
            "dmg"@,
        ) && inferred(Some(v), false) is None,
        (forall|i: int|
            0 <= i < v.len() ==> !((#[trigger] v[i]) is Pkg) && !(v[i] is Binary) && !(v[i] is App)
                && !(v[i] is Suite) && !(v[i] is Font) && !(v[i] is Manpage) && !(v[i] is Artifact))
            ==> inferred(Some(v), macos) is None,
        inferred(None, macos) is None,
{
    if forall|i: int|
        0 <= i < v.len() ==> !((#[trigger] v[i]) is Pkg) && !(v[i] is Binary) {
        assert(!has_pkg(v) && !has_binary(v));
    }
    if exists|i: int|
        0 <= i < v.len() && ((#[trigger] v[i]) is App || v[i] is Suite || v[i] is Font
            || v[i] is Manpage || v[i] is Artifact) {
        let i = choose|i: int|
            0 <= i < v.len() && ((#[trigger] v[i]) is App || v[i] is Suite || v[i] is Font
                || v[i] is Manpage || v[i] is Artifact);
        assert(imaged(v[i]));
        assert(has_imaged(v));
    }
}

/// The address of a download tells its kind before what the server says of it, and both
/// before what the cask offers.
pub proof fn addresses_tell_kinds_first(
    url: Seq<char>,
    kind: Seq<char>,
    probed: Option<Seq<char>>,
    artifacts: Option<Seq<CaskArtifact>>,
    macos: bool,
)
    ensures
        cask::artifact_type(url) is Some ==> type_for(url, probed, artifacts, macos)
            == cask::artifact_type(url),
        cask::artifact_type(url) is None ==> type_for(url, Some(kind), artifacts, macos) == Some(
            kind,
        ),
        cask::artifact_type(url) is None && (artifacts matches Some(v) && has_binary(v))
            ==> type_for(url, None, artifacts, macos) == Some("binary"@),
        cask::artifact_type(url) is None && (artifacts matches Some(v) ==> !has_binary(v))
            ==> type_for(url, None, artifacts, macos) == inferred(artifacts, macos),
{
}

/// The casks that failed are named, in their order, and no other.
pub proof fn failed_casks_are_named(
    outcomes: Seq<(Seq<char>, Option<CaskPipelineFail>)>,
    name: Seq<char>,
    fail: CaskPipelineFail,
)
    ensures
        failed_names(outcomes.push((name, Some(fail)))) == failed_names(outcomes).push(name),
        failed_names(outcomes.push((name, None))) == failed_names(outcomes),
        failed_names(Seq::empty()).len() == 0,
{
    assert(outcomes.push((name, Some(fail))).drop_last() =~= outcomes);
    assert(outcomes.push((name, None)).drop_last() =~= outcomes);
}

/// A summary begins with the number of casks that were installed, and tells the failures
/// where there are any.
pub proof fn summaries_count_casks(installed: nat, failed: nat, ms: nat)
    ensures
        text::starts_with(summary_of(installed, failed, ms), text::decimal(installed)),
        failed == 0 && installed == 1 ==> summary_of(installed, failed, ms) == text::decimal(1)
            + " cask"@ + " installed ["@ + text::decimal(ms) + "ms]"@,
        failed == 0 && installed != 1 ==> summary_of(installed, failed, ms) == text::decimal(
            installed,
        ) + " casks"@ + " installed ["@ + text::decimal(ms) + "ms]"@,
        failed > 0 ==> summary_of(installed, failed, ms) == text::decimal(installed) + "/"@
            + text::decimal(installed + failed) + " casks installed ("@ + text::decimal(failed)
            + " failed) ["@ + text::decimal(ms) + "ms]"@,
{
    let d = text::decimal(installed);
    let s = summary_of(installed, failed, ms);
    assert(s.subrange(0, d.len() as int) =~= d);
}

/// A cask that was found on the machine is added to the records under its name; one that is
/// recorded stays as it is.
pub proof fn discovered_casks_are_added(
    m: Map<Seq<char>, InstalledCaskView>,
    found: Seq<InstalledCaskView>,
    c: InstalledCaskView,
)
    ensures
        ({
            let before = with_discovered(m, found);
            let now = with_discovered(m, found.push(c));
            &&& before.contains_key(c.name) ==> now == before
            &&& !before.contains_key(c.name) ==> now == before.insert(c.name, c)
        }),
        with_discovered(m, Seq::empty()) == m,
{
    assert(found.push(c).drop_last() =~= found);
}

/// Casks are installed where there are any to install, and a trial installs none.
pub proof fn trials_install_no_casks(c: CaskRequestsView)
    ensures
        cask_next_of(c, true) != CaskNext::Install,
        c.to_install.len() > 0 || c.linux_installs.len() > 0 ==> cask_next_of(c, false)
            == CaskNext::Install && cask_next_of(c, true) == CaskNext::Trial,
        c.to_install.len() == 0 && c.linux_installs.len() == 0 ==> cask_next_of(c, false)
            == CaskNext::Nothing && cask_next_of(c, true) == CaskNext::Nothing,
{
}

}
