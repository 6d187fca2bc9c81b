//! Homebrew formulae, read from their Ruby source.
use crate::error::{Result, WaxError};
use crate::outside::{captures_in, first_match, lowercased, RegexMatch, RegexMatchView};
use crate::text::{
    begins, chars_of, ends, find, has, is, lines_of, part, pieces, put, replaced, same_str,
    string_of, trimmed,
};
use crate::{outside, text};
use vstd::prelude::*;

verus! {

#[derive(Debug, Clone, Copy, PartialEq, Eq, Structural)]
pub enum BuildSystem {
    Autotools,
    CMake,
    Meson,
    Make,
    Unknown,
}

#[derive(Debug)]
pub struct FormulaSource {
    pub url: String,
    pub sha256: String,
    pub version: String,
}

#[derive(Debug)]
pub struct ParsedFormula {
    pub name: String,
    pub desc: Option<String>,
    pub homepage: Option<String>,
    pub license: Option<String>,
    pub source: FormulaSource,
    pub runtime_dependencies: Vec<String>,
    pub build_dependencies: Vec<String>,
    pub build_system: BuildSystem,
    pub install_commands: Vec<String>,
    pub configure_args: Vec<String>,
}

/// The mathematical content of a `ParsedFormula`.
pub struct ParsedView {
    pub name: Seq<char>,
    pub desc: Option<Seq<char>>,
    pub homepage: Option<Seq<char>>,
    pub license: Option<Seq<char>>,
    pub url: Seq<char>,
    pub sha256: Seq<char>,
    pub version: Seq<char>,
    pub runtime_dependencies: Seq<Seq<char>>,
    pub build_dependencies: Seq<Seq<char>>,
    pub build_system: BuildSystem,
    pub install_commands: Seq<Seq<char>>,
    pub configure_args: Seq<Seq<char>>,
}

impl View for ParsedFormula {
    type V = ParsedView;

    open spec fn view(&self) -> ParsedView {
        ParsedView {
            name: self.name@,
            desc: text::opt_view(self.desc),
            homepage: text::opt_view(self.homepage),
            license: text::opt_view(self.license),
            url: self.source.url@,
            sha256: self.source.sha256@,
            version: self.source.version@,
            runtime_dependencies: text::views(self.runtime_dependencies@),
            build_dependencies: text::views(self.build_dependencies@),
            build_system: self.build_system,
            install_commands: text::views(self.install_commands@),
            configure_args: text::views(self.configure_args@),
        }
    }
}

/// A `ParsedFormula` is seen as what it holds.
pub proof fn parsed_formula_is_seen_as_it_is(x: ParsedFormula)
    ensures
        x@.name == x.name@,
        x@.desc == text::opt_view(x.desc),
        x@.homepage == text::opt_view(x.homepage),
        x@.license == text::opt_view(x.license),
        x@.url == x.source.url@,
        x@.sha256 == x.source.sha256@,
        x@.version == x.source.version@,
        x@.runtime_dependencies == text::views(x.runtime_dependencies@),
        x@.build_dependencies == text::views(x.build_dependencies@),
        x@.build_system == x.build_system,
        x@.install_commands == text::views(x.install_commands@),
        x@.configure_args == text::views(x.configure_args@),
{
}

// ---------------------------------------------------------------------------
// Matches

/// A group of a match, where it took part.
pub open spec fn group(m: Seq<Option<Seq<char>>>, i: int) -> Option<Seq<char>> {
    if 0 <= i < m.len() {
        m[i]
    } else {
        None
    }
}

/// The matches, none where the pattern is none.
pub open spec fn matches_or_none(m: Option<Seq<Seq<Option<Seq<char>>>>>) -> Seq<
    Seq<Option<Seq<char>>>,
> {
    match m {
        Some(x) => x,
        None => Seq::empty(),
    }
}

fn group_of(m: &Vec<Option<String>>, i: usize) -> (r: Option<String>)
    ensures
        text::opt_view(r) == group(outside::group_views(m@), i as int),
{
    if i < m.len() {
        m[i].clone()
    } else {
        None
    }
}

pub(crate) fn matches_of(pattern: &str, content: &str) -> (r: Vec<Vec<Option<String>>>)
    ensures
        outside::match_views(r@) == matches_or_none(outside::regex_captures(pattern@, content@)),
{
    match captures_in(pattern, content) {
        Some(m) => m,
        None => {
            let v: Vec<Vec<Option<String>>> = Vec::new();
            proof {
                assert(outside::match_views(v@) =~= Seq::empty());
            }
            v
        },
    }
}

/// The value of the first match that names the field.
pub open spec fn field_of(m: Seq<Seq<Option<Seq<char>>>>, field: Seq<char>) -> Option<Seq<char>>
    decreases m.len(),
{
    if m.len() == 0 {
        None
    } else if group(m[0], 1) == Some(field) && group(m[0], 2) is Some {
        group(m[0], 2)
    } else {
        field_of(m.skip(1), field)
    }
}

/// The first group of each match.
pub open spec fn first_groups(m: Seq<Seq<Option<Seq<char>>>>) -> Seq<Seq<char>>
    decreases m.len(),
{
    if m.len() == 0 {
        Seq::empty()
    } else {
        match group(m.last(), 1) {
            Some(g) => first_groups(m.drop_last()).push(g),
            None => first_groups(m.drop_last()),
        }
    }
}

/// The dependencies that are, or are not, only for the build.
pub open spec fn dependencies_of(m: Seq<Seq<Option<Seq<char>>>>, build_only: bool) -> Seq<
    Seq<char>,
>
    decreases m.len(),
{
    if m.len() == 0 {
        Seq::empty()
    } else {
        let before = dependencies_of(m.drop_last(), build_only);
        let is_build = group(m.last(), 2) == Some("build"@);
        match group(m.last(), 1) {
            Some(d) => if build_only == is_build {
                before.push(d)
            } else {
                before
            },
            None => before,
        }
    }
}

/// The names without those that are computed when the formula is run.
pub open spec fn fixed_args(args: Seq<Seq<char>>) -> Seq<Seq<char>>
    decreases args.len(),
{
    if args.len() == 0 {
        Seq::empty()
    } else if text::contains(args.last(), "#{"@) {
        fixed_args(args.drop_last())
    } else {
        fixed_args(args.drop_last()).push(args.last())
    }
}

// ---------------------------------------------------------------------------
// Patterns

pub open spec fn field_pattern() -> Seq<char> {
    "(?m)^\\s*(?P<field>url|sha256|desc|homepage|license)\\s+\"(?P<value>[^\"]+)"@
}

pub open spec fn version_pattern() -> Seq<char> {
    "(?:[-_/]|^)(?P<version>\\d+\\.\\d+(?:\\.\\d+)*(?:[_-][a-z\\d]+)*)"@
}

pub open spec fn depends_pattern() -> Seq<char> {
    "(?m)^\\s*depends_on\\s+\"(?P<dep>[^\"]+)\"(?:\\s*=>\\s*:(?P<type>\\w+))?"@
}

pub open spec fn arg_pattern() -> Seq<char> {
    "\"(?P<arg>--[a-z0-9\\-_=#{}/]+)\""@
}

pub open spec fn system_pattern() -> Seq<char> {
    "system\\s+\"(?P<cmd>[^\"]+)\""@
}

pub open spec fn shim_pattern() -> Seq<char> {
    "(?m)File\\.write\\s+(?:shimscript|\\w+),\\s*<<~([A-Z_]+)\\n"@
}

pub open spec fn shim_end_pattern(delim: Seq<char>) -> Seq<char> {
    "(?m)^\\s*"@ + delim + "$"@
}

// ---------------------------------------------------------------------------
// The install block

/// How far the install block has been read.
pub struct BlockState {
    pub started: bool,
    pub done: bool,
    pub depth: int,
    pub block: Seq<char>,
}

/// A line that opens a block of its own.
pub open spec fn opens_block(trimmed: Seq<char>) -> bool {
    text::ends_with(trimmed, " do"@) || text::contains(trimmed, " {"@) || (text::starts_with(
        trimmed,
        "def "@,
    ) && !text::starts_with(trimmed, "def install"@))
}

pub open spec fn on_block_line(s: BlockState, line: Seq<char>) -> BlockState {
    let trimmed = text::trim(line);
    if s.done {
        s
    } else if text::starts_with(trimmed, "def install"@) {
        BlockState { started: true, depth: 1, ..s }
    } else if !s.started {
        s
    } else if trimmed == "end"@ && s.depth == 1 {
        BlockState { done: true, depth: 0, ..s }
    } else {
        BlockState {
            depth: if trimmed == "end"@ {
                s.depth - 1
            } else if opens_block(trimmed) {
                s.depth + 1
            } else {
                s.depth
            },
            block: s.block + line.push('\n'),
            ..s
        }
    }
}

pub open spec fn read_block(l: Seq<Seq<char>>) -> BlockState
    decreases l.len(),
{
    if l.len() == 0 {
        BlockState { started: false, done: false, depth: 0, block: Seq::empty() }
    } else {
        on_block_line(read_block(l.drop_last()), l.last())
    }
}

/// The lines between `def install` and its `end`, if there are any.
pub open spec fn install_block(content: Seq<char>) -> Option<Seq<char>> {
    if text::contains(content, "def install"@) {
        let from = text::position(content, "def install"@);
        let b = read_block(text::lines(content.skip(from))).block;
        if b.len() > 0 {
            Some(b)
        } else {
            None
        }
    } else {
        None
    }
}

/// The build system that an install block calls.
pub open spec fn build_system_of(block: Seq<char>) -> BuildSystem {
    if text::contains(block, "./configure"@) || text::contains(block, "./bootstrap"@) {
        BuildSystem::Autotools
    } else if text::contains(block, "cmake"@) {
        BuildSystem::CMake
    } else if text::contains(block, "meson"@) {
        BuildSystem::Meson
    } else if text::contains(block, "system \"make\""@) {
        BuildSystem::Make
    } else {
        BuildSystem::Unknown
    }
}

/// What a field of a formula says.
pub open spec fn formula_field(content: Seq<char>, field: Seq<char>) -> Option<Seq<char>> {
    field_of(matches_or_none(outside::regex_captures(field_pattern(), content)), field)
}

/// The version that an address tells by the first match in its last part.
pub open spec fn version_in(m: Option<RegexMatchView>) -> Seq<char> {
    match m {
        Some(x) => match group(x.groups, 1) {
            Some(v) => v,
            None => "unknown"@,
        },
        None => "unknown"@,
    }
}

pub open spec fn url_version(url: Seq<char>) -> Seq<char> {
    version_in(outside::regex_first(version_pattern(), text::split(url, '/').last()))
}

/// What a formula's source says of it, where it has an address, a checksum and an
/// install block.
pub open spec fn parsed(name: Seq<char>, content: Seq<char>) -> Option<ParsedView> {
    match (
        formula_field(content, "url"@),
        formula_field(content, "sha256"@),
        install_block(content),
    ) {
        (Some(url), Some(sha256), Some(block)) => Some(
            ParsedView {
                name,
                desc: formula_field(content, "desc"@),
                homepage: formula_field(content, "homepage"@),
                license: formula_field(content, "license"@),
                url,
                sha256,
                version: url_version(url),
                runtime_dependencies: dependencies_of(
                    matches_or_none(outside::regex_captures(depends_pattern(), content)),
                    false,
                ),
                build_dependencies: dependencies_of(
                    matches_or_none(outside::regex_captures(depends_pattern(), content)),
                    true,
                ),
                build_system: build_system_of(block),
                install_commands: first_groups(
                    matches_or_none(outside::regex_captures(system_pattern(), block)),
                ),
                configure_args: fixed_args(
                    first_groups(matches_or_none(outside::regex_captures(arg_pattern(), block))),
                ),
            },
        ),
        _ => None,
    }
}

/// The message for a field that is missing.
pub open spec fn no_field(field: Seq<char>) -> Seq<char> {
    "Field '"@ + field + "' not found in formula"@
}

/// The message for the first thing that a formula lacks.
pub open spec fn parse_fault(content: Seq<char>) -> Seq<char> {
    if formula_field(content, "url"@) is None {
        no_field("url"@)
    } else if formula_field(content, "sha256"@) is None {
        no_field("sha256"@)
    } else {
        "Install block not found in formula"@
    }
}

/// What a first match makes of a shim script: the name of its delimiter, and the
/// text that follows.
pub open spec fn shim_start(m: Option<RegexMatchView>) -> Option<(Seq<char>, Seq<char>)> {
    match m {
        Some(x) => match group(x.groups, 1) {
            Some(d) => Some((d, x.after)),
            None => None,
        },
        None => None,
    }
}

/// The script that stands before its delimiter.
pub open spec fn shim_text(end: Option<RegexMatchView>) -> Option<Seq<char>> {
    match end {
        Some(x) => Some(text::replace(x.before, "#{appdir}"@, "/Applications"@)),
        None => None,
    }
}

pub open spec fn shimscript(content: Seq<char>) -> Option<Seq<char>> {
    match shim_start(outside::regex_first(shim_pattern(), content)) {
        Some((delim, rest)) => shim_text(outside::regex_first(shim_end_pattern(delim), rest)),
        None => None,
    }
}

pub struct FormulaParser;

impl FormulaParser {
    pub fn parse_ruby_formula(name: &str, ruby_content: &str) -> (r: Result<ParsedFormula>)
        ensures
            match parsed(name@, ruby_content@) {
                Some(p) => r matches Ok(f) && f@ == p,
                None => r matches Err(WaxError::ParseError(m)) && m@ == parse_fault(ruby_content@),
            },
    {
        let url = match Self::extract_field(ruby_content, "url") {
            Ok(u) => u,
            Err(e) => {
                return Err(e);
            },
        };
        let sha256 = match Self::extract_field(ruby_content, "sha256") {
            Ok(s) => s,
            Err(e) => {
                return Err(e);
            },
        };
        let desc = Self::extract_field(ruby_content, "desc").ok();
        let homepage = Self::extract_field(ruby_content, "homepage").ok();
        let license = Self::extract_field(ruby_content, "license").ok();
        let version = Self::extract_version_from_url(url.as_str());
        let runtime_dependencies = Self::extract_dependencies(ruby_content, false);
        let build_dependencies = Self::extract_dependencies(ruby_content, true);
        let install_block = match Self::extract_install_block(ruby_content) {
            Ok(b) => b,
            Err(e) => {
                return Err(e);
            },
        };
        let build_system = Self::detect_build_system(install_block.as_str());
        let configure_args = Self::extract_configure_args(install_block.as_str());
        let install_commands = Self::extract_install_commands(install_block.as_str());
        Ok(
            ParsedFormula {
                name: String::from_str(name),
                desc,
                homepage,
                license,
                source: FormulaSource { url, sha256, version },
                runtime_dependencies,
                build_dependencies,
                build_system,
                install_commands,
                configure_args,
            },
        )
    }

    pub fn extract_field(content: &str, field: &str) -> (r: Result<String>)
        ensures
            match formula_field(content@, field@) {
                Some(v) => r matches Ok(s) && s@ == v,
                None => r matches Err(WaxError::ParseError(m)) && m@ == no_field(field@),
            },
    {
        let m = matches_of(
            "(?m)^\\s*(?P<field>url|sha256|desc|homepage|license)\\s+\"(?P<value>[^\"]+)",
            content,
        );
        match field_in(&m, field) {
            Some(v) => Ok(v),
            None => {
                let mut e = String::from_str("Field '");
                e.append(field);
                e.append("' not found in formula");
                Err(WaxError::ParseError(e))
            },
        }
    }

    /// The version that the last part of an address tells, or "unknown".
    pub fn extract_version_from_url(url: &str) -> (r: String)
        ensures
            r@ == url_version(url@),
    {
        let c = chars_of(url);
        let p = pieces(c.as_slice(), '/');
        proof {
            assert(text::slices(p@).last() == p@.last()@);
        }
        let filename = string_of(p[p.len() - 1]);
        version_of_match(
            first_match(
                "(?:[-_/]|^)(?P<version>\\d+\\.\\d+(?:\\.\\d+)*(?:[_-][a-z\\d]+)*)",
                filename.as_str(),
            ),
        )
    }

    pub fn extract_dependencies(content: &str, build_only: bool) -> (r: Vec<String>)
        ensures
            text::views(r@) == dependencies_of(
                matches_or_none(outside::regex_captures(depends_pattern(), content@)),
                build_only,
            ),
    {
        let m = matches_of(
            "(?m)^\\s*depends_on\\s+\"(?P<dep>[^\"]+)\"(?:\\s*=>\\s*:(?P<type>\\w+))?",
            content,
        );
        dependencies_in(&m, build_only)
    }

    pub fn extract_install_block(content: &str) -> (r: Result<String>)
        ensures
            match install_block(content@) {
                Some(b) => r matches Ok(s) && s@ == b,
                None => r matches Err(WaxError::ParseError(m)) && m@
                    == "Install block not found in formula"@,
            },
    {
        let c = chars_of(content);
        let marker = chars_of("def install");
        match find(c.as_slice(), marker.as_slice()) {
            Some(start) => {
                proof {
                    text::position_is(content@, "def install"@, start as int);
                }
                let rest = part(c.as_slice(), start, c.len());
                proof {
                    assert(rest@ =~= content@.skip(start as int));
                }
                let block = block_in(rest);
                if block.len() > 0 {
                    return Ok(string_of(block.as_slice()));
                }
            },
            None => {},
        }
        Err(WaxError::ParseError(String::from_str("Install block not found in formula")))
    }

    pub fn detect_build_system(install_block: &str) -> (r: BuildSystem)
        ensures
            r == build_system_of(install_block@),
    {
        let c = chars_of(install_block);
        let b = c.as_slice();
        if has(b, "./configure") || has(b, "./bootstrap") {
            BuildSystem::Autotools
        } else if has(b, "cmake") {
            BuildSystem::CMake
        } else if has(b, "meson") {
            BuildSystem::Meson
        } else if has(b, "system \"make\"") {
            BuildSystem::Make
        } else {
            BuildSystem::Unknown
        }
    }

    /// The arguments in an install block that are fixed.
    pub fn extract_configure_args(install_block: &str) -> (r: Vec<String>)
        ensures
            text::views(r@) == fixed_args(
                first_groups(
                    matches_or_none(outside::regex_captures(arg_pattern(), install_block@)),
                ),
            ),
    {
        let m = matches_of("\"(?P<arg>--[a-z0-9\\-_=#{}/]+)\"", install_block);
        fixed_in(&groups_in(&m))
    }

    pub fn extract_install_commands(install_block: &str) -> (r: Vec<String>)
        ensures
            text::views(r@) == first_groups(
                matches_or_none(outside::regex_captures(system_pattern(), install_block@)),
            ),
    {
        let m = matches_of("system\\s+\"(?P<cmd>[^\"]+)\"", install_block);
        groups_in(&m)
    }

    /// Where a formula's source is fetched from.
    pub fn fetch_formula_rb(formula_name: &str) -> (r: Result<String>)
        ensures
            rb_url(
                r,
                formula_name@,
                "Empty formula name"@,
                "https://raw.githubusercontent.com/Homebrew/homebrew-core/master/Formula/"@,
            ),
    {
        rb_address(
            formula_name,
            "Empty formula name",
            "https://raw.githubusercontent.com/Homebrew/homebrew-core/master/Formula/",
        )
    }

    /// Where a cask's source is fetched from.
    pub fn fetch_cask_rb(cask_name: &str) -> (r: Result<String>)
        ensures
            rb_url(
                r,
                cask_name@,
                "Empty cask name"@,
                "https://raw.githubusercontent.com/Homebrew/homebrew-cask/master/Casks/"@,
            ),
    {
        rb_address(
            cask_name,
            "Empty cask name",
            "https://raw.githubusercontent.com/Homebrew/homebrew-cask/master/Casks/",
        )
    }

    /// The script that a cask writes before it is installed.
    pub fn extract_shimscript(content: &str) -> (r: Option<String>)
        ensures
            text::opt_view(r) == shimscript(content@),
    {
        let found = first_match(
            "(?m)File\\.write\\s+(?:shimscript|\\w+),\\s*<<~([A-Z_]+)\\n",
            content,
        );
        match start_of_shim(found) {
            Some((delim, rest)) => {
                let mut pattern = String::from_str("(?m)^\\s*");
                pattern.append(delim.as_str());
                pattern.append("$");
                text_of_shim(first_match(pattern.as_str(), rest.as_str()))
            },
            None => None,
        }
    }
}

/// The address of a source file: in a directory named by the first letter.
pub open spec fn rb_url(r: Result<String>, name: Seq<char>, empty: Seq<char>, base: Seq<char>) -> bool {
    if name.len() == 0 {
        r matches Err(WaxError::ParseError(m)) && m@ == empty
    } else {
        r matches Ok(u) && u@ == base + outside::lowercase(seq![name[0]]) + "/"@ + name + ".rb"@
    }
}

fn rb_address(name: &str, empty: &str, base: &str) -> (r: Result<String>)
    ensures
        rb_url(r, name@, empty@, base@),
{
    let c = chars_of(name);
    if c.len() == 0 {
        return Err(WaxError::ParseError(String::from_str(empty)));
    }
    let first = part(c.as_slice(), 0, 1);
    proof {
        assert(first@ =~= seq![name@[0]]);
    }
    let letter = lowercased(string_of(first).as_str());
    let mut u = String::from_str(base);
    u.append(letter.as_str());
    u.append("/");
    u.append(name);
    u.append(".rb");
    Ok(u)
}

/// The value of the first match that names the field.
pub fn field_in(m: &Vec<Vec<Option<String>>>, field: &str) -> (r: Option<String>)
    ensures
        text::opt_view(r) == field_of(outside::match_views(m@), field@),
{
    let ghost v = outside::match_views(m@);
    proof {
        assert(v.skip(0) =~= v);
    }
    for i in 0..m.len()
        invariant
            v == outside::match_views(m@),
            field_of(v, field@) == field_of(v.skip(i as int), field@),
    {
        proof {
            assert(v.skip(i as int)[0] == outside::group_views(m@[i as int]@));
            assert(v.skip(i as int).skip(1) =~= v.skip(i + 1));
        }
        match group_of(&m[i], 1) {
            Some(name) => {
                if same_str(name.as_str(), field) {
                    match group_of(&m[i], 2) {
                        Some(value) => {
                            return Some(value);
                        },
                        None => {},
                    }
                }
            },
            None => {},
        }
    }
    None
}

/// The first group of each match.
pub fn groups_in(m: &Vec<Vec<Option<String>>>) -> (r: Vec<String>)
    ensures
        text::views(r@) == first_groups(outside::match_views(m@)),
{
    let ghost v = outside::match_views(m@);
    let mut out: Vec<String> = Vec::new();
    proof {
        assert(text::views(out@) =~= first_groups(v.take(0)));
    }
    for i in 0..m.len()
        invariant
            v == outside::match_views(m@),
            text::views(out@) == first_groups(v.take(i as int)),
    {
        let ghost before = text::views(out@);
        proof {
            assert(v.take(i + 1).drop_last() =~= v.take(i as int));
            assert(v.take(i + 1).last() == outside::group_views(m@[i as int]@));
        }
        match group_of(&m[i], 1) {
            Some(g) => {
                out.push(g);
                proof {
                    assert(text::views(out@) =~= before.push(g@));
                }
            },
            None => {},
        }
    }
    proof {
        assert(v.take(v.len() as int) =~= v);
    }
    out
}

/// The dependencies that are, or are not, only for the build.
pub fn dependencies_in(m: &Vec<Vec<Option<String>>>, build_only: bool) -> (r: Vec<String>)
    ensures
        text::views(r@) == dependencies_of(outside::match_views(m@), build_only),
{
    let ghost v = outside::match_views(m@);
    let mut out: Vec<String> = Vec::new();
    proof {
        assert(text::views(out@) =~= dependencies_of(v.take(0), build_only));
    }
    for i in 0..m.len()
        invariant
            v == outside::match_views(m@),
            text::views(out@) == dependencies_of(v.take(i as int), build_only),
    {
        let ghost before = text::views(out@);
        proof {
            assert(v.take(i + 1).drop_last() =~= v.take(i as int));
            assert(v.take(i + 1).last() == outside::group_views(m@[i as int]@));
        }
        let is_build = match group_of(&m[i], 2) {
            Some(t) => same_str(t.as_str(), "build"),
            None => false,
        };
        match group_of(&m[i], 1) {
            Some(d) => {
                if build_only == is_build {
                    out.push(d);
                    proof {
                        assert(text::views(out@) =~= before.push(d@));
                    }
                }
            },
            None => {},
        }
    }
    proof {
        assert(v.take(v.len() as int) =~= v);
    }
    out
}

/// The names without those that are computed when the formula is run.
pub fn fixed_in(args: &Vec<String>) -> (r: Vec<String>)
    ensures
        text::views(r@) == fixed_args(text::views(args@)),
{
    let ghost v = text::views(args@);
    let mut out: Vec<String> = Vec::new();
    proof {
        assert(text::views(out@) =~= fixed_args(v.take(0)));
    }
    for i in 0..args.len()
        invariant
            v == text::views(args@),
            text::views(out@) == fixed_args(v.take(i as int)),
    {
        let ghost before = text::views(out@);
        proof {
            assert(v.take(i + 1).drop_last() =~= v.take(i as int));
            assert(v.take(i + 1).last() == args@[i as int]@);
        }
        let c = chars_of(args[i].as_str());
        let computed = has(c.as_slice(), "#{");
        if !computed {
            out.push(args[i].clone());
            proof {
                assert(text::views(out@) =~= before.push(args@[i as int]@));
            }
        }
    }
    proof {
        assert(v.take(v.len() as int) =~= v);
    }
    out
}

/// The version that a match tells, or "unknown".
pub fn version_of_match(m: Option<RegexMatch>) -> (r: String)
    ensures
        r@ == version_in(outside::match_view(m)),
{
    match m {
        Some(x) => match group_of(&x.groups, 1) {
            Some(v) => v,
            None => String::from_str("unknown"),
        },
        None => String::from_str("unknown"),
    }
}

/// The delimiter of a shim script, and the text that follows its start.
pub fn start_of_shim(m: Option<RegexMatch>) -> (r: Option<(String, String)>)
    ensures
        match r {
            Some((d, t)) => shim_start(outside::match_view(m)) == Some((d@, t@)),
            None => shim_start(outside::match_view(m)) is None,
        },
{
    match m {
        Some(x) => match group_of(&x.groups, 1) {
            Some(d) => Some((d, x.after)),
            None => None,
        },
        None => None,
    }
}

/// The script that stands before the match of its delimiter.
pub fn text_of_shim(end: Option<RegexMatch>) -> (r: Option<String>)
    ensures
        text::opt_view(r) == shim_text(outside::match_view(end)),
{
    match end {
        Some(x) => {
            let script = chars_of(x.before.as_str());
            let from = chars_of("#{appdir}");
            let to = chars_of("/Applications");
            proof {
                reveal_strlit("#{appdir}");
            }
            let out = replaced(script.as_slice(), from.as_slice(), to.as_slice());
            Some(string_of(out.as_slice()))
        },
        None => None,
    }
}

fn opens(trimmed: &[char]) -> (r: bool)
    ensures
        r == opens_block(trimmed@),
{
    ends(trimmed, " do") || has(trimmed, " {") || (begins(trimmed, "def ") && !begins(
        trimmed,
        "def install",
    ))
}

fn block_in(content: &[char]) -> (r: Vec<char>)
    ensures
        r@ == read_block(text::lines(content@)).block,
{
    let l = lines_of(content);
    let ghost s = text::slices(l@);
    let mut block: Vec<char> = Vec::new();
    let mut started = false;
    let mut done = false;
    let mut depth: usize = 0;
    proof {
        assert(block@ =~= Seq::<char>::empty());
    }
    for i in 0..l.len()
        invariant
            s == text::slices(l@),
            depth <= i,
            started && !done ==> depth >= 1,
            read_block(s.take(i as int)) == (BlockState {
                started,
                done,
                depth: depth as int,
                block: block@,
            }),
    {
        let ghost before = block@;
        proof {
            assert(s.take(i + 1).drop_last() =~= s.take(i as int));
            assert(s.take(i + 1).last() == l@[i as int]@);
        }
        if !done {
            let t = trimmed(l[i]);
            if begins(t, "def install") {
                started = true;
                depth = 1;
            } else if started {
                let end = is(t, "end");
                if end && depth == 1 {
                    done = true;
                    depth = 0;
                } else {
                    if end {
                        depth = depth - 1;
                    } else if opens(t) {
                        depth = depth + 1;
                    }
                    put(&mut block, l[i]);
                    block.push('\n');
                    proof {
                        assert(block@ =~= before + l@[i as int]@.push('\n'));
                    }
                }
            }
        }
    }
    proof {
        assert(s.take(s.len() as int) =~= s);
    }
    block
}

// ---------------------------------------------------------------------------
// Laws

/// A build system is told by what its install block calls: autotools by a configure
/// or bootstrap script whatever else is there, then CMake, then Meson, and make only
/// where it is run and none of the others is named.
pub proof fn build_systems_are_told_apart(block: Seq<char>)
    ensures
        ({
            let scripts = text::contains(block, "./configure"@) || text::contains(
                block,
                "./bootstrap"@,
            );
            let cmake = text::contains(block, "cmake"@);
            let meson = text::contains(block, "meson"@);
            let make = text::contains(block, "system \"make\""@);
            &&& scripts <==> build_system_of(block) == BuildSystem::Autotools
            &&& !scripts && cmake <==> build_system_of(block) == BuildSystem::CMake
            &&& !scripts && !cmake && meson <==> build_system_of(block) == BuildSystem::Meson
            &&& build_system_of(block) == BuildSystem::Make ==> make && !meson
            &&& make && !scripts && !cmake && !meson ==> build_system_of(block)
                == BuildSystem::Make
            &&& build_system_of(block) == BuildSystem::Unknown ==> !scripts && !cmake && !meson
                && !make
        }),
{
}

/// The match at `i` names the field and gives a value.
pub open spec fn gives(m: Seq<Seq<Option<Seq<char>>>>, field: Seq<char>, i: int) -> bool {
    0 <= i < m.len() && m[i].len() > 2 && m[i][1] == Some(field) && m[i][2] is Some
}

/// The value of a field is that of the first match that names it; a field that no
/// match names has none.
pub proof fn first_value_counts(m: Seq<Seq<Option<Seq<char>>>>, field: Seq<char>, i: int)
    ensures
        gives(m, field, i) && (forall|j: int| 0 <= j < i ==> !gives(m, field, j)) ==> field_of(
            m,
            field,
        ) == m[i][2],
        (forall|j: int| !gives(m, field, j)) ==> field_of(m, field) is None,
    decreases m.len(),
{
    if m.len() > 0 {
        let rest = m.skip(1);
        assert(gives(m, field, 0) == (group(m[0], 1) == Some(field) && group(m[0], 2) is Some));
        assert forall|j: int| j != -1 implies gives(rest, field, j) == #[trigger] gives(
            m,
            field,
            j + 1,
        ) by {
            if 0 <= j < rest.len() {
                assert(rest[j] == m[j + 1]);
            }
        }
        first_value_counts(rest, field, i - 1);
        if gives(m, field, i) && i > 0 && (forall|j: int| 0 <= j < i ==> !gives(m, field, j)) {
            assert(!gives(m, field, 0));
            assert(gives(rest, field, i - 1)) by {
                assert(rest[i - 1] == m[i]);
            }
            assert forall|j: int| 0 <= j < i - 1 implies !gives(rest, field, j) by {
                assert(gives(rest, field, j) == gives(m, field, j + 1));
            }
        }
        if forall|j: int| !gives(m, field, j) {
            assert(!gives(m, field, 0));
            assert forall|j: int| !gives(rest, field, j) by {
                if gives(rest, field, j) {
                    assert(gives(m, field, j + 1));
                }
            }
        }
    } else {
        assert(!gives(m, field, i));
    }
}

/// The match at `i` names the dependency.
pub open spec fn names_dependency(
    m: Seq<Seq<Option<Seq<char>>>>,
    d: Seq<char>,
    build: bool,
    i: int,
) -> bool {
    &&& 0 <= i < m.len()
    &&& m[i].len() > 1
    &&& m[i][1] == Some(d)
    &&& build == (m[i].len() > 2 && m[i][2] == Some("build"@))
}

/// A dependency is one of the build alone exactly where it is marked so: each is
/// among those of its kind, and none is among them that is not named.
pub proof fn dependencies_are_of_their_kind(
    m: Seq<Seq<Option<Seq<char>>>>,
    build: bool,
    d: Seq<char>,
)
    ensures
        dependencies_of(m, build).contains(d) <==> exists|i: int| names_dependency(m, d, build, i),
    decreases m.len(),
{
    let now = dependencies_of(m, build);
    if m.len() > 0 {
        let rest = m.drop_last();
        let last = m.len() - 1;
        let before = dependencies_of(rest, build);
        dependencies_are_of_their_kind(rest, build, d);
        assert(m[last] == m.last());
        assert forall|i: int| i != last implies names_dependency(m, d, build, i)
            == names_dependency(rest, d, build, i) by {
            if 0 <= i < rest.len() {
                assert(rest[i] == m[i]);
            }
        }
        if exists|i: int| names_dependency(rest, d, build, i) {
            let i = choose|i: int| names_dependency(rest, d, build, i);
            assert(names_dependency(m, d, build, i));
        }
        if names_dependency(m, d, build, last) {
            assert(now[before.len() as int] == d);
        }
        if before.contains(d) {
            let i = choose|i: int| 0 <= i < before.len() && before[i] == d;
            assert(now[i] == d);
        }
        if now.contains(d) && !before.contains(d) {
            let i = choose|i: int| 0 <= i < now.len() && now[i] == d;
            assert(i == before.len()) by {
                if i < before.len() {
                    assert(before[i] == d);
                }
            }
            assert(names_dependency(m, d, build, last));
        }
        if exists|i: int| names_dependency(m, d, build, i) {
            let i = choose|i: int| names_dependency(m, d, build, i);
            if i != last {
                assert(names_dependency(rest, d, build, i));
            }
        }
    } else {
        assert forall|i: int| !names_dependency(m, d, build, i) by {}
    }
}

/// Dependencies keep their order.
pub proof fn dependencies_keep_their_order(
    m: Seq<Seq<Option<Seq<char>>>>,
    more: Seq<Seq<Option<Seq<char>>>>,
    build: bool,
)
    ensures
        dependencies_of(m + more, build) == dependencies_of(m, build) + dependencies_of(more, build),
        first_groups(m + more) == first_groups(m) + first_groups(more),
    decreases more.len(),
{
    if more.len() == 0 {
        assert(m + more =~= m);
        assert(dependencies_of(m, build) + dependencies_of(more, build) =~= dependencies_of(
            m,
            build,
        ));
        assert(first_groups(m) + first_groups(more) =~= first_groups(m));
    } else {
        assert((m + more).drop_last() =~= m + more.drop_last());
        assert((m + more).last() == more.last());
        dependencies_keep_their_order(m, more.drop_last(), build);
        assert(dependencies_of(m + more, build) =~= dependencies_of(m, build) + dependencies_of(
            more,
            build,
        ));
        assert(first_groups(m + more) =~= first_groups(m) + first_groups(more));
    }
}

/// What stands in the first group of a match is taken.
pub proof fn first_groups_are_taken(x: Seq<Option<Seq<char>>>, g: Seq<char>)
    ensures
        x.len() > 1 && x[1] == Some(g) ==> first_groups(seq![x]) == seq![g],
        x.len() < 2 || x[1] is None ==> first_groups(seq![x]) == Seq::<Seq<char>>::empty(),
{
    assert(seq![x].drop_last() =~= Seq::<Seq<Option<Seq<char>>>>::empty());
    assert(first_groups(Seq::<Seq<Option<Seq<char>>>>::empty()) =~= Seq::<Seq<char>>::empty());
    assert(seq![x].last() == x);
    if x.len() > 1 && x[1] == Some(g) {
        assert(first_groups(seq![x]) =~= seq![g]);
    }
}

/// An argument is kept exactly where nothing in it is computed; arguments keep their
/// order.
pub proof fn fixed_arguments_are_kept(args: Seq<Seq<char>>, a: Seq<char>)
    ensures
        fixed_args(args.push(a)) == if text::contains(a, "#{"@) {
            fixed_args(args)
        } else {
            fixed_args(args).push(a)
        },
        fixed_args(Seq::empty()) == Seq::<Seq<char>>::empty(),
{
    assert(args.push(a).drop_last() =~= args);
}

/// How many blocks lines leave open: each that ends in " do", holds " {" or begins
/// with "def " opens one, and each "end" closes one.
pub open spec fn left_open(l: Seq<Seq<char>>) -> int
    decreases l.len(),
{
    if l.len() == 0 {
        0
    } else {
        let t = text::trim(l.last());
        left_open(l.drop_last()) + if t == "end"@ {
            -1int
        } else if text::ends_with(t, " do"@) || text::contains(t, " {"@) || text::starts_with(
            t,
            "def "@,
        ) {
            1int
        } else {
            0int
        }
    }
}

/// The lines of a body: none of them begins another `def install`, and none closes a
/// block that the body did not open.
pub open spec fn is_body(l: Seq<Seq<char>>) -> bool {
    &&& forall|i: int|
        0 <= i < l.len() ==> !text::starts_with(text::trim(#[trigger] l[i]), "def install"@)
    &&& forall|n: int| 0 <= n <= l.len() ==> left_open(#[trigger] l.take(n)) >= 0
}

proof fn body_is_read(head: Seq<char>, body: Seq<Seq<char>>)
    requires
        text::starts_with(text::trim(head), "def install"@),
        is_body(body),
    ensures
        read_block(seq![head] + body) == (BlockState {
            started: true,
            done: false,
            depth: 1 + left_open(body),
            block: text::written(body),
        }),
    decreases body.len(),
{
    let all = seq![head] + body;
    if body.len() == 0 {
        assert(all.drop_last() =~= Seq::<Seq<char>>::empty());
        assert(all.last() == head);
        assert(read_block(Seq::<Seq<char>>::empty()).block =~= Seq::<char>::empty());
        assert(text::written(body) =~= Seq::<char>::empty());
    } else {
        let before = body.drop_last();
        assert(all.drop_last() =~= seq![head] + before);
        assert(all.last() == body.last());
        assert forall|i: int| 0 <= i < before.len() implies !text::starts_with(
            text::trim(#[trigger] before[i]),
            "def install"@,
        ) by {
            assert(before[i] == body[i]);
        }
        assert forall|n: int| 0 <= n <= before.len() implies left_open(
            #[trigger] before.take(n),
        ) >= 0 by {
            assert(before.take(n) =~= body.take(n));
        }
        body_is_read(head, before);
        assert(body.take(body.len() as int) =~= body);
        assert(left_open(body) >= 0);
        assert(body.take(body.len() - 1) =~= before);
        assert(!text::starts_with(text::trim(body[body.len() - 1]), "def install"@));
    }
}

proof fn block_is_done(l: Seq<Seq<char>>, rest: Seq<Seq<char>>)
    requires
        read_block(l).done,
    ensures
        read_block(l + rest) == read_block(l),
    decreases rest.len(),
{
    if rest.len() == 0 {
        assert(l + rest =~= l);
    } else {
        assert((l + rest).drop_last() =~= l + rest.drop_last());
        block_is_done(l, rest.drop_last());
    }
}

/// The install block is the lines between `def install` and the `end` that closes it,
/// whatever follows, with the blocks that stand inside.
pub proof fn install_block_is_read(
    before: Seq<char>,
    body: Seq<Seq<char>>,
    head: Seq<char>,
    end: Seq<char>,
    rest: Seq<Seq<char>>,
)
    requires
        text::starts_with(head, "def install"@),
        text::starts_with(text::trim(head), "def install"@),
        text::trim(end) == "end"@,
        is_body(body),
        left_open(body) == 0,
        body.len() > 0,
        ({
            let l = seq![head] + body + seq![end] + rest;
            &&& forall|i: int| 0 <= i < l.len() ==> text::is_line(#[trigger] l[i])
            &&& text::first_at(before + text::written(l), "def install"@, before.len() as int)
        }),
    ensures
        install_block(before + text::written(seq![head] + body + seq![end] + rest)) == Some(
            text::written(body),
        ),
{
    let l = seq![head] + body + seq![end] + rest;
    let content = before + text::written(l);
    text::position_is(content, "def install"@, before.len() as int);
    assert(content.skip(before.len() as int) =~= text::written(l));
    text::lines_are_read_back(l);
    body_is_read(head, body);
    let first = seq![head] + body + seq![end];
    assert(first.drop_last() =~= seq![head] + body);
    assert(first.last() == end);
    reveal_strlit("end");
    reveal_strlit("def install");
    assert(!text::starts_with("end"@, "def install"@)) by {
        assert("end"@.len() == 3 && "def install"@.len() == 11);
    }
    assert(read_block(first).done);
    block_is_done(first, rest);
    assert(first + rest =~= l);
    assert(text::written(body).len() > 0) by {
        assert(text::written(body).last() == '\n');
    }
}

/// Without `def install` there is no install block.
pub proof fn no_install_block(content: Seq<char>)
    requires
        !text::contains(content, "def install"@),
    ensures
        install_block(content) is None,
{
}

/// A formula is read where it has an address, a checksum and an install block; each of
/// its parts is that of its name, and the block tells the rest.
pub proof fn formulae_are_read(name: Seq<char>, content: Seq<char>, block: Seq<char>)
    requires
        install_block(content) == Some(block),
    ensures
        parsed(name, content) is Some <==> formula_field(content, "url"@) is Some
            && formula_field(content, "sha256"@) is Some,
        parsed(name, content) matches Some(p) ==> {
            &&& p.name == name
            &&& Some(p.url) == formula_field(content, "url"@)
            &&& Some(p.sha256) == formula_field(content, "sha256"@)
            &&& p.desc == formula_field(content, "desc"@)
            &&& p.homepage == formula_field(content, "homepage"@)
            &&& p.license == formula_field(content, "license"@)
            &&& p.version == url_version(p.url)
            &&& p.build_system == build_system_of(block)
        },
{
}

/// What a formula lacks is told, the address before the checksum, and both before the
/// install block.
pub proof fn faults_are_told(name: Seq<char>, content: Seq<char>)
    ensures
        formula_field(content, "url"@) is None ==> parsed(name, content) is None && parse_fault(
            content,
        ) == "Field 'url' not found in formula"@,
        formula_field(content, "url"@) is Some && formula_field(content, "sha256"@) is None
            ==> parsed(name, content) is None && parse_fault(content)
            == "Field 'sha256' not found in formula"@,
        formula_field(content, "url"@) is Some && formula_field(content, "sha256"@) is Some
            && install_block(content) is None ==> parsed(name, content) is None && parse_fault(
            content,
        ) == "Install block not found in formula"@,
{
    reveal_strlit("Field '");
    reveal_strlit("' not found in formula");
    reveal_strlit("url");
    reveal_strlit("sha256");
    reveal_strlit("Field 'url' not found in formula");
    reveal_strlit("Field 'sha256' not found in formula");
    assert(no_field("url"@) =~= "Field 'url' not found in formula"@);
    assert(no_field("sha256"@) =~= "Field 'sha256' not found in formula"@);
}

/// A version is what the match tells; where nothing matches it is not known.
pub proof fn versions_are_matched(m: RegexMatchView, v: Seq<char>)
    ensures
        version_in(None) == "unknown"@,
        m.groups.len() > 1 && m.groups[1] == Some(v) ==> version_in(Some(m)) == v,
        m.groups.len() < 2 || m.groups[1] is None ==> version_in(Some(m)) == "unknown"@,
{
}

/// A shim script is what stands before the delimiter that its start names, with the
/// directory of apps in place of its variable.
pub proof fn shims_stand_before_their_end(
    start: RegexMatchView,
    delim: Seq<char>,
    end: RegexMatchView,
    a: Seq<char>,
    b: Seq<char>,
)
    ensures
        shim_start(None) is None,
        shim_text(None) is None,
        start.groups.len() > 1 && start.groups[1] == Some(delim) ==> shim_start(Some(start)) == Some(
            (delim, start.after),
        ),
        !text::contains(end.before, "#{appdir}"@) ==> shim_text(Some(end)) == Some(end.before),
        end.before == a + "#{appdir}"@ + b && text::first_at(
            end.before,
            "#{appdir}"@,
            a.len() as int,
        ) && !text::contains(b, "#{appdir}"@) ==> shim_text(Some(end)) == Some(
            a + "/Applications"@ + b,
        ),
{
    reveal_strlit("#{appdir}");
    let from = "#{appdir}"@;
    let to = "/Applications"@;
    if !text::contains(end.before, from) {
        text::replacing_nothing(end.before, from, to);
    }
    if end.before == a + from + b && text::first_at(end.before, from, a.len() as int)
        && !text::contains(b, from) {
        text::replacing_the_first(a, from, b, to);
        text::replacing_nothing(b, from, to);
    }
}

/// The source of a package stands in the directory of its first letter, in lower
/// case, under its own name.
pub proof fn sources_stand_under_their_letter(
    r: Result<String>,
    name: Seq<char>,
    empty: Seq<char>,
    base: Seq<char>,
)
    requires
        rb_url(r, name, empty, base),
    ensures
        r is Ok <==> name.len() > 0,
        r matches Ok(u) ==> text::starts_with(u@, base) && text::ends_with(
            u@,
            "/"@ + name + ".rb"@,
        ) && u@.len() == base.len() + outside::lowercase(name.take(1)).len() + name.len() + 4
            && u@.subrange(
            base.len() as int,
            (base.len() + outside::lowercase(name.take(1)).len()) as int,
        ) == outside::lowercase(name.take(1)),
        r matches Err(e) ==> (e matches WaxError::ParseError(m) && m@ == empty),
{
    if r is Ok {
        let u = r->Ok_0@;
        let first = outside::lowercase(seq![name[0]]);
        assert(name.take(1) =~= seq![name[0]]);
        let end = "/"@ + name + ".rb"@;
        assert(u =~= base + first + end);
        assert(u.subrange(0, base.len() as int) =~= base);
        text::stripping_undoes_prefixing(end, base + first);
        assert(u.subrange(base.len() as int, (base.len() + first.len()) as int) =~= first);
        reveal_strlit("/");
        reveal_strlit(".rb");
    }
}

/// The patterns by which a formula is read: a field with its value in quotes, a version in
/// an address, a dependency with its kind, a flag, a command and a script that is written.
pub proof fn patterns_are_fixed(delim: Seq<char>)
    ensures
        field_pattern() == "(?m)^\\s*(?P<field>url|sha256|desc|homepage|license)\\s+\"(?P<value>[^\"]+)"@,
        version_pattern() == "(?:[-_/]|^)(?P<version>\\d+\\.\\d+(?:\\.\\d+)*(?:[_-][a-z\\d]+)*)"@,
        depends_pattern() == "(?m)^\\s*depends_on\\s+\"(?P<dep>[^\"]+)\"(?:\\s*=>\\s*:(?P<type>\\w+))?"@,
        arg_pattern() == "\"(?P<arg>--[a-z0-9\\-_=#{}/]+)\""@,
        system_pattern() == "system\\s+\"(?P<cmd>[^\"]+)\""@,
        shim_pattern() == "(?m)File\\.write\\s+(?:shimscript|\\w+),\\s*<<~([A-Z_]+)\\n"@,
        shim_end_pattern(delim) == "(?m)^\\s*"@ + delim + "$"@,
{
}

/// A field that is missing is told by its name.
pub proof fn missing_fields_are_named(field: Seq<char>)
    ensures
        no_field(field) == "Field '"@ + field + "' not found in formula"@,
{
}

}
