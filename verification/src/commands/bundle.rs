//! Bundles: lists of what is to be installed, as a Waxfile or a Brewfile.
use crate::cask::InstalledCask;
use crate::commands::reinstall;
use crate::commands::reinstall::sorted_names;
use crate::error::{Result, WaxError};
use crate::install::InstalledPackage;
use crate::outside::lossy_text;
use crate::table::Table;
use crate::text::{
    begins, chars_of, copied, find, is, lines_of, number, part, pieces, signed_number,
    space_place, string_of, trimmed, trimmed_start,
};
use crate::timing::{elapsed_suffix, Timing};
use crate::ui::dirs;
use crate::{cask, order, outside, text, timing};
use vstd::prelude::*;

verus! {

/// How many of the things in a bundle were installed, failed, or were there
/// already.
#[derive(Debug, Clone, Copy)]
pub struct BundleStats {
    pub success: usize,
    pub failed: usize,
    pub skipped: usize,
}

impl Default for BundleStats {
    fn default() -> (r: Self)
        ensures
            r.success == 0,
            r.failed == 0,
            r.skipped == 0,
    {
        BundleStats { success: 0, failed: 0, skipped: 0 }
    }
}

/// What became of a part of a bundle.
#[derive(Debug, Clone, Copy, PartialEq, Eq, Structural)]
pub enum BundleOutcome {
    Installed,
    Skipped,
    Failed,
}

impl BundleStats {
    /// Counts what became of so many things.
    pub fn record(&mut self, outcome: BundleOutcome, count: usize)
        requires
            old(self).success + old(self).failed + old(self).skipped + count <= usize::MAX,
        ensures
            *final(self) == match outcome {
                BundleOutcome::Installed => BundleStats {
                    success: (old(self).success + count) as usize,
                    ..*old(self)
                },
                BundleOutcome::Skipped => BundleStats {
                    skipped: (old(self).skipped + count) as usize,
                    ..*old(self)
                },
                BundleOutcome::Failed => BundleStats {
                    failed: (old(self).failed + count) as usize,
                    ..*old(self)
                },
            },
    {
        match outcome {
            BundleOutcome::Installed => {
                self.success = self.success + count;
            },
            BundleOutcome::Skipped => {
                self.skipped = self.skipped + count;
            },
            BundleOutcome::Failed => {
                self.failed = self.failed + count;
            },
        }
    }

    /// The last line of a bundle.
    pub fn summary(&self, timing: &Timing, ms: u128) -> (r: String)
        ensures
            r@ == text::decimal(self.success as nat) + " installed, "@ + (if self.failed == 0 {
                ""@
            } else {
                text::decimal(self.failed as nat) + " failed, "@
            }) + text::decimal(self.skipped as nat) + " skipped"@ + (if timing.show {
                timing::shown_time(ms as nat)
            } else {
                Seq::empty()
            }),
    {
        let mut m = number(self.success as u128);
        m.append(" installed, ");
        if self.failed == 0 {
            m.append("");
        } else {
            let mut f = number(self.failed as u128);
            f.append(" failed, ");
            m.append(f.as_str());
        }
        m.append(number(self.skipped as u128).as_str());
        m.append(" skipped");
        m.append(elapsed_suffix(timing, ms).as_str());
        m
    }
}

/// A thing to be installed.
#[derive(Debug)]
pub enum BundleEntry {
    Simple(String),
    Detailed { name: String, version: Option<String>, args: Option<Vec<String>> },
}

/// The mathematical content of a `BundleEntry`.
pub enum EntryView {
    Simple(Seq<char>),
    Detailed { name: Seq<char>, version: Option<Seq<char>>, args: Option<Seq<Seq<char>>> },
}

impl View for BundleEntry {
    type V = EntryView;

    open spec fn view(&self) -> EntryView {
        match *self {
            BundleEntry::Simple(s) => EntryView::Simple(s@),
            BundleEntry::Detailed { name, version, args } => EntryView::Detailed {
                name: name@,
                version: text::opt_view(version),
                args: cask::opt_views(args),
            },
        }
    }
}

/// A `BundleEntry` is seen as what it holds.
pub proof fn bundle_entry_is_seen_as_it_is(x: BundleEntry)
    ensures
        x matches BundleEntry::Simple(s) ==> x@ == (EntryView::Simple(s@)),
        x matches BundleEntry::Detailed { name, version, args } ==> x@ == (EntryView::Detailed {
            name: name@,
            version: text::opt_view(version),
            args: cask::opt_views(args),
        }),
{
}

impl EntryView {
    pub open spec fn name(self) -> Seq<char> {
        match self {
            EntryView::Simple(s) => s,
            EntryView::Detailed { name, .. } => name,
        }
    }

    pub open spec fn version(self) -> Option<Seq<char>> {
        match self {
            EntryView::Simple(_) => None,
            EntryView::Detailed { version, .. } => version,
        }
    }

    pub open spec fn args(self) -> Option<Seq<Seq<char>>> {
        match self {
            EntryView::Simple(_) => None,
            EntryView::Detailed { args, .. } => args,
        }
    }
}

impl BundleEntry {
    pub fn name(&self) -> (r: &str)
        ensures
            r@ == self@.name(),
    {
        match self {
            BundleEntry::Simple(s) => s.as_str(),
            BundleEntry::Detailed { name, .. } => name.as_str(),
        }
    }

    pub fn version(&self) -> (r: Option<&str>)
        ensures
            dirs::str_view(r) == self@.version(),
    {
        match self {
            BundleEntry::Simple(_) => None,
            BundleEntry::Detailed { version, .. } => match version {
                Some(v) => Some(v.as_str()),
                None => None,
            },
        }
    }

    pub fn args(&self) -> (r: Option<&Vec<String>>)
        ensures
            match r {
                Some(v) => self@.args() == Some(text::views(v@)),
                None => self@.args() is None,
            },
    {
        match self {
            BundleEntry::Simple(_) => None,
            BundleEntry::Detailed { args, .. } => match args {
                Some(v) => Some(v),
                None => None,
            },
        }
    }
}

/// What is to be installed.
#[derive(Debug)]
pub struct Waxfile {
    pub tap: Vec<String>,
    pub brew: Vec<BundleEntry>,
    pub cask: Vec<BundleEntry>,
    pub cargo: Vec<BundleEntry>,
    pub uv: Vec<BundleEntry>,
}

/// The mathematical content of a `Waxfile`.
#[verifier::ext_equal]
pub struct WaxfileView {
    pub tap: Seq<Seq<char>>,
    pub brew: Seq<EntryView>,
    pub cask: Seq<EntryView>,
    pub cargo: Seq<EntryView>,
    pub uv: Seq<EntryView>,
}

pub open spec fn entry_views(v: Seq<BundleEntry>) -> Seq<EntryView> {
    Seq::new(v.len(), |i: int| v[i]@)
}

impl View for Waxfile {
    type V = WaxfileView;

    open spec fn view(&self) -> WaxfileView {
        WaxfileView {
            tap: text::views(self.tap@),
            brew: entry_views(self.brew@),
            cask: entry_views(self.cask@),
            cargo: entry_views(self.cargo@),
            uv: entry_views(self.uv@),
        }
    }
}

/// A `Waxfile` is seen as what it holds.
pub proof fn waxfile_is_seen_as_it_is(x: Waxfile)
    ensures
        x@.tap == text::views(x.tap@),
        x@.brew == entry_views(x.brew@),
        x@.cask == entry_views(x.cask@),
        x@.cargo == entry_views(x.cargo@),
        x@.uv == entry_views(x.uv@),
{
}

pub open spec fn empty_waxfile() -> WaxfileView {
    WaxfileView {
        tap: Seq::empty(),
        brew: Seq::empty(),
        cask: Seq::empty(),
        cargo: Seq::empty(),
        uv: Seq::empty(),
    }
}

impl Default for Waxfile {
    fn default() -> (r: Self)
        ensures
            r@ == empty_waxfile(),
    {
        let r = Waxfile {
            tap: Vec::new(),
            brew: Vec::new(),
            cask: Vec::new(),
            cargo: Vec::new(),
            uv: Vec::new(),
        };
        proof {
            assert(r@ =~= empty_waxfile());
        }
        r
    }
}

// ---------------------------------------------------------------------------
// Where the bundle is

/// The names that a bundle can have, the first that is there counting.
pub open spec fn bundle_names() -> Seq<Seq<char>> {
    seq![
        "Waxfile"@,
        "Waxfile.toml"@,
        "waxfile"@,
        "waxfile.toml"@,
        "Brewfile"@,
        "brewfile"@,
    ]
}

pub fn waxfile_candidates() -> (r: Vec<String>)
    ensures
        text::views(r@) == bundle_names(),
{
    let mut v: Vec<String> = Vec::new();
    v.push(String::from_str("Waxfile"));
    v.push(String::from_str("Waxfile.toml"));
    v.push(String::from_str("waxfile"));
    v.push(String::from_str("waxfile.toml"));
    v.push(String::from_str("Brewfile"));
    v.push(String::from_str("brewfile"));
    proof {
        assert(text::views(v@) =~= bundle_names());
    }
    v
}

/// The first bundle that is there, given for each name whether it is.
pub fn find_waxfile(there: &Vec<bool>) -> (r: Result<String>)
    requires
        there@.len() == bundle_names().len(),
    ensures
        match cask::first_true(there@) {
            Some(i) => r matches Ok(p) && p@ == bundle_names()[i],
            None => r matches Err(WaxError::BundleError(m)) && m@
                == "No Waxfile or Brewfile found. Create a Waxfile.toml or Brewfile in your project root."@,
        },
{
    let names = waxfile_candidates();
    proof {
        assert(text::views(names@).len() == names@.len());
    }
    for i in 0..names.len()
        invariant
            there@.len() == bundle_names().len(),
            text::views(names@) == bundle_names(),
            names@.len() == there@.len(),
            forall|j: int| 0 <= j < i ==> !there@[j],
    {
        if there[i] {
            proof {
                cask::first_is(there@, i as int);
                assert(text::views(names@)[i as int] == names@[i as int]@);
            }
            return Ok(names[i].clone());
        }
    }
    proof {
        cask::first_is(there@, there@.len() as int);
    }
    Err(
        WaxError::BundleError(
            String::from_str(
                "No Waxfile or Brewfile found. Create a Waxfile.toml or Brewfile in your project root.",
            ),
        ),
    )
}

// ---------------------------------------------------------------------------
// Brewfiles

/// Where the comment of a line begins, or where the line ends: at the first number
/// sign that is not in quotes. In quotes, a backslash takes the next character as
/// it is.
pub open spec fn code_end(s: Seq<char>, i: int, quoted: bool, escaped: bool) -> int
    decreases s.len() - i,
{
    if i >= s.len() {
        s.len() as int
    } else if escaped {
        code_end(s, i + 1, quoted, false)
    } else if s[i] == '\\' && quoted {
        code_end(s, i + 1, quoted, true)
    } else if s[i] == '"' {
        code_end(s, i + 1, !quoted, false)
    } else if s[i] == '#' && !quoted {
        i
    } else {
        code_end(s, i + 1, quoted, false)
    }
}

/// A line without its comment.
pub open spec fn without_comment(s: Seq<char>) -> Seq<char> {
    s.take(code_end(s, 0, false, false))
}

proof fn code_end_in_range(s: Seq<char>, i: int, quoted: bool, escaped: bool)
    requires
        0 <= i <= s.len(),
    ensures
        i <= code_end(s, i, quoted, escaped) <= s.len(),
    decreases s.len() - i,
{
    if i < s.len() {
        if escaped {
            code_end_in_range(s, i + 1, quoted, false);
        } else if s[i] == '\\' && quoted {
            code_end_in_range(s, i + 1, quoted, true);
        } else if s[i] == '"' {
            code_end_in_range(s, i + 1, !quoted, false);
        } else if !(s[i] == '#' && !quoted) {
            code_end_in_range(s, i + 1, quoted, false);
        }
    }
}

proof fn code_end_of_take(s: Seq<char>, n: int, i: int, quoted: bool, escaped: bool)
    requires
        0 <= i <= n <= s.len(),
        code_end(s, i, quoted, escaped) >= n,
    ensures
        code_end(s.take(n), i, quoted, escaped) == n,
    decreases n - i,
{
    if i < n {
        assert(s.take(n)[i] == s[i]);
        if escaped {
            code_end_of_take(s, n, i + 1, quoted, false);
        } else if s[i] == '\\' && quoted {
            code_end_of_take(s, n, i + 1, quoted, true);
        } else if s[i] == '"' {
            code_end_of_take(s, n, i + 1, !quoted, false);
        } else {
            code_end_of_take(s, n, i + 1, quoted, false);
        }
    }
}

/// Taking away comments is done after one time.
pub proof fn comments_are_gone(s: Seq<char>)
    ensures
        without_comment(without_comment(s)) == without_comment(s),
{
    let n = code_end(s, 0, false, false);
    code_end_in_range(s, 0, false, false);
    code_end_of_take(s, n, 0, false, false);
    assert(s.take(n).take(n) =~= s.take(n));
}

/// A line without a number sign has no comment.
pub proof fn plain_lines_stay(s: Seq<char>)
    requires
        !s.contains('#'),
    ensures
        without_comment(s) == s,
{
    plain_code_end(s, 0, false, false);
    assert(s.take(s.len() as int) =~= s);
}

proof fn plain_code_end(s: Seq<char>, i: int, quoted: bool, escaped: bool)
    requires
        0 <= i <= s.len(),
        !s.contains('#'),
    ensures
        code_end(s, i, quoted, escaped) == s.len(),
    decreases s.len() - i,
{
    if i < s.len() {
        assert(s.contains(s[i]));
        if escaped {
            plain_code_end(s, i + 1, quoted, false);
        } else if s[i] == '\\' && quoted {
            plain_code_end(s, i + 1, quoted, true);
        } else if s[i] == '"' {
            plain_code_end(s, i + 1, !quoted, false);
        } else {
            plain_code_end(s, i + 1, quoted, false);
        }
    }
}

/// A line without its comment.
pub fn strip_brewfile_comment(line: &[char]) -> (r: &[char])
    ensures
        r@ == without_comment(line@),
{
    let mut quoted = false;
    let mut escaped = false;
    for i in 0..line.len()
        invariant
            code_end(line@, 0, false, false) == code_end(line@, i as int, quoted, escaped),
    {
        let c = line[i];
        if escaped {
            escaped = false;
        } else if c == '\\' && quoted {
            escaped = true;
        } else if c == '"' {
            quoted = !quoted;
        } else if c == '#' && !quoted {
            let r = part(line, 0, i);
            proof {
                assert(r@ =~= line@.take(i as int));
            }
            return r;
        }
    }
    proof {
        assert(line@.take(line@.len() as int) =~= line@);
    }
    line
}

/// The directive of a line and the rest of it, where there is a blank between
/// them.
pub open spec fn directive_of(line: Seq<char>) -> Option<(Seq<char>, Seq<char>)> {
    match text::first_space(line) {
        Some(i) => Some((line.take(i), text::trim(line.skip(i + 1)))),
        None => None,
    }
}

/// The directive of a line and the rest of it.
pub fn split_brewfile_directive(line: &[char]) -> (r: Option<(&[char], &[char])>)
    ensures
        match r {
            Some((d, t)) => directive_of(line@) == Some((d@, t@)),
            None => directive_of(line@) is None,
        },
{
    let n: usize = line.len();
    match space_place(line) {
        Some(i) => {
            let d = part(line, 0, i);
            let t = part(line, i + 1, n);
            proof {
                assert(d@ =~= line@.take(i as int));
                assert(t@ =~= line@.skip(i + 1));
            }
            Some((d, trimmed(t)))
        },
        None => None,
    }
}

/// What stands in quotes from `i` on, up to the closing quote; a backslash takes
/// the next character as it is. Nothing where no quote closes it.
pub open spec fn quoted_from(s: Seq<char>, i: int, escaped: bool) -> Option<Seq<char>>
    decreases s.len() - i,
{
    if i >= s.len() {
        None
    } else if !escaped && s[i] == '\\' {
        quoted_from(s, i + 1, true)
    } else if !escaped && s[i] == '"' {
        Some(Seq::empty())
    } else {
        match quoted_from(s, i + 1, false) {
            Some(rest) => Some(seq![s[i]] + rest),
            None => None,
        }
    }
}

/// The quoted string that a text begins with, or what is said where there is
/// none.
pub open spec fn string_in(rest: Seq<char>, line: nat) -> std::result::Result<Seq<char>, Seq<char>> {
    let s = text::trim_start(rest);
    if !text::starts_with(s, "\""@) {
        Err("Expected quoted string on Brewfile line "@ + text::decimal(line))
    } else {
        match quoted_from(s, 1, false) {
            Some(v) => Ok(v),
            None => Err("Unterminated quoted string on Brewfile line "@ + text::decimal(line)),
        }
    }
}

/// A text in which every quote and every backslash comes after a backslash.
pub open spec fn escaped(s: Seq<char>) -> Seq<char>
    decreases s.len(),
{
    if s.len() == 0 {
        Seq::empty()
    } else if s[0] == '"' || s[0] == '\\' {
        seq!['\\', s[0]] + escaped(s.skip(1))
    } else {
        seq![s[0]] + escaped(s.skip(1))
    }
}

proof fn escaped_reads_back(before: Seq<char>, s: Seq<char>, after: Seq<char>)
    ensures
        quoted_from(before + escaped(s) + "\""@ + after, before.len() as int, false) == Some(s),
    decreases s.len(),
{
    reveal_strlit("\"");
    let t = before + escaped(s) + "\""@ + after;
    let n = before.len() as int;
    if s.len() == 0 {
        assert(t[n] == '"');
        assert(s =~= Seq::<char>::empty());
    } else {
        let rest = s.skip(1);
        let special = s[0] == '"' || s[0] == '\\';
        let head = if special {
            before + seq!['\\', s[0]]
        } else {
            before + seq![s[0]]
        };
        escaped_reads_back(head, rest, after);
        assert(head + escaped(rest) + "\""@ + after =~= t);
        assert(seq![s[0]] + rest =~= s);
        if special {
            assert(t[n] == '\\');
            assert(t[n + 1] == s[0]);
            assert(quoted_from(t, n + 2, false) == Some(rest));
            assert(quoted_from(t, n + 1, true) == Some(seq![s[0]] + rest));
        } else {
            assert(t[n] == s[0]);
            assert(quoted_from(t, n + 1, false) == Some(rest));
        }
    }
}

/// A name that is put in quotes, with its own quotes and backslashes escaped, is
/// read back as it was.
pub proof fn quoting_round_trips(s: Seq<char>, after: Seq<char>, line: nat)
    ensures
        string_in("\""@ + escaped(s) + "\""@ + after, line) == Ok::<Seq<char>, Seq<char>>(s),
{
    reveal_strlit("\"");
    let t = "\""@ + escaped(s) + "\""@ + after;
    assert(t[0] == '"');
    assert(!text::is_space('"'));
    assert(text::trim_start(t) == t);
    assert(text::starts_with(t, "\""@)) by {
        assert(t.subrange(0, 1) =~= "\""@);
    }
    escaped_reads_back("\""@, s, after);
}

fn refused(what: &str, line: usize) -> (r: WaxError)
    ensures
        r matches WaxError::BundleError(m) && m@ == what@ + text::decimal(line as nat),
{
    let mut m = String::from_str(what);
    m.append(number(line as u128).as_str());
    WaxError::BundleError(m)
}

/// The quoted string that a text begins with.
pub fn parse_brewfile_string(rest: &[char], line: usize) -> (r: Result<String>)
    ensures
        match string_in(rest@, line as nat) {
            Ok(v) => r matches Ok(s) && s@ == v,
            Err(e) => r matches Err(WaxError::BundleError(m)) && m@ == e,
        },
{
    let s = trimmed_start(rest);
    proof {
        reveal_strlit("\"");
    }
    if !begins(s, "\"") {
        return Err(refused("Expected quoted string on Brewfile line ", line));
    }
    let mut value: Vec<char> = Vec::new();
    let mut escaped = false;
    let n: usize = s.len();
    for i in 1..n
        invariant
            n == s@.len(),
            n >= 1,
            s@ == text::trim_start(rest@),
            text::starts_with(s@, "\""@),
            quoted_from(s@, 1, false) == match quoted_from(s@, i as int, escaped) {
                Some(tail) => Some(value@ + tail),
                None => None,
            },
    {
        let c = s[i];
        let ghost before = value@;
        if !escaped && c == '\\' {
            escaped = true;
        } else if !escaped && c == '"' {
            proof {
                assert(value@ + Seq::<char>::empty() =~= value@);
            }
            return Ok(string_of(value.as_slice()));
        } else {
            value.push(c);
            escaped = false;
            proof {
                match quoted_from(s@, i + 1, false) {
                    Some(tail) => {
                        assert(before + (seq![c] + tail) =~= value@ + tail);
                    },
                    None => {},
                }
            }
        }
    }
    Err(refused("Unterminated quoted string on Brewfile line ", line))
}

/// The strings in the parts of a list, or what is said of the first that is none.
pub open spec fn strings_in(parts: Seq<Seq<char>>) -> std::result::Result<
    Seq<Seq<char>>,
    Seq<char>,
>
    decreases parts.len(),
{
    if parts.len() == 0 {
        Ok(Seq::empty())
    } else {
        match strings_in(parts.drop_last()) {
            Err(e) => Err(e),
            Ok(before) => {
                let p = text::trim(parts.last());
                if p.len() == 0 {
                    Ok(before)
                } else {
                    match string_in(p, 0) {
                        Ok(v) => Ok(before.push(v)),
                        Err(e) => Err(e),
                    }
                }
            },
        }
    }
}

proof fn first_fault_stays(parts: Seq<Seq<char>>, i: int)
    requires
        0 <= i <= parts.len(),
        strings_in(parts.take(i)) is Err,
    ensures
        strings_in(parts) == strings_in(parts.take(i)),
    decreases parts.len(),
{
    if i == parts.len() {
        assert(parts.take(i) =~= parts);
    } else {
        assert(parts.drop_last().take(i) =~= parts.take(i));
        first_fault_stays(parts.drop_last(), i);
    }
}

/// The arguments of an entry: one string, or a list of them, after `args:`.
pub open spec fn args_in(rest: Seq<char>) -> std::result::Result<Seq<Seq<char>>, Seq<char>> {
    if !text::contains(rest, "args:"@) {
        Ok(Seq::empty())
    } else {
        let args = text::trim(rest.skip(text::position(rest, "args:"@) + "args:"@.len()));
        if text::starts_with(args, "\""@) {
            match string_in(args, 0) {
                Ok(v) => Ok(seq![v]),
                Err(e) => Err(e),
            }
        } else if !text::starts_with(args, "["@) {
            Ok(Seq::empty())
        } else if !text::contains(args, "]"@) {
            Err("Unterminated args array in Brewfile"@)
        } else {
            strings_in(text::split(args.subrange(1, text::position(args, "]"@)), ','))
        }
    }
}

fn parse_list(list: &[char]) -> (r: Result<Vec<String>>)
    ensures
        match strings_in(text::split(list@, ',')) {
            Ok(v) => r matches Ok(x) && text::views(x@) == v,
            Err(e) => r matches Err(WaxError::BundleError(m)) && m@ == e,
        },
{
    let p = pieces(list, ',');
    let ghost s = text::slices(p@);
    let mut values: Vec<String> = Vec::new();
    proof {
        assert(text::views(values@) =~= Seq::empty());
    }
    for i in 0..p.len()
        invariant
            s == text::slices(p@),
            s == text::split(list@, ','),
            strings_in(s.take(i as int)) == Ok::<Seq<Seq<char>>, Seq<char>>(text::views(values@)),
    {
        let ghost before = text::views(values@);
        proof {
            assert(s.take(i + 1).drop_last() =~= s.take(i as int));
            assert(s.take(i + 1).last() == p@[i as int]@);
        }
        let x = trimmed(p[i]);
        if x.len() > 0 {
            match parse_brewfile_string(x, 0) {
                Ok(v) => {
                    values.push(v);
                    proof {
                        assert(text::views(values@) =~= before.push(v@));
                    }
                },
                Err(e) => {
                    proof {
                        first_fault_stays(s, i + 1);
                    }
                    return Err(e);
                },
            }
        }
    }
    proof {
        assert(s.take(s.len() as int) =~= s);
    }
    Ok(values)
}

/// The arguments of an entry.
pub fn parse_brewfile_args(rest: &[char]) -> (r: Result<Vec<String>>)
    ensures
        match args_in(rest@) {
            Ok(v) => r matches Ok(x) && text::views(x@) == v,
            Err(e) => r matches Err(WaxError::BundleError(m)) && m@ == e,
        },
{
    let mark = chars_of("args:");
    let n: usize = rest.len();
    let mut none: Vec<String> = Vec::new();
    proof {
        assert(text::views(none@) =~= Seq::empty());
    }
    let start: usize = match find(rest, mark.as_slice()) {
        Some(i) => i,
        None => {
            return Ok(none);
        },
    };
    proof {
        text::position_is(rest@, "args:"@, start as int);
    }
    let after = part(rest, start + mark.len(), n);
    proof {
        assert(after@ =~= rest@.skip(start + "args:"@.len()));
    }
    let args = trimmed(after);
    if begins(args, "\"") {
        return match parse_brewfile_string(args, 0) {
            Ok(v) => {
                none.push(v);
                proof {
                    assert(text::views(none@) =~= seq![v@]);
                }
                Ok(none)
            },
            Err(e) => Err(e),
        };
    }
    if !begins(args, "[") {
        return Ok(none);
    }
    let close = chars_of("]");
    match find(args, close.as_slice()) {
        None => Err(
            WaxError::BundleError(String::from_str("Unterminated args array in Brewfile")),
        ),
        Some(end) => {
            proof {
                text::position_is(args@, "]"@, end as int);
                reveal_strlit("[");
                reveal_strlit("]");
                assert(args@.subrange(0, 1)[0] == '[');
                if end == 0 {
                    assert(args@.subrange(0, 1)[0] == ']');
                }
            }
            parse_list(part(args, 1, end))
        },
    }
}

/// An entry: a name, with arguments where there are any.
pub open spec fn entry_in(rest: Seq<char>, line: nat) -> std::result::Result<EntryView, Seq<char>> {
    match string_in(rest, line) {
        Err(e) => Err(e),
        Ok(name) => match args_in(rest) {
            Err(e) => Err(e),
            Ok(args) => if args.len() == 0 {
                Ok(EntryView::Simple(name))
            } else {
                Ok(EntryView::Detailed { name, version: None, args: Some(args) })
            },
        },
    }
}

/// An entry of a Brewfile.
pub fn parse_brewfile_entry(rest: &[char], line: usize) -> (r: Result<BundleEntry>)
    ensures
        match entry_in(rest@, line as nat) {
            Ok(v) => r matches Ok(x) && x@ == v,
            Err(e) => r matches Err(WaxError::BundleError(m)) && m@ == e,
        },
{
    let name = match parse_brewfile_string(rest, line) {
        Ok(n) => n,
        Err(e) => {
            return Err(e);
        },
    };
    let args = match parse_brewfile_args(rest) {
        Ok(a) => a,
        Err(e) => {
            return Err(e);
        },
    };
    proof {
        assert(text::views(args@).len() == args@.len());
    }
    if args.len() == 0 {
        Ok(BundleEntry::Simple(name))
    } else {
        Ok(BundleEntry::Detailed { name, version: None, args: Some(args) })
    }
}

/// The lists of a Brewfile's entries.
#[derive(Debug, Clone, Copy, PartialEq, Eq, Structural)]
pub enum Section {
    Brew,
    Cask,
    Cargo,
    Uv,
}

pub open spec fn with_entry(w: WaxfileView, to: Section, e: EntryView) -> WaxfileView {
    match to {
        Section::Brew => WaxfileView { brew: w.brew.push(e), ..w },
        Section::Cask => WaxfileView { cask: w.cask.push(e), ..w },
        Section::Cargo => WaxfileView { cargo: w.cargo.push(e), ..w },
        Section::Uv => WaxfileView { uv: w.uv.push(e), ..w },
    }
}

/// The section that a directive adds to.
pub open spec fn section_of(directive: Seq<char>) -> Option<Section> {
    if directive == "brew"@ {
        Some(Section::Brew)
    } else if directive == "cask"@ {
        Some(Section::Cask)
    } else if directive == "cargo"@ {
        Some(Section::Cargo)
    } else if directive == "uv"@ {
        Some(Section::Uv)
    } else {
        None
    }
}

/// Directives that are passed over.
pub open spec fn is_ignored(directive: Seq<char>) -> bool {
    directive == "mas"@ || directive == "vscode"@ || directive == "whalebrew"@ || directive
        == "go"@
}

/// The bundle with one more line of a Brewfile.
pub open spec fn with_line(w: WaxfileView, raw: Seq<char>, line: nat) -> std::result::Result<
    WaxfileView,
    Seq<char>,
> {
    let code = text::trim(without_comment(raw));
    if code.len() == 0 {
        Ok(w)
    } else {
        match directive_of(code) {
            None => Err("Unsupported Brewfile line "@ + text::decimal(line) + ": "@ + code),
            Some((directive, rest)) => if directive == "tap"@ {
                match string_in(rest, line) {
                    Ok(t) => Ok(WaxfileView { tap: w.tap.push(t), ..w }),
                    Err(e) => Err(e),
                }
            } else if section_of(directive) is Some {
                match entry_in(rest, line) {
                    Ok(e) => Ok(with_entry(w, section_of(directive)->0, e)),
                    Err(e) => Err(e),
                }
            } else if is_ignored(directive) {
                Ok(w)
            } else {
                Err(
                    "Unsupported Brewfile directive on line "@ + text::decimal(line) + ": "@
                        + directive,
                )
            },
        }
    }
}

/// What the lines of a Brewfile say, or what is said of the first that cannot be
/// read.
pub open spec fn read_lines(l: Seq<Seq<char>>) -> std::result::Result<WaxfileView, Seq<char>>
    decreases l.len(),
{
    if l.len() == 0 {
        Ok(empty_waxfile())
    } else {
        match read_lines(l.drop_last()) {
            Ok(w) => with_line(w, l.last(), l.len()),
            Err(e) => Err(e),
        }
    }
}

proof fn line_fault_stays(l: Seq<Seq<char>>, i: int)
    requires
        0 <= i <= l.len(),
        read_lines(l.take(i)) is Err,
    ensures
        read_lines(l) == read_lines(l.take(i)),
    decreases l.len(),
{
    if i == l.len() {
        assert(l.take(i) =~= l);
    } else {
        assert(l.drop_last().take(i) =~= l.take(i));
        line_fault_stays(l.drop_last(), i);
    }
}

/// Two bundles as one: the lists of the first, each followed by that of the second.
pub open spec fn both(a: WaxfileView, b: WaxfileView) -> WaxfileView {
    WaxfileView {
        tap: a.tap + b.tap,
        brew: a.brew + b.brew,
        cask: a.cask + b.cask,
        cargo: a.cargo + b.cargo,
        uv: a.uv + b.uv,
    }
}

/// What a line adds does not depend on what came before it, nor on its number.
proof fn line_adds(w: WaxfileView, raw: Seq<char>, line: nat, other: nat)
    ensures
        with_line(w, raw, line) is Ok <==> with_line(empty_waxfile(), raw, other) is Ok,
        with_line(w, raw, line) matches Ok(x) ==> x == both(
            w,
            with_line(empty_waxfile(), raw, other)->Ok_0,
        ),
{
    let code = text::trim(without_comment(raw));
    if code.len() == 0 {
        assert(w =~= both(w, empty_waxfile()));
    } else {
        match directive_of(code) {
            None => {},
            Some((directive, rest)) => {
                if directive == "tap"@ {
                    match string_in(rest, line) {
                        Ok(t) => {
                            assert(string_in(rest, other) == string_in(rest, line));
                            assert(WaxfileView { tap: w.tap.push(t), ..w } =~= both(
                                w,
                                WaxfileView {
                                    tap: empty_waxfile().tap.push(t),
                                    ..empty_waxfile()
                                },
                            ));
                        },
                        Err(_) => {},
                    }
                } else if section_of(directive) is Some {
                    match entry_in(rest, line) {
                        Ok(e) => {
                            assert(entry_in(rest, other) == entry_in(rest, line));
                            let to = section_of(directive)->0;
                            assert(with_entry(w, to, e) =~= both(
                                w,
                                with_entry(empty_waxfile(), to, e),
                            ));
                        },
                        Err(_) => {},
                    }
                } else if is_ignored(directive) {
                    assert(w =~= both(w, empty_waxfile()));
                }
            },
        }
    }
}

/// Lines after lines add what they say by themselves.
proof fn lines_add(a: Seq<Seq<char>>, b: Seq<Seq<char>>)
    ensures
        read_lines(a + b) is Ok <==> read_lines(a) is Ok && read_lines(b) is Ok,
        read_lines(a + b) matches Ok(x) ==> x == both(read_lines(a)->Ok_0, read_lines(b)->Ok_0),
    decreases b.len(),
{
    if b.len() == 0 {
        assert(a + b =~= a);
        if read_lines(a) is Ok {
            assert(read_lines(a)->Ok_0 =~= both(read_lines(a)->Ok_0, empty_waxfile()));
        }
    } else {
        let t = b.drop_last();
        assert((a + b).drop_last() =~= a + t);
        assert((a + b).last() == b.last());
        lines_add(a, t);
        match read_lines(a + t) {
            Ok(w) => {
                line_adds(w, b.last(), (a + b).len(), b.len());
                line_adds(read_lines(t)->Ok_0, b.last(), b.len(), b.len());
                if read_lines(b) is Ok {
                    let x = read_lines(a)->Ok_0;
                    let y = read_lines(t)->Ok_0;
                    let z = with_line(empty_waxfile(), b.last(), b.len())->Ok_0;
                    assert(both(both(x, y), z) =~= both(x, both(y, z)));
                }
            },
            Err(_) => {},
        }
    }
}

proof fn code_end_before_return(s: Seq<char>, i: int, quoted: bool, escaped: bool)
    requires
        0 <= i <= s.len(),
    ensures
        ({
            let e = code_end(s, i, quoted, escaped);
            code_end(s.push('\r'), i, quoted, escaped) == if e < s.len() {
                e
            } else {
                s.len() as int + 1
            }
        }),
    decreases s.len() - i,
{
    let t = s.push('\r');
    if i == s.len() {
        assert(t[i] == '\r');
        assert(code_end(t, i + 1, quoted, false) == t.len());
    } else {
        assert(t[i] == s[i]);
        if escaped {
            code_end_before_return(s, i + 1, quoted, false);
        } else if s[i] == '\\' && quoted {
            code_end_before_return(s, i + 1, quoted, true);
        } else if s[i] == '"' {
            code_end_before_return(s, i + 1, !quoted, false);
        } else if !(s[i] == '#' && !quoted) {
            code_end_before_return(s, i + 1, quoted, false);
        }
    }
}

proof fn trim_before_return(s: Seq<char>)
    ensures
        text::trim(s.push('\r')) == text::trim(s),
    decreases s.len(),
{
    let t = s.push('\r');
    assert(text::is_space('\r'));
    if s.len() == 0 {
        assert(t.skip(1) =~= s);
    } else {
        assert(t[0] == s[0]);
        if text::is_space(s[0]) {
            assert(t.skip(1) =~= s.skip(1).push('\r'));
            trim_before_return(s.skip(1));
        } else {
            assert(t.drop_last() =~= s);
        }
    }
}

/// A carriage return at its end changes nothing in a line.
proof fn return_adds_nothing(s: Seq<char>)
    ensures
        text::trim(without_comment(text::strip_cr(s))) == text::trim(without_comment(s)),
{
    if s.len() > 0 && s.last() == '\r' {
        let t = s.drop_last();
        assert(t.push('\r') =~= s);
        code_end_before_return(t, 0, false, false);
        code_end_in_range(t, 0, false, false);
        let e = code_end(t, 0, false, false);
        if e < t.len() {
            assert(s.take(e) =~= t.take(e));
        } else {
            assert(t.take(e) =~= t);
            assert(s.take(s.len() as int) =~= s);
            trim_before_return(t);
        }
    }
}

/// The lines of a text, and what of it they leave open at its end, all of them with
/// a line feed after them.
spec fn ended_lines(s: Seq<char>) -> Seq<Seq<char>> {
    Seq::new(text::split(s, '\n').len(), |i: int| text::strip_cr(text::split(s, '\n')[i]))
}

proof fn ended_lines_say_the_same(s: Seq<char>)
    ensures
        read_lines(ended_lines(s)) is Ok <==> read_lines(text::lines(s)) is Ok,
        read_lines(ended_lines(s)) matches Ok(x) ==> read_lines(text::lines(s)) == Ok::<
            WaxfileView,
            Seq<char>,
        >(x),
{
    broadcast use text::split_has_a_piece;

    let p = text::split(s, '\n');
    let e = ended_lines(s);
    let l = text::lines(s);
    let t = e.drop_last();
    if p.last().len() == 0 {
        assert(l =~= t);
        assert(e.last() =~= Seq::<char>::empty());
        assert(without_comment(e.last()) =~= Seq::<char>::empty());
    } else {
        assert(l.drop_last() =~= t);
        assert(l.last() == p.last());
        return_adds_nothing(p.last());
    }
}

proof fn lines_of_both(a: Seq<char>, b: Seq<char>)
    ensures
        text::lines(a + "\n"@ + b) == ended_lines(a) + text::lines(b),
{
    broadcast use text::split_has_a_piece;

    reveal_strlit("\n");
    assert(a + "\n"@ + b =~= a.push('\n') + b);
    text::split_of_both(a, b, '\n');
    let p = text::split(a, '\n');
    let q = text::split(b, '\n');
    assert((p + q).last() == q.last());
    assert(text::lines(a + "\n"@ + b) =~= ended_lines(a) + text::lines(b));
}

/// A Brewfile after a Brewfile says what both say: it can be read if and only if both
/// can, and then each of its lists is that of the first followed by that of the
/// second.
pub proof fn files_add_up(a: Seq<char>, b: Seq<char>)
    ensures
        read_lines(text::lines(a + "\n"@ + b)) is Ok <==> read_lines(text::lines(a)) is Ok
            && read_lines(text::lines(b)) is Ok,
        read_lines(text::lines(a + "\n"@ + b)) matches Ok(x) ==> x == both(
            read_lines(text::lines(a))->Ok_0,
            read_lines(text::lines(b))->Ok_0,
        ),
{
    lines_of_both(a, b);
    ended_lines_say_the_same(a);
    lines_add(ended_lines(a), text::lines(b));
}

fn section_for(directive: &[char]) -> (r: Option<Section>)
    ensures
        r == section_of(directive@),
{
    if is(directive, "brew") {
        Some(Section::Brew)
    } else if is(directive, "cask") {
        Some(Section::Cask)
    } else if is(directive, "cargo") {
        Some(Section::Cargo)
    } else if is(directive, "uv") {
        Some(Section::Uv)
    } else {
        None
    }
}

impl Waxfile {
    fn put(&mut self, to: Section, e: BundleEntry)
        ensures
            final(self)@ == with_entry(old(self)@, to, e@),
    {
        let ghost before = self@;
        let ghost shown = e@;
        match to {
            Section::Brew => {
                self.brew.push(e);
                proof {
                    assert(self@.brew =~= before.brew.push(shown));
                }
            },
            Section::Cask => {
                self.cask.push(e);
                proof {
                    assert(self@.cask =~= before.cask.push(shown));
                }
            },
            Section::Cargo => {
                self.cargo.push(e);
                proof {
                    assert(self@.cargo =~= before.cargo.push(shown));
                }
            },
            Section::Uv => {
                self.uv.push(e);
                proof {
                    assert(self@.uv =~= before.uv.push(shown));
                }
            },
        }
        proof {
            assert(self@ =~= with_entry(before, to, shown));
        }
    }

    /// Takes up a line of a Brewfile.
    fn read_line(&mut self, raw: &[char], line: usize) -> (r: Result<()>)
        ensures
            match with_line(old(self)@, raw@, line as nat) {
                Ok(w) => r is Ok && final(self)@ == w,
                Err(e) => r matches Err(WaxError::BundleError(m)) && m@ == e,
            },
    {
        let ghost before = self@;
        let code = trimmed(strip_brewfile_comment(raw));
        if code.len() == 0 {
            return Ok(());
        }
        match split_brewfile_directive(code) {
            None => {
                let mut m = String::from_str("Unsupported Brewfile line ");
                m.append(number(line as u128).as_str());
                m.append(": ");
                m.append(string_of(code).as_str());
                Err(WaxError::BundleError(m))
            },
            Some((directive, rest)) => {
                if is(directive, "tap") {
                    return match parse_brewfile_string(rest, line) {
                        Ok(t) => {
                            self.tap.push(t);
                            proof {
                                assert(self@.tap =~= before.tap.push(t@));
                                assert(self@ =~= (WaxfileView {
                                    tap: before.tap.push(t@),
                                    ..before
                                }));
                            }
                            Ok(())
                        },
                        Err(e) => Err(e),
                    };
                }
                match section_for(directive) {
                    Some(to) => match parse_brewfile_entry(rest, line) {
                        Ok(e) => {
                            self.put(to, e);
                            Ok(())
                        },
                        Err(e) => Err(e),
                    },
                    None => {
                        if is(directive, "mas") || is(directive, "vscode") || is(
                            directive,
                            "whalebrew",
                        ) || is(directive, "go") {
                            Ok(())
                        } else {
                            let mut m = String::from_str("Unsupported Brewfile directive on line ");
                            m.append(number(line as u128).as_str());
                            m.append(": ");
                            m.append(string_of(directive).as_str());
                            Err(WaxError::BundleError(m))
                        }
                    },
                }
            },
        }
    }
}

/// What a Brewfile says.
pub fn parse_brewfile(content: &str) -> (r: Result<Waxfile>)
    ensures
        match read_lines(text::lines(content@)) {
            Ok(w) => r matches Ok(x) && x@ == w,
            Err(e) => r matches Err(WaxError::BundleError(m)) && m@ == e,
        },
{
    let c = chars_of(content);
    let l = lines_of(c.as_slice());
    let ghost s = text::slices(l@);
    let mut w = Waxfile::default();
    for i in 0..l.len()
        invariant
            s == text::slices(l@),
            s == text::lines(content@),
            read_lines(s.take(i as int)) == Ok::<WaxfileView, Seq<char>>(w@),
    {
        proof {
            assert(s.take(i + 1).drop_last() =~= s.take(i as int));
            assert(s.take(i + 1).last() == l@[i as int]@);
        }
        match w.read_line(l[i], i + 1) {
            Ok(_) => {},
            Err(e) => {
                proof {
                    line_fault_stays(s, i + 1);
                }
                return Err(e);
            },
        }
    }
    proof {
        assert(s.take(s.len() as int) =~= s);
    }
    Ok(w)
}

/// What a bundle says: what it says as TOML, or else as a Brewfile.
pub fn parse_waxfile(
    path: &str,
    as_toml: std::result::Result<Waxfile, String>,
    content: &str,
) -> (r: Result<Waxfile>)
    ensures
        match as_toml {
            Ok(w) => r == Ok::<Waxfile, WaxError>(w),
            Err(t) => match read_lines(text::lines(content@)) {
                Ok(w) => r matches Ok(x) && x@ == w,
                Err(b) => r matches Err(WaxError::BundleError(m)) && m@ == "Failed to parse "@
                    + path@ + " as TOML ("@ + t@ + ") or Brewfile ("@ + b + ")"@,
            },
        },
{
    match as_toml {
        Ok(w) => Ok(w),
        Err(t) => match parse_brewfile(content) {
            Ok(w) => Ok(w),
            Err(WaxError::BundleError(b)) => {
                let mut m = String::from_str("Failed to parse ");
                m.append(path);
                m.append(" as TOML (");
                m.append(t.as_str());
                m.append(") or Brewfile (");
                m.append(b.as_str());
                m.append(")");
                Err(WaxError::BundleError(m))
            },
            Err(e) => Err(e),
        },
    }
}

// ---------------------------------------------------------------------------
// Installing a bundle

/// The names of entries.
pub open spec fn entry_names(v: Seq<EntryView>) -> Seq<Seq<char>> {
    Seq::new(v.len(), |i: int| v[i].name())
}

/// The names of entries.
pub fn names_of(entries: &Vec<BundleEntry>) -> (r: Vec<String>)
    ensures
        text::views(r@) == entry_names(entry_views(entries@)),
{
    let mut out: Vec<String> = Vec::new();
    for i in 0..entries.len()
        invariant
            out@.len() == i,
            forall|j: int| 0 <= j < i ==> (#[trigger] out@[j])@ == entries@[j]@.name(),
    {
        out.push(String::from_str(entries[i].name()));
    }
    proof {
        assert(text::views(out@) =~= entry_names(entry_views(entries@)));
    }
    out
}

/// A line of a trial run.
pub open spec fn trial_line(kind: Seq<char>, name: Seq<char>, suffix: Seq<char>) -> Seq<char> {
    "+ "@ + kind + " "@ + name + suffix
}

/// A line for each name.
pub open spec fn trial_lines(
    names: Seq<Seq<char>>,
    kind: Seq<char>,
    suffix: Seq<char>,
) -> Seq<Seq<char>> {
    Seq::new(names.len(), |i: int| trial_line(kind, names[i], suffix))
}

fn add_trial_lines(out: &mut Vec<String>, names: &Vec<String>, kind: &str, suffix: &str)
    ensures
        text::views(final(out)@) == text::views(old(out)@) + trial_lines(
            text::views(names@),
            kind@,
            suffix@,
        ),
{
    let ghost start = text::views(out@);
    for i in 0..names.len()
        invariant
            text::views(out@) =~= start + trial_lines(text::views(names@), kind@, suffix@).take(
                i as int,
            ),
    {
        let ghost before = text::views(out@);
        let mut line = String::from_str("+ ");
        line.append(kind);
        line.append(" ");
        line.append(names[i].as_str());
        line.append(suffix);
        let ghost x = line@;
        out.push(line);
        proof {
            assert(text::views(out@) =~= before.push(x));
        }
    }
    proof {
        assert(text::views(out@) =~= start + trial_lines(text::views(names@), kind@, suffix@));
    }
}

/// What a trial run says: a line for everything that the bundle holds.
pub fn print_dry_run(w: &Waxfile) -> (r: Vec<String>)
    ensures
        text::views(r@) == trial_lines(w@.tap, "tap"@, ""@) + trial_lines(
            entry_names(w@.brew),
            "brew"@,
            ""@,
        ) + trial_lines(entry_names(w@.cask), "cask"@, " (cask)"@) + trial_lines(
            entry_names(w@.cargo),
            "cargo"@,
            ""@,
        ) + trial_lines(entry_names(w@.uv), "uv"@, ""@),
{
    let mut out: Vec<String> = Vec::new();
    proof {
        assert(text::views(out@) =~= Seq::<Seq<char>>::empty());
        assert(Seq::<Seq<char>>::empty() + trial_lines(w@.tap, "tap"@, ""@) =~= trial_lines(
            w@.tap,
            "tap"@,
            ""@,
        ));
    }
    add_trial_lines(&mut out, &w.tap, "tap", "");
    add_trial_lines(&mut out, &names_of(&w.brew), "brew", "");
    add_trial_lines(&mut out, &names_of(&w.cask), "cask", " (cask)");
    add_trial_lines(&mut out, &names_of(&w.cargo), "cargo", "");
    add_trial_lines(&mut out, &names_of(&w.uv), "uv", "");
    out
}

/// What a bundle says that it holds.
pub open spec fn counts_text(tap: nat, brew: nat, cask: nat, cargo: nat, uv: nat) -> Seq<char> {
    text::decimal(tap) + " taps, "@ + text::decimal(brew) + " formulae, "@ + text::decimal(cask)
        + " casks, "@ + text::decimal(cargo) + " cargo, "@ + text::decimal(uv) + " uv"@
}

/// What a bundle says that it holds, if it holds anything.
pub fn bundle(w: &Waxfile) -> (r: Option<String>)
    ensures
        text::opt_view(r) == if w@.tap.len() == 0 && w@.brew.len() == 0 && w@.cask.len() == 0
            && w@.cargo.len() == 0 && w@.uv.len() == 0 {
            None
        } else {
            Some(
                counts_text(
                    w@.tap.len(),
                    w@.brew.len(),
                    w@.cask.len(),
                    w@.cargo.len(),
                    w@.uv.len(),
                ),
            )
        },
{
    if w.tap.len() == 0 && w.brew.len() == 0 && w.cask.len() == 0 && w.cargo.len() == 0
        && w.uv.len() == 0 {
        return None;
    }
    let mut m = number(w.tap.len() as u128);
    m.append(" taps, ");
    m.append(number(w.brew.len() as u128).as_str());
    m.append(" formulae, ");
    m.append(number(w.cask.len() as u128).as_str());
    m.append(" casks, ");
    m.append(number(w.cargo.len() as u128).as_str());
    m.append(" cargo, ");
    m.append(number(w.uv.len() as u128).as_str());
    m.append(" uv");
    Some(m)
}

/// Whether a tap is to be added: not one that is there, and only one of a vendor
/// and a repository.
pub fn add_tap(tap: &str, has_tap: bool) -> (r: Result<bool>)
    ensures
        if has_tap {
            r == Ok::<bool, WaxError>(false)
        } else if text::split(tap@, '/').len() < 2 {
            r matches Err(WaxError::BundleError(m)) && m@ == "Invalid tap format: "@ + tap@
        } else {
            r == Ok::<bool, WaxError>(true)
        },
{
    if has_tap {
        return Ok(false);
    }
    let c = chars_of(tap);
    let p = pieces(c.as_slice(), '/');
    proof {
        assert(text::slices(p@).len() == p@.len());
    }
    if p.len() < 2 {
        let mut m = String::from_str("Invalid tap format: ");
        m.append(tap);
        return Err(WaxError::BundleError(m));
    }
    Ok(true)
}

/// A line of a list names a tool: it begins with the name and, where lines that
/// begin with a blank tell of the tool before them, with no blank.
pub open spec fn line_names(line: Seq<char>, name: Seq<char>, indented: bool) -> bool {
    text::starts_with(line, name) && !(indented && text::starts_with(line, " "@))
}

pub open spec fn some_line_names(l: Seq<Seq<char>>, name: Seq<char>, indented: bool) -> bool {
    exists|i: int| 0 <= i < l.len() && #[trigger] line_names(l[i], name, indented)
}

/// Whether a list names a tool.
pub fn names_tool(shown: &str, name: &str, indented: bool) -> (r: bool)
    ensures
        r == some_line_names(text::lines(shown@), name@, indented),
{
    let c = chars_of(shown);
    let l = lines_of(c.as_slice());
    let ghost s = text::slices(l@);
    for i in 0..l.len()
        invariant
            s == text::slices(l@),
            s == text::lines(shown@),
            forall|j: int| 0 <= j < i ==> !#[trigger] line_names(s[j], name@, indented),
    {
        proof {
            assert(s[i as int] == l@[i as int]@);
        }
        if begins(l[i], name) && !(indented && begins(l[i], " ")) {
            proof {
                assert(line_names(s[i as int], name@, indented));
            }
            return true;
        }
    }
    false
}

/// Whether cargo's list names a tool.
pub fn is_cargo_installed(name: &str, stdout: &[u8]) -> (r: bool)
    ensures
        r == some_line_names(text::lines(outside::lossy(stdout@)), name@, true),
{
    let shown = lossy_text(stdout);
    names_tool(shown.as_str(), name, true)
}

/// Whether uv's list names a tool.
pub fn is_uv_tool_installed(name: &str, stdout: &[u8]) -> (r: bool)
    ensures
        r == some_line_names(text::lines(outside::lossy(stdout@)), name@, false),
{
    let shown = lossy_text(stdout);
    names_tool(shown.as_str(), name, false)
}

/// The arguments of an entry, none where it has none.
pub open spec fn args_of(e: EntryView) -> Seq<Seq<char>> {
    match e.args() {
        Some(a) => a,
        None => Seq::empty(),
    }
}

/// The arguments with which cargo installs an entry.
pub open spec fn cargo_args(e: EntryView) -> Seq<Seq<char>> {
    (match e.version() {
        Some(v) => seq!["install"@, e.name(), "--version"@, v],
        None => seq!["install"@, e.name()],
    }) + args_of(e)
}

/// The arguments with which uv installs an entry.
pub open spec fn uv_args(e: EntryView) -> Seq<Seq<char>> {
    seq![
        "tool"@,
        "install"@,
        match e.version() {
            Some(v) => e.name() + "=="@ + v,
            None => e.name(),
        },
    ] + args_of(e)
}

fn add_args(v: &mut Vec<String>, e: &BundleEntry)
    ensures
        text::views(final(v)@) == text::views(old(v)@) + args_of(e@),
{
    let ghost start = text::views(v@);
    match e.args() {
        Some(a) => {
            let mut more = copied(a);
            v.append(&mut more);
            proof {
                assert(text::views(v@) =~= start + text::views(a@));
            }
        },
        None => {
            proof {
                assert(start + args_of(e@) =~= start);
            }
        },
    }
}

/// The arguments with which cargo installs an entry.
pub fn cargo_install(e: &BundleEntry) -> (r: Vec<String>)
    ensures
        text::views(r@) == cargo_args(e@),
{
    let mut v: Vec<String> = Vec::new();
    v.push(String::from_str("install"));
    v.push(String::from_str(e.name()));
    match e.version() {
        Some(x) => {
            v.push(String::from_str("--version"));
            v.push(String::from_str(x));
            proof {
                assert(text::views(v@) =~= seq!["install"@, e@.name(), "--version"@, x@]);
            }
        },
        None => {
            proof {
                assert(text::views(v@) =~= seq!["install"@, e@.name()]);
            }
        },
    }
    add_args(&mut v, e);
    v
}

/// The arguments with which uv installs an entry.
pub fn uv_tool_install(e: &BundleEntry) -> (r: Vec<String>)
    ensures
        text::views(r@) == uv_args(e@),
{
    let mut what = String::from_str(e.name());
    match e.version() {
        Some(x) => {
            what.append("==");
            what.append(x);
        },
        None => {},
    }
    let mut v: Vec<String> = Vec::new();
    v.push(String::from_str("tool"));
    v.push(String::from_str("install"));
    v.push(what);
    proof {
        assert(text::views(v@) =~= seq![
            "tool"@,
            "install"@,
            match e@.version() {
                Some(v) => e@.name() + "=="@ + v,
                None => e@.name(),
            },
        ]);
    }
    add_args(&mut v, e);
    v
}

/// The outcome of a tool that installs: its exit code, if it has one, is told
/// where it failed.
pub fn tool_outcome(command: &str, name: &str, success: bool, code: Option<i32>) -> (r: Result<()>)
    ensures
        if success {
            r is Ok
        } else {
            r matches Err(WaxError::BundleError(m)) && m@ == command@ + " "@ + name@
                + " failed with exit code "@ + text::signed_decimal(
                match code {
                    Some(c) => c as int,
                    None => -1,
                },
            )
        },
{
    if success {
        return Ok(());
    }
    let mut m = String::from_str(command);
    m.append(" ");
    m.append(name);
    m.append(" failed with exit code ");
    let c: i32 = match code {
        Some(c) => c,
        None => -1,
    };
    m.append(signed_number(c).as_str());
    Err(WaxError::BundleError(m))
}

// ---------------------------------------------------------------------------
// Writing a bundle

/// The names as lines of a list.
pub open spec fn name_lines(names: Seq<Seq<char>>) -> Seq<char>
    decreases names.len(),
{
    if names.len() == 0 {
        Seq::empty()
    } else {
        name_lines(names.drop_last()) + ("  \""@ + names.last() + "\",\n"@)
    }
}

/// A Waxfile that lists what is installed, by name.
pub open spec fn dump_of(packages: Seq<Seq<char>>, casks: Seq<Seq<char>>) -> Seq<char> {
    (if packages.len() == 0 {
        Seq::<char>::empty()
    } else {
        "brew = [\n"@ + name_lines(packages) + "]\n\n"@
    }) + (if casks.len() == 0 {
        Seq::<char>::empty()
    } else {
        "cask = [\n"@ + name_lines(casks) + "]\n"@
    })
}

fn list_text(names: &Vec<String>) -> (r: String)
    ensures
        r@ == name_lines(text::views(names@)),
{
    let ghost n = text::views(names@);
    let mut out = String::new();
    proof {
        assert(out@ =~= name_lines(n.take(0)));
    }
    for i in 0..names.len()
        invariant
            n == text::views(names@),
            out@ == name_lines(n.take(i as int)),
    {
        proof {
            assert(n.take(i + 1).drop_last() =~= n.take(i as int));
            assert(n.take(i + 1).last() == names@[i as int]@);
        }
        let mut line = String::from_str("  \"");
        line.append(names[i].as_str());
        line.append("\",\n");
        out.append(line.as_str());
    }
    proof {
        assert(n.take(n.len() as int) =~= n);
    }
    out
}

/// A Waxfile that lists what is installed, by name.
pub fn bundle_dump(installed: &Table<InstalledPackage>, casks: &Table<InstalledCask>) -> (r: String)
    ensures
        r@ == dump_of(
            order::sort(reinstall::names_in(installed.entries@)),
            order::sort(reinstall::names_in(casks.entries@)),
        ),
{
    let packages = sorted_names(installed);
    let cask_names = sorted_names(casks);
    proof {
        assert(text::views(packages@).len() == packages@.len());
        assert(text::views(cask_names@).len() == cask_names@.len());
    }
    let mut out = String::new();
    proof {
        assert(out@ =~= Seq::<char>::empty());
    }
    if packages.len() > 0 {
        let mut section = String::from_str("brew = [\n");
        section.append(list_text(&packages).as_str());
        section.append("]\n\n");
        out = section;
    }
    let ghost first = out@;
    if cask_names.len() > 0 {
        let mut section = String::from_str("cask = [\n");
        section.append(list_text(&cask_names).as_str());
        section.append("]\n");
        out.append(section.as_str());
    } else {
        proof {
            assert(first + Seq::<char>::empty() =~= first);
        }
    }
    out
}

// ---------------------------------------------------------------------------
// Laws of single lines

proof fn code_goes_on(a: Seq<char>, b: Seq<char>, i: int, quoted: bool)
    requires
        0 <= i <= a.len(),
        forall|j: int| i <= j < a.len() ==> #[trigger] a[j] != '"' && a[j] != '\\',
        !quoted ==> forall|j: int| i <= j < a.len() ==> #[trigger] a[j] != '#',
    ensures
        code_end(a + b, i, quoted, false) == code_end(a + b, a.len() as int, quoted, false),
    decreases a.len() - i,
{
    if i < a.len() {
        assert((a + b)[i] == a[i]);
        code_goes_on(a, b, i + 1, quoted);
    }
}

/// A comment begins at a number sign that does not stand in quotes; what stands before it
/// is the line.
pub proof fn comments_begin_outside_quotes(a: Seq<char>, inner: Seq<char>, b: Seq<char>)
    requires
        forall|j: int| 0 <= j < a.len() ==> #[trigger] a[j] != '"' && a[j] != '\\' && a[j] != '#',
        forall|j: int| 0 <= j < inner.len() ==> #[trigger] inner[j] != '"' && inner[j] != '\\',
    ensures
        without_comment(a + seq!['#'] + b) == a,
        without_comment(a + seq!['"'] + inner + seq!['"', '#'] + b) == a + seq!['"'] + inner
            + seq!['"'],
{
    let s = a + seq!['#'] + b;
    assert(s =~= a + (seq!['#'] + b));
    code_goes_on(a, seq!['#'] + b, 0, false);
    assert(s[a.len() as int] == '#');
    assert(s.take(a.len() as int) =~= a);
    let t = a + seq!['"'] + inner + seq!['"', '#'] + b;
    let n = a.len() as int;
    assert(t =~= a + (seq!['"'] + inner + seq!['"', '#'] + b));
    code_goes_on(a, seq!['"'] + inner + seq!['"', '#'] + b, 0, false);
    assert(t[n] == '"');
    let h = a + seq!['"'] + inner;
    let m = h.len() as int;
    assert(t =~= h + (seq!['"', '#'] + b));
    assert forall|j: int| n + 1 <= j < h.len() implies #[trigger] h[j] != '"' && h[j] != '\\' by {
        assert(h[j] == inner[j - n - 1]);
    }
    code_goes_on(h, seq!['"', '#'] + b, n + 1, true);
    assert(t[m] == '"');
    assert(t[m + 1] == '#');
    assert(code_end(t, m + 1, false, false) == m + 1);
    assert(code_end(t, m, true, false) == m + 1);
    assert(t.take(m + 1) =~= a + seq!['"'] + inner + seq!['"']);
}

/// The first word of a line is its directive, and the rest is what it is about.
pub proof fn first_word_directs(word: Seq<char>, rest: Seq<char>)
    requires
        text::first_space(word + seq![' '] + rest) == Some(word.len() as int),
    ensures
        directive_of(word + seq![' '] + rest) == Some((word, text::trim(rest))),
{
    let s = word + seq![' '] + rest;
    assert(s.take(word.len() as int) =~= word);
    assert(s.skip(word.len() as int + 1) =~= rest);
}

/// Each directive goes to its own list; some are known and passed over.
pub proof fn directives_have_their_list(d: Seq<char>)
    ensures
        section_of("brew"@) == Some(Section::Brew),
        section_of("cask"@) == Some(Section::Cask),
        section_of("cargo"@) == Some(Section::Cargo),
        section_of("uv"@) == Some(Section::Uv),
        d != "brew"@ && d != "cask"@ && d != "cargo"@ && d != "uv"@ ==> section_of(d) is None,
        is_ignored(d) <==> d == "mas"@ || d == "vscode"@ || d == "whalebrew"@ || d == "go"@,
        section_of("tap"@) is None,
        section_of("mas"@) is None && section_of("vscode"@) is None && section_of("go"@) is None,
{
    reveal_strlit("brew");
    reveal_strlit("cask");
    reveal_strlit("cargo");
    reveal_strlit("uv");
    reveal_strlit("tap");
    reveal_strlit("mas");
    reveal_strlit("vscode");
    reveal_strlit("go");
    assert("brew"@.len() == 4 && "cask"@.len() == 4 && "cargo"@.len() == 5 && "uv"@.len() == 2);
    assert("tap"@.len() == 3 && "mas"@.len() == 3 && "vscode"@.len() == 6 && "go"@.len() == 2);
    assert("brew"@[0] == 'b' && "cask"@[0] == 'c' && "uv"@[0] == 'u' && "go"@[0] == 'g');
}

/// What a line says goes to the end of its list, and the other lists stay.
pub proof fn entries_go_to_their_list(w: WaxfileView, e: EntryView)
    ensures
        with_entry(w, Section::Brew, e) == (WaxfileView { brew: w.brew.push(e), ..w }),
        with_entry(w, Section::Cask, e) == (WaxfileView { cask: w.cask.push(e), ..w }),
        with_entry(w, Section::Cargo, e) == (WaxfileView { cargo: w.cargo.push(e), ..w }),
        with_entry(w, Section::Uv, e) == (WaxfileView { uv: w.uv.push(e), ..w }),
        empty_waxfile().tap.len() == 0 && empty_waxfile().brew.len() == 0
            && empty_waxfile().cask.len() == 0 && empty_waxfile().cargo.len() == 0
            && empty_waxfile().uv.len() == 0,
{
}

/// A line of nothing but a comment adds nothing; one with a directive adds what it is about
/// to the list of the directive; one that cannot be read is an error.
pub proof fn lines_add_what_they_say(
    w: WaxfileView,
    raw: Seq<char>,
    line: nat,
    directive: Seq<char>,
    rest: Seq<char>,
    name: Seq<char>,
    e: EntryView,
    s: Section,
)
    ensures
        ({
            let code = text::trim(without_comment(raw));
            &&& code.len() == 0 ==> with_line(w, raw, line) == Ok::<WaxfileView, Seq<char>>(w)
            &&& code.len() > 0 && directive_of(code) is None ==> with_line(w, raw, line) is Err
            &&& code.len() > 0 && directive_of(code) == Some((directive, rest)) ==> {
                &&& directive == "tap"@ && string_in(rest, line) == Ok::<Seq<char>, Seq<char>>(name)
                    ==> with_line(w, raw, line) == Ok::<WaxfileView, Seq<char>>(
                    WaxfileView { tap: w.tap.push(name), ..w },
                )
                &&& directive == "tap"@ && string_in(rest, line) is Err ==> with_line(w, raw, line)
                    is Err
                &&& directive != "tap"@ && section_of(directive) == Some(s) && entry_in(rest, line)
                    == Ok::<EntryView, Seq<char>>(e) ==> with_line(w, raw, line) == Ok::<
                    WaxfileView,
                    Seq<char>,
                >(with_entry(w, s, e))
                &&& directive != "tap"@ && section_of(directive) == Some(s) && entry_in(rest, line)
                    is Err ==> with_line(w, raw, line) is Err
                &&& directive != "tap"@ && section_of(directive) is None && is_ignored(directive)
                    ==> with_line(w, raw, line) == Ok::<WaxfileView, Seq<char>>(w)
                &&& directive != "tap"@ && section_of(directive) is None && !is_ignored(directive)
                    ==> with_line(w, raw, line) is Err
            }
        }),
{
}

/// The lines of a file are read in their order, up to the first that cannot be read.
pub proof fn lines_are_read_in_order(l: Seq<Seq<char>>, line: Seq<char>, w: WaxfileView)
    ensures
        read_lines(l) == Ok::<WaxfileView, Seq<char>>(w) ==> read_lines(l.push(line)) == with_line(
            w,
            line,
            l.len() + 1,
        ),
        read_lines(l) is Err ==> read_lines(l.push(line)) == read_lines(l),
        read_lines(Seq::empty()) == Ok::<WaxfileView, Seq<char>>(empty_waxfile()),
{
    assert(l.push(line).drop_last() =~= l);
}

/// An entry has the name in its quotes, and arguments where it is given some.
pub proof fn entries_are_read(rest: Seq<char>, line: nat, name: Seq<char>, args: Seq<Seq<char>>)
    ensures
        string_in(rest, line) is Err ==> entry_in(rest, line) is Err,
        string_in(rest, line) == Ok::<Seq<char>, Seq<char>>(name) ==> {
            &&& args_in(rest) is Err ==> entry_in(rest, line) is Err
            &&& args_in(rest) == Ok::<Seq<Seq<char>>, Seq<char>>(args) ==> (entry_in(
                rest,
                line,
            ) matches Ok(e) && e.name() == name && e.version() is None && (args.len() == 0
                ==> e.args() is None) && (args.len() > 0 ==> e.args() == Some(args)))
        },
        !text::contains(rest, "args:"@) ==> args_in(rest) == Ok::<Seq<Seq<char>>, Seq<char>>(
            Seq::empty(),
        ),
{
}

/// Behind the word for arguments one stands in quotes, or several in brackets between
/// commas.
pub proof fn arguments_are_read(before: Seq<char>, after: Seq<char>, one: Seq<char>, end: int)
    requires
        forall|j: int|
            0 <= j < before.len() ==> !text::occurs_at(
                before + "args:"@ + after,
                "args:"@,
                j,
            ),
    ensures
        ({
            let a = text::trim(after);
            let r = args_in(before + "args:"@ + after);
            &&& text::starts_with(a, "\""@) && string_in(a, 0) == Ok::<Seq<char>, Seq<char>>(one)
                ==> r == Ok::<Seq<Seq<char>>, Seq<char>>(seq![one])
            &&& text::starts_with(a, "\""@) && string_in(a, 0) is Err ==> r is Err
            &&& !text::starts_with(a, "\""@) && !text::starts_with(a, "["@) ==> r == Ok::<
                Seq<Seq<char>>,
                Seq<char>,
            >(Seq::empty())
            &&& !text::starts_with(a, "\""@) && text::starts_with(a, "["@) && !text::contains(
                a,
                "]"@,
            ) ==> r is Err
            &&& !text::starts_with(a, "\""@) && text::starts_with(a, "["@) && text::contains(a, "]"@)
                && text::position(a, "]"@) == end ==> r == strings_in(
                text::split(a.subrange(1, end), ','),
            )
        }),
{
    text::position_of_first(before, "args:"@, after);
}

/// The texts of a list are read in their order; empty places are passed over.
pub proof fn listed_texts_are_read(
    parts: Seq<Seq<char>>,
    p: Seq<char>,
    before: Seq<Seq<char>>,
    v: Seq<char>,
)
    requires
        strings_in(parts) == Ok::<Seq<Seq<char>>, Seq<char>>(before),
    ensures
        text::trim(p).len() == 0 ==> strings_in(parts.push(p)) == Ok::<Seq<Seq<char>>, Seq<char>>(
            before,
        ),
        text::trim(p).len() > 0 && string_in(text::trim(p), 0) == Ok::<Seq<char>, Seq<char>>(v)
            ==> strings_in(parts.push(p)) == Ok::<Seq<Seq<char>>, Seq<char>>(before.push(v)),
        text::trim(p).len() > 0 && string_in(text::trim(p), 0) is Err ==> strings_in(parts.push(p))
            is Err,
{
    assert(parts.push(p).drop_last() =~= parts);
}

/// A text that does not begin with a quote, or has no end, cannot be read.
pub proof fn texts_stand_in_quotes(rest: Seq<char>, line: nat)
    ensures
        !text::starts_with(text::trim_start(rest), "\""@) ==> string_in(rest, line) == Err::<
            Seq<char>,
            Seq<char>,
        >("Expected quoted string on Brewfile line "@ + text::decimal(line)),
        text::starts_with(text::trim_start(rest), "\""@) && quoted_from(
            text::trim_start(rest),
            1,
            false,
        ) is None ==> string_in(rest, line) == Err::<Seq<char>, Seq<char>>(
            "Unterminated quoted string on Brewfile line "@ + text::decimal(line),
        ),
{
}

/// A file of a bundle is looked for under its own names before those of Homebrew.
pub proof fn own_names_come_first()
    ensures
        bundle_names().len() == 6,
        bundle_names()[0] == "Waxfile"@ && bundle_names()[1] == "Waxfile.toml"@,
        bundle_names()[2] == "waxfile"@ && bundle_names()[3] == "waxfile.toml"@,
        bundle_names()[4] == "Brewfile"@ && bundle_names()[5] == "brewfile"@,
{
}

/// An entry by itself is its name; one with details has what they say.
pub proof fn entries_have_what_they_say(
    name: Seq<char>,
    version: Option<Seq<char>>,
    args: Option<Seq<Seq<char>>>,
)
    ensures
        EntryView::Simple(name).name() == name,
        EntryView::Simple(name).version() is None,
        EntryView::Simple(name).args() is None,
        (EntryView::Detailed { name, version, args }).name() == name,
        (EntryView::Detailed { name, version, args }).version() == version,
        (EntryView::Detailed { name, version, args }).args() == args,
{
}

/// A trial tells each name with its kind, in its order.
pub proof fn trials_tell_each_name(names: Seq<Seq<char>>, kind: Seq<char>, suffix: Seq<char>, i: int)
    ensures
        trial_lines(names, kind, suffix).len() == names.len(),
        0 <= i < names.len() ==> trial_lines(names, kind, suffix)[i] == "+ "@ + kind + " "@
            + names[i] + suffix,
{
}

/// Each list is counted under its own word.
pub proof fn lists_are_counted(tap: nat, brew: nat, cask: nat, cargo: nat, uv: nat)
    ensures
        counts_text(tap, brew, cask, cargo, uv) == text::decimal(tap) + " taps, "@ + text::decimal(
            brew,
        ) + " formulae, "@ + text::decimal(cask) + " casks, "@ + text::decimal(cargo) + " cargo, "@
            + text::decimal(uv) + " uv"@,
{
}

/// A tool is there where a line of the listing begins with its name; an indented line names
/// no tool where tools stand at the margin.
pub proof fn listed_tools_are_there(l: Seq<Seq<char>>, name: Seq<char>, i: int)
    ensures
        0 <= i < l.len() && text::starts_with(l[i], name) ==> some_line_names(l, name, false),
        0 <= i < l.len() && text::starts_with(l[i], name) && !text::starts_with(l[i], " "@)
            ==> some_line_names(l, name, true),
        (forall|j: int| 0 <= j < l.len() ==> !text::starts_with(#[trigger] l[j], name))
            ==> !some_line_names(l, name, false) && !some_line_names(l, name, true),
        (forall|j: int| 0 <= j < l.len() ==> text::starts_with(#[trigger] l[j], " "@))
            ==> !some_line_names(l, name, true),
{
    if 0 <= i < l.len() {
        assert(text::starts_with(l[i], name) ==> line_names(l[i], name, false));
        assert(text::starts_with(l[i], name) && !text::starts_with(l[i], " "@) ==> line_names(
            l[i],
            name,
            true,
        ));
    }
}

/// A tool is installed by its name, at the version asked for, with its arguments behind.
pub proof fn tools_are_installed_by_name(name: Seq<char>, v: Seq<char>, a: Seq<Seq<char>>)
    ensures
        cargo_args(EntryView::Simple(name)) == seq!["install"@, name],
        cargo_args(EntryView::Detailed { name, version: Some(v), args: None }) == seq![
            "install"@,
            name,
            "--version"@,
            v,
        ],
        cargo_args(EntryView::Detailed { name, version: None, args: Some(a) }) == seq![
            "install"@,
            name,
        ] + a,
        cargo_args(EntryView::Detailed { name, version: Some(v), args: Some(a) }) == seq![
            "install"@,
            name,
            "--version"@,
            v,
        ] + a,
        uv_args(EntryView::Simple(name)) == seq!["tool"@, "install"@, name],
        uv_args(EntryView::Detailed { name, version: Some(v), args: Some(a) }) == seq![
            "tool"@,
            "install"@,
            name + "=="@ + v,
        ] + a,
        uv_args(EntryView::Detailed { name, version: None, args: Some(a) }) == seq![
            "tool"@,
            "install"@,
            name,
        ] + a,
{
    let e = Seq::<Seq<char>>::empty();
    assert(seq!["install"@, name] + e =~= seq!["install"@, name]);
    assert(seq!["install"@, name, "--version"@, v] + e =~= seq!["install"@, name, "--version"@, v]);
    assert(seq!["tool"@, "install"@, name] + e =~= seq!["tool"@, "install"@, name]);
}

/// Each name is written on a line of its own, in quotes; the names of packages and of casks
/// stand in their own lists, and an empty list is not written.
pub proof fn names_are_written(names: Seq<Seq<char>>, name: Seq<char>, casks: Seq<Seq<char>>)
    ensures
        name_lines(names.push(name)) == name_lines(names) + ("  \""@ + name + "\",\n"@),
        name_lines(Seq::empty()).len() == 0,
        dump_of(Seq::empty(), Seq::empty()).len() == 0,
        names.len() > 0 ==> dump_of(names, Seq::empty()) == "brew = [\n"@ + name_lines(names)
            + "]\n\n"@,
        casks.len() > 0 ==> dump_of(Seq::empty(), casks) == "cask = [\n"@ + name_lines(casks)
            + "]\n"@,
        dump_of(names, casks) == dump_of(names, Seq::empty()) + dump_of(Seq::empty(), casks),
{
    assert(names.push(name).drop_last() =~= names);
    let e = Seq::<char>::empty();
    let a = dump_of(names, Seq::empty());
    let b = dump_of(Seq::empty(), casks);
    let x = "brew = [\n"@ + name_lines(names) + "]\n\n"@;
    let y = "cask = [\n"@ + name_lines(casks) + "]\n"@;
    assert(x + e =~= x);
    assert(e + y =~= y);
    assert(dump_of(names, casks) =~= a + b);
}

/// A line that cannot be read is told with its number.
pub proof fn bad_lines_are_told(
    w: WaxfileView,
    raw: Seq<char>,
    line: nat,
    directive: Seq<char>,
    rest: Seq<char>,
)
    ensures
        ({
            let code = text::trim(without_comment(raw));
            &&& code.len() > 0 && directive_of(code) is None ==> with_line(w, raw, line) == Err::<
                WaxfileView,
                Seq<char>,
            >("Unsupported Brewfile line "@ + text::decimal(line) + ": "@ + code)
            &&& code.len() > 0 && directive_of(code) == Some((directive, rest)) && directive
                != "tap"@ && section_of(directive) is None && !is_ignored(directive) ==> with_line(
                w,
                raw,
                line,
            ) == Err::<WaxfileView, Seq<char>>(
                "Unsupported Brewfile directive on line "@ + text::decimal(line) + ": "@
                    + directive,
            )
        }),
{
}

}
