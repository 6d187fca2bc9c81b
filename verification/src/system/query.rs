//! What the query tools of the package managers report as installed.
use crate::{order, outside, text};
use crate::order::{Keyed, Listed, ListedView, sort_by_key};
use crate::outside::lossy_text;
use crate::text::{chars_of, find, lines_of, part, string_of, trimmed};
use vstd::prelude::*;

verus! {

/// `s` up to the first `c`, and what follows it.
pub open spec fn split_once(s: Seq<char>, c: char) -> ListedView {
    if text::contains(s, seq![c]) {
        let i = text::position(s, seq![c]);
        (s.take(i), Some(s.skip(i + 1)))
    } else {
        (s, None)
    }
}

/// The package that a line with a separator reports; a line without a name
/// reports none.
pub open spec fn separated(line: Seq<char>, sep: char) -> Option<ListedView> {
    let (head, rest) = split_once(line, sep);
    let name = text::trim(head);
    if name.len() == 0 {
        None
    } else {
        Some(
            (
                name,
                match rest {
                    Some(v) => Some(text::trim(v)),
                    None => None,
                },
            ),
        )
    }
}

/// The packages that lines with a separator report, in their order.
pub open spec fn separated_lines(l: Seq<Seq<char>>, sep: char) -> Seq<ListedView>
    decreases l.len(),
{
    if l.len() == 0 {
        Seq::empty()
    } else {
        match separated(l.last(), sep) {
            Some(p) => separated_lines(l.drop_last(), sep).push(p),
            None => separated_lines(l.drop_last(), sep),
        }
    }
}

pub fn split_line<'a>(line: &'a [char], sep: char) -> (r: (&'a [char], Option<&'a [char]>))
    ensures
        (r.0@, crate::text::opt(r.1)) == split_once(line@, sep),
{
    let c: Vec<char> = vec![sep];
    proof {
        assert(c@ =~= seq![sep]);
    }
    let n: usize = line.len();
    match find(line, c.as_slice()) {
        Some(i) => {
            proof {
                text::position_is(line@, seq![sep], i as int);
            }
            let head = part(line, 0, i);
            let tail = part(line, i + 1, n);
            proof {
                assert(head@ =~= line@.take(i as int));
                assert(tail@ =~= line@.skip(i + 1));
            }
            (head, Some(tail))
        },
        None => (line, None),
    }
}

/// The packages that lines of a name, `sep` and a version report, sorted by name.
pub fn parse_separated(text: &str, sep: char) -> (r: Vec<Listed>)
    ensures
        order::shown_all(r@) == order::sort(separated_lines(text::lines(text@), sep)),
{
    let c = chars_of(text);
    let l = lines_of(c.as_slice());
    let ghost s = text::slices(l@);
    let mut out: Vec<Listed> = Vec::new();
    proof {
        assert(order::shown_all(out@) =~= Seq::<ListedView>::empty());
    }
    for i in 0..l.len()
        invariant
            s == text::slices(l@),
            order::shown_all(out@) == separated_lines(s.take(i as int), sep),
    {
        let ghost before = order::shown_all(out@);
        proof {
            assert(s.take(i + 1).drop_last() =~= s.take(i as int));
            assert(s.take(i + 1).last() == l@[i as int]@);
        }
        let (head, rest) = split_line(l[i], sep);
        let name = trimmed(head);
        if name.len() > 0 {
            let version = match rest {
                Some(v) => Some(string_of(trimmed(v))),
                None => None,
            };
            let p = (string_of(name), version);
            let ghost shown = p.shown();
            out.push(p);
            proof {
                assert(order::shown_all(out@) =~= before.push(shown));
            }
        }
    }
    proof {
        assert(s.take(s.len() as int) =~= s);
    }
    sort_by_key(&mut out);
    out
}

/// The package that a line `name-version` reports: the version follows the last
/// dash that a digit follows.
pub open spec fn dashed(raw: Seq<char>) -> Option<ListedView> {
    let line = text::trim(raw);
    if line.len() == 0 {
        None
    } else if exists|i: int| versioned_at(line, i) {
        let i = choose|i: int| versioned_at(line, i);
        Some((line.take(i), Some(line.skip(i + 1))))
    } else {
        Some((line, None))
    }
}

/// A dash stands at `i`, and a digit follows it.
pub open spec fn dash_at(line: Seq<char>, i: int) -> bool {
    0 <= i && i + 1 < line.len() && line[i] == '-' && '0' <= line[i + 1] <= '9'
}

/// The last dash of `line` that a digit follows stands at `i`.
pub open spec fn versioned_at(line: Seq<char>, i: int) -> bool {
    dash_at(line, i) && forall|j: int| i < j ==> !dash_at(line, j)
}

pub open spec fn dashed_lines(l: Seq<Seq<char>>) -> Seq<ListedView>
    decreases l.len(),
{
    if l.len() == 0 {
        Seq::empty()
    } else {
        match dashed(l.last()) {
            Some(p) => dashed_lines(l.drop_last()).push(p),
            None => dashed_lines(l.drop_last()),
        }
    }
}

pub fn read_dashed(raw: &[char]) -> (r: Option<Listed>)
    ensures
        match dashed(raw@) {
            Some(p) => r matches Some(q) && q.shown() == p,
            None => r is None,
        },
{
    let line = trimmed(raw);
    if line.len() == 0 {
        return None;
    }
    let n: usize = line.len();
    let mut i: usize = n;
    while i > 0
        invariant
            line@ == text::trim(raw@),
            n == line@.len(),
            n > 0,
            i <= n,
            forall|j: int| i <= j ==> !dash_at(line@, j),
        decreases i,
    {
        i = i - 1;
        if i + 1 < n && line[i] == '-' && '0' <= line[i + 1] && line[i + 1] <= '9' {
            let head = part(line, 0, i);
            let tail = part(line, i + 1, n);
            proof {
                assert(versioned_at(line@, i as int));
                let j = choose|j: int| versioned_at(line@, j);
                assert(dash_at(line@, j));
                assert(head@ =~= line@.take(i as int));
                assert(tail@ =~= line@.skip(i + 1));
            }
            return Some((string_of(head), Some(string_of(tail))));
        }
    }
    proof {
        if exists|j: int| versioned_at(line@, j) {
            let j = choose|j: int| versioned_at(line@, j);
            assert(dash_at(line@, j));
        }
    }
    Some((string_of(line), None))
}

/// The packages that lines of the form `name-version` report, sorted by name.
pub fn parse_dashed(text: &str) -> (r: Vec<Listed>)
    ensures
        order::shown_all(r@) == order::sort(dashed_lines(text::lines(text@))),
{
    let c = chars_of(text);
    let l = lines_of(c.as_slice());
    let ghost s = text::slices(l@);
    let mut out: Vec<Listed> = Vec::new();
    proof {
        assert(order::shown_all(out@) =~= Seq::<ListedView>::empty());
    }
    for i in 0..l.len()
        invariant
            s == text::slices(l@),
            order::shown_all(out@) == dashed_lines(s.take(i as int)),
    {
        let ghost before = order::shown_all(out@);
        proof {
            assert(s.take(i + 1).drop_last() =~= s.take(i as int));
            assert(s.take(i + 1).last() == l@[i as int]@);
        }
        match read_dashed(l[i]) {
            Some(p) => {
                let ghost shown = p.shown();
                out.push(p);
                proof {
                    assert(order::shown_all(out@) =~= before.push(shown));
                }
            },
            None => {},
        }
    }
    proof {
        assert(s.take(s.len() as int) =~= s);
    }
    sort_by_key(&mut out);
    out
}

/// What `dpkg-query` printed, or nothing when it could not be run.
pub fn query_dpkg(stdout: Option<&[u8]>) -> (r: Vec<Listed>)
    ensures
        match stdout {
            Some(b) => order::shown_all(r@) == order::sort(separated_lines(text::lines(outside::lossy(b@)), '\t')),
            None => r@.len() == 0,
        },
{
    match stdout {
        Some(b) => parse_separated(lossy_text(b).as_str(), '\t'),
        None => Vec::new(),
    }
}

/// What `rpm -qa` printed, or nothing when it could not be run.
pub fn query_rpm(stdout: Option<&[u8]>) -> (r: Vec<Listed>)
    ensures
        match stdout {
            Some(b) => order::shown_all(r@) == order::sort(separated_lines(text::lines(outside::lossy(b@)), '\t')),
            None => r@.len() == 0,
        },
{
    match stdout {
        Some(b) => parse_separated(lossy_text(b).as_str(), '\t'),
        None => Vec::new(),
    }
}

/// What `pacman -Q` printed, or nothing when it could not be run.
pub fn query_pacman(stdout: Option<&[u8]>) -> (r: Vec<Listed>)
    ensures
        match stdout {
            Some(b) => order::shown_all(r@) == order::sort(separated_lines(text::lines(outside::lossy(b@)), ' ')),
            None => r@.len() == 0,
        },
{
    match stdout {
        Some(b) => parse_separated(lossy_text(b).as_str(), ' '),
        None => Vec::new(),
    }
}

/// What `apk info -v` printed, or nothing when it could not be run.
pub fn query_apk(stdout: Option<&[u8]>) -> (r: Vec<Listed>)
    ensures
        match stdout {
            Some(b) => order::shown_all(r@) == order::sort(dashed_lines(text::lines(outside::lossy(b@)))),
            None => r@.len() == 0,
        },
{
    match stdout {
        Some(b) => parse_dashed(lossy_text(b).as_str()),
        None => Vec::new(),
    }
}

// ---------------------------------------------------------------------------
// Laws

/// A line gives the name before the first separator and the version behind it, both
/// without white space around them; a line without a separator gives no version, and
/// one without a name gives nothing.
pub proof fn separated_lines_give_both(name: Seq<char>, sep: char, version: Seq<char>)
    requires
        !name.contains(sep),
    ensures
        text::trim(name).len() > 0 ==> separated(name.push(sep) + version, sep) == Some(
            (text::trim(name), Some(text::trim(version))),
        ),
        text::trim(name).len() > 0 ==> separated(name, sep) == Some(
            (text::trim(name), None::<Seq<char>>),
        ),
        text::trim(name).len() == 0 ==> separated(name.push(sep) + version, sep) is None,
{
    let line = name.push(sep) + version;
    assert(line =~= name + seq![sep] + version);
    assert forall|j: int| 0 <= j < name.len() implies !text::occurs_at(
        name + seq![sep] + version,
        seq![sep],
        j,
    ) by {
        if text::occurs_at(name + seq![sep] + version, seq![sep], j) {
            assert(line.subrange(j, j + 1)[0] == name[j]);
            assert(name.contains(name[j]));
        }
    }
    text::position_of_first(name, seq![sep], version);
    if text::contains(name, seq![sep]) {
        let j = choose|j: int| text::occurs_at(name, seq![sep], j);
        assert(name.subrange(j, j + 1)[0] == name[j]);
        assert(name.contains(name[j]));
    }
}

/// A line gives the name before the last dash that a digit follows, and the version
/// behind that dash; a line without one is a name alone.
pub proof fn dashed_lines_give_both(name: Seq<char>, version: Seq<char>)
    requires
        name.len() > 0,
        !text::is_space(name[0]),
        version.len() > 0,
        '0' <= version[0] <= '9',
        !text::is_space(version.last()),
        forall|j: int| !dash_at(version, j),
    ensures
        dashed(name.push('-') + version) == Some((name, Some(version))),
{
    let line = name.push('-') + version;
    let none = Seq::<char>::empty();
    assert(line[0] == name[0] && line.last() == version.last());
    text::trimming_keeps_the_middle(none, line, none);
    let at = name.len() as int;
    assert(line[at] == '-' && line[at + 1] == version[0]);
    assert forall|j: int| at < j implies !dash_at(line, j) by {
        if dash_at(line, j) {
            assert(line[j] == version[j - at - 1] && line[j + 1] == version[j - at]);
            assert(dash_at(version, j - at - 1));
        }
    }
    assert(versioned_at(line, at));
    let i = choose|i: int| versioned_at(line, i);
    assert(i == at) by {
        if i < at {
            assert(!dash_at(line, at));
        }
    }
    assert(line.take(at) =~= name);
    assert(line.skip(at + 1) =~= version);
}

/// A line that no digit follows a dash in is a name without a version; an empty line
/// is nothing.
pub proof fn undashed_lines_give_names(name: Seq<char>)
    requires
        forall|j: int| !dash_at(text::trim(name), j),
    ensures
        text::trim(name).len() > 0 ==> dashed(name) == Some((text::trim(name), None::<Seq<char>>)),
        text::trim(name).len() == 0 ==> dashed(name) is None,
{
    assert forall|i: int| !versioned_at(text::trim(name), i) by {}
}

/// Every line that gives a package is listed, and no other; packages are listed in the
/// order of their names.
pub proof fn lines_are_listed(l: Seq<Seq<char>>, line: Seq<char>, sep: char, p: ListedView)
    ensures
        separated(line, sep) == Some(p) ==> separated_lines(l.push(line), sep) == separated_lines(
            l,
            sep,
        ).push(p),
        separated(line, sep) is None ==> separated_lines(l.push(line), sep) == separated_lines(
            l,
            sep,
        ),
        dashed(line) == Some(p) ==> dashed_lines(l.push(line)) == dashed_lines(l).push(p),
        dashed(line) is None ==> dashed_lines(l.push(line)) == dashed_lines(l),
        separated_lines(Seq::empty(), sep).len() == 0,
        dashed_lines(Seq::empty()).len() == 0,
{
    assert(l.push(line).drop_last() =~= l);
}

}
