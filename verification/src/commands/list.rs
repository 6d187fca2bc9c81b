//! Listing what is installed.
use crate::cask::InstalledCask;
use crate::commands::upgrade;
use crate::commands::upgrade::{OutdatedPackage, OutdatedView};
use crate::install::InstalledPackage;
use crate::order::{sort_by_key, HasKey, Keyed};
use crate::outside::lowercased;
use crate::paths::below;
use crate::table::Table;
use crate::text::{chars_of, find, joined, number, same_str};
use crate::ui::dirs;
use crate::{order, outside, paths, text};
use vstd::prelude::*;

verus! {

/// A line of the list.
#[derive(Debug)]
pub struct InstalledRow {
    pub name: String,
    pub line: String,
    pub is_cask: bool,
}

/// The mathematical content of an `InstalledRow`.
pub struct RowView {
    pub name: Seq<char>,
    pub line: Seq<char>,
    pub is_cask: bool,
}

impl View for InstalledRow {
    type V = RowView;

    open spec fn view(&self) -> RowView {
        RowView { name: self.name@, line: self.line@, is_cask: self.is_cask }
    }
}

/// An `InstalledRow` is seen as what it holds.
pub proof fn installed_row_is_seen_as_it_is(x: InstalledRow)
    ensures
        x@.name == x.name@,
        x@.line == x.line@,
        x@.is_cask == x.is_cask,
{
}

impl HasKey for RowView {
    open spec fn key(&self) -> Seq<char> {
        self.name
    }
}

impl HasKey for InstalledRow {
    open spec fn key(&self) -> Seq<char> {
        self.name@
    }
}

impl Keyed for InstalledRow {
    type Shown = RowView;

    open spec fn shown(&self) -> RowView {
        self@
    }

    proof fn shown_key(&self) {
    }

    fn key_str(&self) -> (r: &str) {
        self.name.as_str()
    }
}

pub open spec fn row_views(v: Seq<InstalledRow>) -> Seq<RowView> {
    Seq::new(v.len(), |i: int| v[i]@)
}

/// Where packages are looked for: in the cellar that was chosen, or else in
/// Homebrew's and in the user's.
pub open spec fn cellars(
    chosen: Option<Seq<char>>,
    homebrew: Seq<char>,
    home: Option<Seq<char>>,
) -> Seq<Seq<char>> {
    match chosen {
        Some(c) => seq![c],
        None => seq![
            paths::path_join(homebrew, "Cellar"@),
            paths::path_join(
                match home {
                    Some(h) => h,
                    None => homebrew,
                },
                ".local/wax/Cellar"@,
            ),
        ],
    }
}

/// Where packages are looked for: the first of these that is there, or else the
/// first.
pub fn cellar_candidates(chosen: Option<&str>, homebrew: &str, home: Option<&str>) -> (r: Vec<
    String,
>)
    ensures
        text::views(r@) == cellars(dirs::str_view(chosen), homebrew@, dirs::str_view(home)),
{
    let mut v: Vec<String> = Vec::new();
    match chosen {
        Some(c) => v.push(String::from_str(c)),
        None => {
            v.push(below(homebrew, "Cellar"));
            match home {
                Some(h) => v.push(below(h, ".local/wax/Cellar")),
                None => v.push(below(homebrew, ".local/wax/Cellar")),
            }
        },
    }
    proof {
        assert(text::views(v@) =~= cellars(
            dirs::str_view(chosen),
            homebrew@,
            dirs::str_view(home),
        ));
    }
    v
}

/// What is said where no package matches a query.
pub fn no_match_text(query: Option<&str>) -> (r: String)
    ensures
        r@ == "no installed packages match '"@ + (match dirs::str_view(query) {
            Some(q) => q,
            None => ""@,
        }) + "'"@,
{
    let mut m = String::from_str("no installed packages match '");
    match query {
        Some(q) => m.append(q),
        None => m.append(""),
    }
    m.append("'");
    m
}

/// The line of a package with its versions, marked where it was built from
/// source.
pub open spec fn package_row(name: Seq<char>, versions: Seq<Seq<char>>, from_source: bool) -> RowView {
    RowView {
        name,
        line: name + " "@ + text::join(versions, ", "@) + if from_source {
            " (source)"@
        } else {
            ""@
        },
        is_cask: false,
    }
}

pub open spec fn cask_row(name: Seq<char>, version: Seq<char>) -> RowView {
    RowView { name, line: name + " "@ + version + " (cask)"@, is_cask: true }
}

/// The packages found, each a name with its versions.
pub open spec fn found_views(v: Seq<(String, Vec<String>)>) -> Seq<(Seq<char>, Seq<Seq<char>>)> {
    Seq::new(v.len(), |i: int| (v[i].0@, text::views(v[i].1@)))
}

/// A package that is recorded as built from source.
pub open spec fn built(m: Map<Seq<char>, InstalledPackage>, name: Seq<char>) -> bool {
    m.contains_key(name) && m[name].from_source
}

pub open spec fn package_rows(
    found: Seq<(Seq<char>, Seq<Seq<char>>)>,
    m: Map<Seq<char>, InstalledPackage>,
) -> Seq<RowView> {
    Seq::new(found.len(), |i: int| package_row(found[i].0, found[i].1, built(m, found[i].0)))
}

pub open spec fn cask_rows(e: Seq<crate::table::Entry<InstalledCask>>) -> Seq<RowView> {
    Seq::new(e.len(), |i: int| cask_row(e[i].name@, e[i].value.version@))
}

/// The lines of the list, by name; a package comes before a cask of its name.
pub fn collect_installed_rows(
    found: &Vec<(String, Vec<String>)>,
    installed: &Table<InstalledPackage>,
    casks: &Table<InstalledCask>,
) -> (r: Vec<InstalledRow>)
    requires
        installed.wf(),
    ensures
        row_views(r@) == order::sort(
            package_rows(found_views(found@), installed@) + order::sort(cask_rows(casks.entries@)),
        ),
{
    let ghost f = found_views(found@);
    let mut rows: Vec<InstalledRow> = Vec::new();
    for i in 0..found.len()
        invariant
            installed.wf(),
            f == found_views(found@),
            rows@.len() == i,
            forall|j: int|
                0 <= j < i ==> (#[trigger] rows@[j])@ == package_rows(f, installed@)[j],
    {
        let name = &found[i].0;
        let from_source = match installed.get(name.as_str()) {
            Some(p) => p.from_source,
            None => false,
        };
        let mut line = name.clone();
        line.append(" ");
        line.append(joined(&found[i].1, ", ").as_str());
        if from_source {
            line.append(" (source)");
        } else {
            line.append("");
        }
        rows.push(InstalledRow { name: name.clone(), line, is_cask: false });
    }
    let ghost packages = row_views(rows@);
    proof {
        assert(packages =~= package_rows(f, installed@));
    }
    let mut listed: Vec<InstalledRow> = Vec::new();
    for i in 0..casks.entries.len()
        invariant
            listed@.len() == i,
            forall|j: int|
                0 <= j < i ==> (#[trigger] listed@[j])@ == cask_rows(casks.entries@)[j],
    {
        let e = &casks.entries[i];
        let mut line = e.name.clone();
        line.append(" ");
        line.append(e.value.version.as_str());
        line.append(" (cask)");
        listed.push(InstalledRow { name: e.name.clone(), line, is_cask: true });
    }
    proof {
        assert(order::shown_all(listed@) =~= cask_rows(casks.entries@));
    }
    sort_by_key(&mut listed);
    let ghost sorted = listed@;
    rows.append(&mut listed);
    proof {
        assert(order::shown_all(sorted) =~= row_views(sorted));
        assert(order::shown_all(rows@) =~= packages + row_views(sorted));
    }
    sort_by_key(&mut rows);
    proof {
        assert(order::shown_all(rows@) =~= row_views(rows@));
    }
    rows
}

/// A line matches a query that occurs in its name or in the line, whatever the
/// case.
pub open spec fn row_matches(row: RowView, query: Seq<char>) -> bool {
    let q = outside::lowercase(query);
    q.len() == 0 || text::contains(outside::lowercase(row.name), q) || text::contains(
        outside::lowercase(row.line),
        q,
    )
}

/// Whether a line matches a query.
pub fn matches_query(row: &InstalledRow, query: &str) -> (r: bool)
    ensures
        r == row_matches(row@, query@),
{
    let q = lowercased(query);
    let name = lowercased(row.name.as_str());
    let line = lowercased(row.line.as_str());
    lowered_matches(name.as_str(), line.as_str(), q.as_str())
}

/// Whether a query in lower case is empty, or occurs in a name or a line in lower
/// case.
pub fn lowered_matches(name: &str, line: &str, query: &str) -> (r: bool)
    ensures
        r == (query@.len() == 0 || text::contains(name@, query@) || text::contains(line@, query@)),
{
    let q = chars_of(query);
    if q.len() == 0 {
        return true;
    }
    let n = chars_of(name);
    let l = chars_of(line);
    find(n.as_slice(), q.as_slice()).is_some() || find(l.as_slice(), q.as_slice()).is_some()
}

/// The lines that match a query.
pub open spec fn matching(rows: Seq<RowView>, query: Seq<char>) -> Seq<RowView>
    decreases rows.len(),
{
    if rows.len() == 0 {
        Seq::empty()
    } else if row_matches(rows.last(), query) {
        matching(rows.drop_last(), query).push(rows.last())
    } else {
        matching(rows.drop_last(), query)
    }
}

/// The lines that match a query; none is asked for by an empty one.
pub fn list(rows: &Vec<InstalledRow>, query: Option<&str>) -> (r: Vec<InstalledRow>)
    ensures
        row_views(r@) == matching(
            row_views(rows@),
            match dirs::str_view(query) {
                Some(q) => q,
                None => ""@,
            },
        ),
{
    let q = match query {
        Some(q) => q,
        None => "",
    };
    let ghost v = row_views(rows@);
    let mut out: Vec<InstalledRow> = Vec::new();
    proof {
        assert(row_views(out@) =~= matching(v.take(0), q@));
    }
    for i in 0..rows.len()
        invariant
            v == row_views(rows@),
            row_views(out@) == matching(v.take(i as int), q@),
    {
        let ghost before = row_views(out@);
        proof {
            assert(v.take(i + 1).drop_last() =~= v.take(i as int));
            assert(v.take(i + 1).last() == rows@[i as int]@);
        }
        if matches_query(&rows[i], q) {
            let row = InstalledRow {
                name: rows[i].name.clone(),
                line: rows[i].line.clone(),
                is_cask: rows[i].is_cask,
            };
            out.push(row);
            proof {
                assert(row_views(out@) =~= before.push(rows@[i as int]@));
            }
        }
    }
    proof {
        assert(v.take(v.len() as int) =~= v);
    }
    out
}

/// How many lines are, or are not, of casks.
pub open spec fn count_of(rows: Seq<RowView>, is_cask: bool) -> nat
    decreases rows.len(),
{
    if rows.len() == 0 {
        0
    } else {
        count_of(rows.drop_last(), is_cask) + if rows.last().is_cask == is_cask {
            1nat
        } else {
            0nat
        }
    }
}

/// How many lines are of formulae, and how many of casks.
pub fn summarize_counts(rows: &Vec<InstalledRow>) -> (r: (usize, usize))
    ensures
        r.0 == count_of(row_views(rows@), false),
        r.1 == count_of(row_views(rows@), true),
        r.0 + r.1 == rows@.len(),
{
    let ghost v = row_views(rows@);
    let mut formulae: usize = 0;
    let mut casks: usize = 0;
    for i in 0..rows.len()
        invariant
            v == row_views(rows@),
            formulae == count_of(v.take(i as int), false),
            casks == count_of(v.take(i as int), true),
            formulae + casks == i,
    {
        proof {
            assert(v.take(i + 1).drop_last() =~= v.take(i as int));
            assert(v.take(i + 1).last() == rows@[i as int]@);
        }
        if rows[i].is_cask {
            casks = casks + 1;
        } else {
            formulae = formulae + 1;
        }
    }
    proof {
        assert(v.take(v.len() as int) =~= v);
    }
    (formulae, casks)
}

/// How many formulae and casks there are, each kind where there are any.
pub open spec fn parts_of(formulae: nat, casks: nat) -> Seq<Seq<char>> {
    (if formulae == 0 {
        Seq::<Seq<char>>::empty()
    } else {
        seq![
            text::decimal(formulae) + if formulae == 1 {
                " formula"@
            } else {
                " formulae"@
            },
        ]
    }) + (if casks == 0 {
        Seq::<Seq<char>>::empty()
    } else {
        seq![
            text::decimal(casks) + if casks == 1 {
                " cask"@
            } else {
                " casks"@
            },
        ]
    })
}

/// The last line of the list.
pub fn print_summary(total: usize, formulae: usize, casks: usize) -> (r: String)
    ensures
        r@ == text::decimal(total as nat) + (if total == 1 {
            " package"@
        } else {
            " packages"@
        }) + " installed ("@ + text::join(parts_of(formulae as nat, casks as nat), ", "@) + ")"@,
{
    let mut parts: Vec<String> = Vec::new();
    if formulae > 0 {
        let mut p = number(formulae as u128);
        if formulae == 1 {
            p.append(" formula");
        } else {
            p.append(" formulae");
        }
        parts.push(p);
    }
    if casks > 0 {
        let mut p = number(casks as u128);
        if casks == 1 {
            p.append(" cask");
        } else {
            p.append(" casks");
        }
        parts.push(p);
    }
    proof {
        assert(text::views(parts@) =~= parts_of(formulae as nat, casks as nat));
    }
    let mut m = number(total as u128);
    if total == 1 {
        m.append(" package");
    } else {
        m.append(" packages");
    }
    m.append(" installed (");
    m.append(joined(&parts, ", ").as_str());
    m.append(")");
    m
}

/// What is offered for a package that was chosen from the list.
#[derive(Debug)]
pub enum Offer {
    Pinned,
    UpToDate,
    /// The upgrade of the package at this place among the outdated ones.
    Upgrade(usize),
}

/// The first outdated package of a name.
pub open spec fn first_outdated(o: Seq<OutdatedView>, name: Seq<char>) -> Option<int>
    decreases o.len(),
{
    if o.len() == 0 {
        None
    } else if o[0].name == name {
        Some(0)
    } else {
        match first_outdated(o.skip(1), name) {
            Some(i) => Some(i + 1),
            None => None,
        }
    }
}

/// What is offered for a package that was chosen from the list.
pub fn offer_upgrade_for_selection(
    name: &str,
    installed: &Table<InstalledPackage>,
    outdated: &Vec<OutdatedPackage>,
) -> (r: Offer)
    requires
        installed.wf(),
    ensures
        if installed@.contains_key(name@) && installed@[name@].pinned {
            r is Pinned
        } else {
            match first_outdated(upgrade::outdated_views(outdated@), name@) {
                Some(i) => r == Offer::Upgrade(i as usize) && i < outdated@.len(),
                None => r is UpToDate,
            }
        },
{
    let pinned = match installed.get(name) {
        Some(p) => p.pinned,
        None => false,
    };
    if pinned {
        return Offer::Pinned;
    }
    let ghost o = upgrade::outdated_views(outdated@);
    proof {
        assert(o.skip(0) =~= o);
    }
    for i in 0..outdated.len()
        invariant
            o == upgrade::outdated_views(outdated@),
            !(installed@.contains_key(name@) && installed@[name@].pinned),
            first_outdated(o, name@) == match first_outdated(o.skip(i as int), name@) {
                Some(k) => Some(k + i),
                None => None,
            },
    {
        proof {
            assert(o.skip(i as int)[0] == outdated@[i as int]@);
            assert(o.skip(i as int).skip(1) =~= o.skip(i + 1));
        }
        if same_str(outdated[i].name.as_str(), name) {
            return Offer::Upgrade(i);
        }
    }
    Offer::UpToDate
}

/// How many lines are shown at once: all of them, but no more than 12.
pub fn page_size(rows: usize) -> (r: usize)
    ensures
        r == if rows > 12 {
            12
        } else if rows == 0 {
            1
        } else {
            rows as int
        },
{
    if rows > 12 {
        12
    } else if rows == 0 {
        1
    } else {
        rows
    }
}

// ---------------------------------------------------------------------------
// Laws of what is listed

/// A package is listed with its versions, and told to be built from source exactly where
/// its record says so; a cask is told to be one.
pub proof fn rows_tell_what_they_are(
    found: Seq<(Seq<char>, Seq<Seq<char>>)>,
    m: Map<Seq<char>, InstalledPackage>,
    e: Seq<crate::table::Entry<InstalledCask>>,
    i: int,
)
    ensures
        package_rows(found, m).len() == found.len(),
        cask_rows(e).len() == e.len(),
        0 <= i < found.len() ==> {
            let r = package_rows(found, m)[i];
            &&& r.name == found[i].0 && !r.is_cask
            &&& m.contains_key(found[i].0) && m[found[i].0].from_source ==> r.line == found[i].0
                + " "@ + text::join(found[i].1, ", "@) + " (source)"@
            &&& !m.contains_key(found[i].0) || !m[found[i].0].from_source ==> r.line == found[i].0
                + " "@ + text::join(found[i].1, ", "@) + ""@
        },
        0 <= i < e.len() ==> {
            let r = cask_rows(e)[i];
            r.name == e[i].name@ && r.is_cask && r.line == e[i].name@ + " "@ + e[i].value.version@
                + " (cask)"@
        },
{
}

/// The rows that hold what is asked for, in their name or their line, are listed in their
/// order; an empty query lists all.
pub proof fn matching_rows_are_listed(rows: Seq<RowView>, r: RowView, query: Seq<char>)
    ensures
        ({
            let q = outside::lowercase(query);
            &&& q.len() == 0 || text::contains(outside::lowercase(r.name), q) || text::contains(
                outside::lowercase(r.line),
                q,
            ) ==> matching(rows.push(r), query) == matching(rows, query).push(r)
            &&& q.len() > 0 && !text::contains(outside::lowercase(r.name), q) && !text::contains(
                outside::lowercase(r.line),
                q,
            ) ==> matching(rows.push(r), query) == matching(rows, query)
        }),
        matching(Seq::empty(), query).len() == 0,
{
    assert(rows.push(r).drop_last() =~= rows);
}

/// Each row counts as what it is.
pub proof fn rows_are_counted(rows: Seq<RowView>, r: RowView)
    ensures
        count_of(rows.push(r), r.is_cask) == count_of(rows, r.is_cask) + 1,
        count_of(rows.push(r), !r.is_cask) == count_of(rows, !r.is_cask),
        count_of(Seq::empty(), r.is_cask) == 0,
{
    assert(rows.push(r).drop_last() =~= rows);
}

/// Counts are told in words, one as one, and nothing is told of none.
pub proof fn counts_are_told(formulae: nat, casks: nat)
    ensures
        parts_of(0, 0).len() == 0,
        parts_of(1, 0) == seq![text::decimal(1) + " formula"@],
        parts_of(0, 1) == seq![text::decimal(1) + " cask"@],
        formulae > 1 ==> parts_of(formulae, 0) == seq![text::decimal(formulae) + " formulae"@],
        casks > 1 ==> parts_of(0, casks) == seq![text::decimal(casks) + " casks"@],
        parts_of(formulae, casks) == parts_of(formulae, 0) + parts_of(0, casks),
{
    let e = Seq::<Seq<char>>::empty();
    assert(parts_of(formulae, 0) + e =~= parts_of(formulae, 0));
    assert(e + parts_of(0, casks) =~= parts_of(0, casks));
    assert(parts_of(formulae, casks) =~= parts_of(formulae, 0) + parts_of(0, casks));
    assert(parts_of(1, 0) =~= seq![text::decimal(1) + " formula"@]);
    assert(parts_of(0, 1) =~= seq![text::decimal(1) + " cask"@]);
}

/// The first outdated package of a name is the one offered.
pub proof fn first_outdated_is_offered(
    before: Seq<OutdatedView>,
    x: OutdatedView,
    after: Seq<OutdatedView>,
)
    requires
        forall|i: int| 0 <= i < before.len() ==> (#[trigger] before[i]).name != x.name,
    ensures
        first_outdated(before + seq![x] + after, x.name) == Some(before.len() as int),
        first_outdated(before, x.name) is None,
    decreases before.len(),
{
    let all = before + seq![x] + after;
    if before.len() == 0 {
        assert(all[0] == x);
    } else {
        let t = before.skip(1);
        assert forall|i: int| 0 <= i < t.len() implies (#[trigger] t[i]).name != x.name by {
            assert(t[i] == before[i + 1]);
        }
        first_outdated_is_offered(t, x, after);
        assert(all[0] == before[0]);
        assert(all.skip(1) =~= t + seq![x] + after);
    }
}

/// A cellar that was chosen is the only one looked at; else it is that of Homebrew and that
/// of the user.
pub proof fn cellars_are_looked_at(chosen: Seq<char>, homebrew: Seq<char>, home: Seq<char>)
    ensures
        cellars(Some(chosen), homebrew, Some(home)) == seq![chosen],
        cellars(None, homebrew, Some(home)) == seq![
            paths::path_join(homebrew, "Cellar"@),
            paths::path_join(home, ".local/wax/Cellar"@),
        ],
        cellars(None, homebrew, None) == seq![
            paths::path_join(homebrew, "Cellar"@),
            paths::path_join(homebrew, ".local/wax/Cellar"@),
        ],
{
}

}
