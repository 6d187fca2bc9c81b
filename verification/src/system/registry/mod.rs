//! Indexes of the packages that a distribution offers.
pub mod apk;
pub mod apt;
pub mod dnf;
pub mod pacman;

use crate::text;
use crate::order::{HasKey, Keyed};
use crate::text::{chars_of, pieces, same_str, string_of, trimmed, words_of};
use vstd::hash_set::StringHashSet;
use vstd::prelude::*;

verus! {

#[derive(Debug, Clone)]
pub struct PackageMetadata {
    pub name: String,
    pub version: String,
    pub description: String,
    pub download_url: String,
    pub sha256: Option<String>,
    pub installed_size: u64,
    pub depends: Vec<String>,
    pub provides: Vec<String>,
}

/// The mathematical content of a `PackageMetadata`.
pub struct PackageView {
    pub name: Seq<char>,
    pub version: Seq<char>,
    pub description: Seq<char>,
    pub download_url: Seq<char>,
    pub sha256: Option<Seq<char>>,
    pub installed_size: nat,
    pub depends: Seq<Seq<char>>,
    pub provides: Seq<Seq<char>>,
}

impl View for PackageMetadata {
    type V = PackageView;

    open spec fn view(&self) -> PackageView {
        PackageView {
            name: self.name@,
            version: self.version@,
            description: self.description@,
            download_url: self.download_url@,
            sha256: text::opt_view(self.sha256),
            installed_size: self.installed_size as nat,
            depends: text::views(self.depends@),
            provides: text::views(self.provides@),
        }
    }
}

/// A `PackageMetadata` is seen as what it holds.
pub proof fn package_metadata_is_seen_as_it_is(x: PackageMetadata)
    ensures
        x@.name == x.name@,
        x@.version == x.version@,
        x@.description == x.description@,
        x@.download_url == x.download_url@,
        x@.sha256 == text::opt_view(x.sha256),
        x@.installed_size == x.installed_size as nat,
        x@.depends == text::views(x.depends@),
        x@.provides == text::views(x.provides@),
{
}

impl HasKey for PackageView {
    open spec fn key(&self) -> Seq<char> {
        self.name
    }
}

impl HasKey for PackageMetadata {
    open spec fn key(&self) -> Seq<char> {
        self.name@
    }
}

impl Keyed for PackageMetadata {
    type Shown = PackageView;

    open spec fn shown(&self) -> PackageView {
        self@
    }

    proof fn shown_key(&self) {
    }

    fn key_str(&self) -> (r: &str) {
        self.name.as_str()
    }
}

pub open spec fn package_views(v: Seq<PackageMetadata>) -> Seq<PackageView> {
    Seq::new(v.len(), |i: int| v[i]@)
}

pub struct PackageIndex {
    pub packages: Vec<PackageMetadata>,
}

/// The package at `i` is the first of that name.
pub open spec fn first_named(v: Seq<PackageView>, name: Seq<char>, i: int) -> bool {
    &&& 0 <= i < v.len()
    &&& v[i].name == name
    &&& forall|j: int| 0 <= j < i ==> (#[trigger] v[j]).name != name
}

/// The package at `i` is the first that provides `name`.
pub open spec fn first_providing(v: Seq<PackageView>, name: Seq<char>, i: int) -> bool {
    &&& 0 <= i < v.len()
    &&& v[i].provides.contains(name)
    &&& forall|j: int| 0 <= j < i ==> !(#[trigger] v[j]).provides.contains(name)
}

/// Some package has the name `name`.
pub open spec fn has_name(v: Seq<PackageView>, name: Seq<char>) -> bool {
    exists|i: int| 0 <= i < v.len() && (#[trigger] v[i]).name == name
}

/// The package at `i` answers to `name`: it is the first of that name or, when
/// no package has that name, the first that provides it.
pub open spec fn found_at(v: Seq<PackageView>, name: Seq<char>, i: int) -> bool {
    first_named(v, name, i) || (!has_name(v, name) && first_providing(v, name, i))
}

impl PackageIndex {
    pub fn find(&self, name: &str) -> (r: Option<&PackageMetadata>)
        ensures
            match r {
                Some(p) => exists|i: int|
                    #[trigger] found_at(package_views(self.packages@), name@, i) && *p
                        == self.packages@[i],
                None => forall|i: int| !found_at(package_views(self.packages@), name@, i),
            },
    {
        match self.find_position(name) {
            Some(i) => Some(&self.packages[i]),
            None => None,
        }
    }

    /// Where the package that answers to `name` stands.
    pub fn find_position(&self, name: &str) -> (r: Option<usize>)
        ensures
            match r {
                Some(i) => i < self.packages@.len() && found_at(
                    package_views(self.packages@),
                    name@,
                    i as int,
                ),
                None => forall|i: int| !found_at(package_views(self.packages@), name@, i),
            },
    {
        let ghost v = package_views(self.packages@);
        for i in 0..self.packages.len()
            invariant
                v == package_views(self.packages@),
                forall|j: int| 0 <= j < i ==> (#[trigger] v[j]).name != name@,
        {
            if same_str(self.packages[i].name.as_str(), name) {
                proof {
                    assert(v[i as int].name == name@);
                    assert(first_named(v, name@, i as int));
                }
                return Some(i);
            }
        }
        for i in 0..self.packages.len()
            invariant
                v == package_views(self.packages@),
                forall|j: int| 0 <= j < v.len() ==> (#[trigger] v[j]).name != name@,
                forall|j: int| 0 <= j < i ==> !(#[trigger] v[j]).provides.contains(name@),
        {
            if holds(&self.packages[i].provides, name) {
                proof {
                    assert(v[i as int].provides.contains(name@));
                }
                return Some(i);
            }
        }
        None
    }
}

/// Whether `name` stands in `list`.
pub fn holds(list: &Vec<String>, name: &str) -> (r: bool)
    ensures
        r == text::views(list@).contains(name@),
{
    for i in 0..list.len()
        invariant
            forall|j: int| 0 <= j < i ==> #[trigger] list@[j]@ != name@,
    {
        if same_str(list[i].as_str(), name) {
            proof {
                assert(text::views(list@)[i as int] == name@);
            }
            return true;
        }
    }
    proof {
        if text::views(list@).contains(name@) {
            let j = choose|j: int| 0 <= j < text::views(list@).len() && text::views(list@)[j] == name@;
            assert(list@[j]@ == name@);
        }
    }
    false
}

/// A dependency without its version constraint: its first word, up to the first
/// opening bracket.
pub open spec fn dep_name(dep: Seq<char>) -> Seq<char> {
    let w = text::words(dep);
    text::trim(
        text::split(
            if w.len() > 0 {
                w[0]
            } else {
                dep
            },
            '(',
        )[0],
    )
}

/// The name in a dependency such as `libc6 (>= 2.17)`.
pub fn parse_dep_name(dep: &str) -> (r: String)
    ensures
        r@ == dep_name(dep@),
{
    let c = chars_of(dep);
    string_of(dep_name_of(c.as_slice()))
}

pub fn dep_name_of(dep: &[char]) -> (r: &[char])
    ensures
        r@ == dep_name(dep@),
{
    let w = words_of(dep);
    proof {
        assert(text::slices(w@).len() == w@.len());
    }
    let first = if w.len() > 0 {
        proof {
            assert(text::slices(w@)[0] == w@[0]@);
        }
        w[0]
    } else {
        dep
    };
    let p = pieces(first, '(');
    proof {
        assert(text::slices(p@)[0] == p@[0]@);
    }
    trimmed(p[0])
}

/// Whether an index that was written `age` seconds ago may still be used. The age
/// of a file that cannot be read, or that lies in the future, is unknown.
pub fn is_cache_fresh(age: Option<u64>) -> (r: bool)
    ensures
        r == (age matches Some(seconds) && seconds < 24 * 3600),
{
    match age {
        Some(seconds) => seconds < 24 * 3600,
        None => false,
    }
}

/// The packages without those whose name an earlier one has.
pub open spec fn first_seen(v: Seq<PackageView>) -> Seq<PackageView>
    decreases v.len(),
{
    if v.len() == 0 {
        v
    } else if has_name(v.drop_last(), v.last().name) {
        first_seen(v.drop_last())
    } else {
        first_seen(v.drop_last()).push(v.last())
    }
}

/// No name comes twice among the packages that were seen first, and every name is
/// still there.
pub proof fn first_seen_are_distinct(v: Seq<PackageView>)
    ensures
        forall|i: int, j: int|
            0 <= i < j < first_seen(v).len() ==> (#[trigger] first_seen(v)[i]).name != (
            #[trigger] first_seen(v)[j]).name,
        forall|n: Seq<char>| #[trigger] has_name(first_seen(v), n) <==> has_name(v, n),
    decreases v.len(),
{
    if v.len() > 0 {
        let w = v.drop_last();
        first_seen_are_distinct(w);
        let s = first_seen(w);
        assert forall|n: Seq<char>| #[trigger] has_name(first_seen(v), n) <==> has_name(v, n) by {
            if has_name(w, n) {
                let k = choose|k: int| 0 <= k < w.len() && w[k].name == n;
                assert(v[k].name == n);
                assert(has_name(s, n));
                let j = choose|j: int| 0 <= j < s.len() && s[j].name == n;
                assert(first_seen(v)[j].name == n);
            }
            if has_name(v, n) && !has_name(w, n) {
                let k = choose|k: int| 0 <= k < v.len() && v[k].name == n;
                if k < w.len() {
                    assert(w[k].name == n);
                }
                assert(n == v.last().name);
                assert(first_seen(v)[s.len() as int].name == n);
            }
            if has_name(first_seen(v), n) {
                let k = choose|k: int| 0 <= k < first_seen(v).len() && first_seen(v)[k].name == n;
                if k < s.len() {
                    assert(s[k].name == n);
                    assert(has_name(s, n));
                } else {
                    assert(v[v.len() - 1].name == n);
                }
            }
        }
        if !has_name(w, v.last().name) {
            assert(!has_name(s, v.last().name));
            assert forall|i: int, j: int| 0 <= i < j < first_seen(v).len() implies (
            #[trigger] first_seen(v)[i]).name != (#[trigger] first_seen(v)[j]).name by {
                assert(s[i].name != v.last().name || i >= s.len());
                if j < s.len() {
                    assert(s[i].name != s[j].name);
                }
            }
        }
    }
}

/// Drops every package whose name an earlier one has.
pub fn keep_first_seen(all: Vec<PackageMetadata>) -> (r: Vec<PackageMetadata>)
    ensures
        package_views(r@) == first_seen(package_views(all@)),
{
    let mut seen = StringHashSet::new();
    let mut out: Vec<PackageMetadata> = Vec::new();
    let ghost v = package_views(all@);
    let ghost items = all@;
    for p in it: all
        invariant
            it.seq() == items,
            v == package_views(items),
            package_views(out@) == first_seen(v.take(it.index() as int)),
            forall|n: Seq<char>|
                #[trigger] seen@.contains(n) <==> has_name(v.take(it.index() as int), n),
    {
        let ghost i = it.index() as int;
        let ghost before = package_views(out@);
        let ghost old_seen = seen@;
        let name = p.name.clone();
        proof {
            assert(p == items[i]);
            assert(v[i] == p@);
            assert(v.take(i + 1).drop_last() =~= v.take(i));
            assert(v.take(i + 1).last() == p@);
        }
        if seen.insert(name) {
            out.push(p);
            proof {
                assert(package_views(out@) =~= before.push(p@));
            }
        }
        proof {
            assert forall|n: Seq<char>| #[trigger] seen@.contains(n) <==> has_name(
                v.take(i + 1),
                n,
            ) by {
                assert(seen@.contains(n) <==> old_seen.contains(n) || n == p@.name);
                if has_name(v.take(i + 1), n) {
                    let j = choose|j: int| 0 <= j < i + 1 && (#[trigger] v.take(i + 1)[j]).name == n;
                    if j < i {
                        assert(v.take(i)[j].name == n);
                    }
                }
                if has_name(v.take(i), n) {
                    let j = choose|j: int| 0 <= j < i && (#[trigger] v.take(i)[j]).name == n;
                    assert(v.take(i + 1)[j].name == n);
                }
                if n == p@.name {
                    assert(v.take(i + 1)[i].name == n);
                }
            }
        }
    }
    proof {
        assert(v.take(v.len() as int) =~= v);
    }
    out
}

// ---------------------------------------------------------------------------
// Laws

/// A name without white space or an opening bracket.
pub open spec fn is_plain_name(name: Seq<char>) -> bool {
    name.len() > 0 && forall|i: int|
        0 <= i < name.len() ==> !text::is_space(#[trigger] name[i]) && name[i] != '('
}

/// The characters of `s` before its first white space, and the rest.
proof fn split_at_space(s: Seq<char>) -> (r: (Seq<char>, Seq<char>))
    ensures
        s == r.0 + r.1,
        forall|i: int| 0 <= i < r.0.len() ==> !text::is_space(#[trigger] r.0[i]),
        r.1.len() > 0 ==> text::is_space(r.1[0]),
    decreases s.len(),
{
    if s.len() == 0 || text::is_space(s[0]) {
        let none = Seq::<char>::empty();
        assert(none + s =~= s);
        (none, s)
    } else {
        let (a, b) = split_at_space(s.skip(1));
        let first = seq![s[0]] + a;
        assert(first + b =~= seq![s[0]] + (a + b));
        assert(seq![s[0]] + s.skip(1) =~= s);
        assert forall|i: int| 0 <= i < first.len() implies !text::is_space(#[trigger] first[i]) by {
            if i > 0 {
                assert(first[i] == a[i - 1]);
            }
        }
        (first, b)
    }
}

/// A dependency gives its name, whatever constraint follows behind white space or an
/// opening bracket.
pub proof fn dependency_gives_its_name(name: Seq<char>, constraint: Seq<char>)
    requires
        is_plain_name(name),
        constraint.len() > 0 ==> text::is_space(constraint[0]) || constraint[0] == '(',
    ensures
        dep_name(name + constraint) == name,
{
    let dep = name + constraint;
    let (w, rest) = split_at_space(dep);
    // The first word begins with the name.
    assert(name.len() <= w.len() && w.take(name.len() as int) =~= name) by {
        if w.len() < name.len() {
            assert(dep[w.len() as int] == rest[0]);
            assert(dep[w.len() as int] == name[w.len() as int]);
        }
        assert forall|i: int| 0 <= i < name.len() implies w[i] == name[i] by {
            assert(dep[i] == w[i] && dep[i] == name[i]);
        }
    }
    if rest.len() == 0 {
        assert(dep =~= w);
        text::words_are_parted_by_space(w, ' ', rest);
        assert(text::words(dep)[0] == w);
    } else {
        let c = rest[0];
        assert(dep =~= w.push(c) + rest.skip(1));
        text::words_are_parted_by_space(w, c, rest.skip(1));
        assert(text::words(dep)[0] == w);
    }
    let tail = w.skip(name.len() as int);
    assert(w =~= name + tail);
    assert(!name.contains('(')) by {
        if name.contains('(') {
            let i = choose|i: int| 0 <= i < name.len() && name[i] == '(';
            assert(name[i] != '(');
        }
    }
    text::plain_is_one_piece(name, '(');
    if tail.len() == 0 {
        assert(w =~= name);
        assert(text::split(w, '(')[0] == name);
    } else {
        assert(dep[name.len() as int] == constraint[0]);
        assert(w[name.len() as int] == dep[name.len() as int]);
        assert(!text::is_space(w[name.len() as int]));
        assert(w =~= name.push('(') + tail.skip(1));
        text::split_of_both(name, tail.skip(1), '(');
        assert(text::split(w, '(')[0] == name);
    }
    let none = Seq::<char>::empty();
    assert(!text::is_space(name[0]) && !text::is_space(name[name.len() - 1]));
    text::trimming_keeps_the_middle(none, name, none);
}

/// A package is found by its own name before any that provides the name, and of
/// several the first.
pub proof fn own_name_comes_first(v: Seq<PackageView>, name: Seq<char>, i: int)
    requires
        found_at(v, name, i),
    ensures
        0 <= i < v.len(),
        v[i].name == name || v[i].provides.contains(name),
        forall|j: int| 0 <= j < v.len() && (#[trigger] v[j]).name == name ==> v[i].name == name && i
            <= j,
        v[i].name != name ==> forall|j: int|
            0 <= j < v.len() && (#[trigger] v[j]).provides.contains(name) ==> i <= j,
{
    assert forall|j: int| 0 <= j < v.len() && (#[trigger] v[j]).name == name implies v[i].name
        == name && i <= j by {
        assert(has_name(v, name));
    }
}

/// A package that goes by a name, its own or one that it provides, is found, or
/// another in its place.
pub proof fn named_is_found(v: Seq<PackageView>, name: Seq<char>, k: int)
    requires
        0 <= k < v.len(),
        v[k].name == name || v[k].provides.contains(name),
    ensures
        exists|i: int| found_at(v, name, i),
{
    if has_name(v, name) {
        let j = choose|j: int| 0 <= j < v.len() && (#[trigger] v[j]).name == name;
        let i = first_with_name(v, name, j);
        assert(found_at(v, name, i));
    } else {
        let i = first_that_provides(v, name, k);
        assert(found_at(v, name, i));
    }
}

proof fn first_with_name(v: Seq<PackageView>, name: Seq<char>, j: int) -> (i: int)
    requires
        0 <= j < v.len(),
        v[j].name == name,
    ensures
        first_named(v, name, i),
    decreases j,
{
    if exists|k: int| 0 <= k < j && (#[trigger] v[k]).name == name {
        let k = choose|k: int| 0 <= k < j && (#[trigger] v[k]).name == name;
        first_with_name(v, name, k)
    } else {
        j
    }
}

proof fn first_that_provides(v: Seq<PackageView>, name: Seq<char>, j: int) -> (i: int)
    requires
        0 <= j < v.len(),
        v[j].provides.contains(name),
    ensures
        first_providing(v, name, i),
    decreases j,
{
    if exists|k: int| 0 <= k < j && (#[trigger] v[k]).provides.contains(name) {
        let k = choose|k: int| 0 <= k < j && (#[trigger] v[k]).provides.contains(name);
        first_that_provides(v, name, k)
    } else {
        j
    }
}

/// Of packages with one name the first is kept, and nothing is kept that was not
/// there.
pub proof fn first_of_each_name_is_kept(v: Seq<PackageView>, i: int)
    requires
        0 <= i < v.len(),
        forall|j: int| 0 <= j < i ==> (#[trigger] v[j]).name != v[i].name,
    ensures
        first_seen(v).contains(v[i]),
        forall|k: int| 0 <= k < first_seen(v).len() ==> v.contains(#[trigger] first_seen(v)[k]),
    decreases v.len(),
{
    kept_were_there(v);
    let w = v.drop_last();
    let s = first_seen(w);
    if i < w.len() {
        assert forall|j: int| 0 <= j < i implies (#[trigger] w[j]).name != w[i].name by {
            assert(w[j] == v[j]);
        }
        first_of_each_name_is_kept(w, i);
        let k = choose|k: int| 0 <= k < s.len() && s[k] == v[i];
        assert(first_seen(v)[k] == v[i]);
    } else {
        assert(!has_name(w, v[i].name)) by {
            if has_name(w, v[i].name) {
                let j = choose|j: int| 0 <= j < w.len() && (#[trigger] w[j]).name == v[i].name;
                assert(v[j].name != v[i].name);
            }
        }
        assert(first_seen(v)[s.len() as int] == v[i]);
    }
}

proof fn kept_were_there(v: Seq<PackageView>)
    ensures
        forall|k: int| 0 <= k < first_seen(v).len() ==> v.contains(#[trigger] first_seen(v)[k]),
    decreases v.len(),
{
    if v.len() > 0 {
        let w = v.drop_last();
        let s = first_seen(w);
        kept_were_there(w);
        assert forall|k: int| 0 <= k < first_seen(v).len() implies v.contains(
            #[trigger] first_seen(v)[k],
        ) by {
            if k < s.len() {
                assert(first_seen(v)[k] == s[k]);
                let j = choose|j: int| 0 <= j < w.len() && w[j] == s[k];
                assert(v[j] == s[k]);
            } else {
                assert(v[v.len() - 1] == first_seen(v)[k]);
            }
        }
    }
}

}
