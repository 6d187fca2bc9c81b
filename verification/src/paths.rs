//! Paths of a Unix file system, as text.
use crate::text;
use crate::text::{chars_of, pieces, string_of};
use vstd::prelude::*;

verus! {

/// `b` below `a`: an absolute `b` stands for itself, and a slash comes between
/// the two unless `a` is empty or ends with one.
pub open spec fn path_join(a: Seq<char>, b: Seq<char>) -> Seq<char> {
    if b.len() > 0 && b[0] == '/' {
        b
    } else if a.len() == 0 || a.last() == '/' {
        a + b
    } else {
        a.push('/') + b
    }
}

/// `b` below `a`.
pub fn below(a: &str, b: &str) -> (r: String)
    ensures
        r@ == path_join(a@, b@),
{
    let ca = chars_of(a);
    let cb = chars_of(b);
    if cb.len() > 0 && cb[0] == '/' {
        return String::from_str(b);
    }
    let mut out = String::from_str(a);
    if ca.len() > 0 && ca[ca.len() - 1] != '/' {
        out.push('/');
    }
    out.append(b);
    out
}

/// The pieces of a path that count: not the empty ones, and no single dot but
/// the one a relative path begins with.
pub open spec fn counting(p: Seq<Seq<char>>) -> Seq<Seq<char>>
    decreases p.len(),
{
    if p.len() == 0 {
        Seq::empty()
    } else {
        let x = p.last();
        if x.len() == 0 || (x == "."@ && p.len() > 1) {
            counting(p.drop_last())
        } else {
            counting(p.drop_last()).push(x)
        }
    }
}

pub open spec fn is_absolute(p: Seq<char>) -> bool {
    p.len() > 0 && p[0] == '/'
}

/// The components of a path; the root counts as one.
pub open spec fn components(p: Seq<char>) -> Seq<Seq<char>> {
    if is_absolute(p) {
        seq!["/"@] + counting(text::split(p, '/'))
    } else {
        counting(text::split(p, '/'))
    }
}

/// `p` lies in `base`, component by component.
pub open spec fn lies_in(p: Seq<char>, base: Seq<char>) -> bool {
    components(base).is_prefix_of(components(p))
}

/// The last component, if it names a file or a directory.
pub open spec fn file_name(p: Seq<char>) -> Option<Seq<char>> {
    let c = components(p);
    if c.len() == 0 || c.last() == "/"@ || c.last() == ".."@ || c.last() == "."@ {
        None
    } else {
        Some(c.last())
    }
}

pub fn absolute(p: &[char]) -> (r: bool)
    ensures
        r == is_absolute(p@),
{
    p.len() > 0 && p[0] == '/'
}

pub fn components_of(p: &str) -> (r: Vec<String>)
    ensures
        text::views(r@) == components(p@),
{
    let c = chars_of(p);
    let s = pieces(c.as_slice(), '/');
    let ghost v = text::slices(s@);
    let mut out: Vec<String> = Vec::new();
    let ghost mut head: Seq<Seq<char>> = Seq::empty();
    if absolute(c.as_slice()) {
        out.push(String::from_str("/"));
        proof {
            head = seq!["/"@];
        }
    }
    proof {
        assert(text::views(out@) =~= head + counting(v.take(0)));
    }
    for i in 0..s.len()
        invariant
            v == text::slices(s@),
            text::views(out@) == head + counting(v.take(i as int)),
    {
        let ghost before = text::views(out@);
        proof {
            assert(v.take(i + 1).drop_last() =~= v.take(i as int));
            assert(v.take(i + 1).last() == s@[i as int]@);
        }
        let x = s[i];
        if x.len() > 0 && (i == 0 || !crate::text::is(x, ".")) {
            out.push(string_of(x));
            proof {
                assert(text::views(out@) =~= before.push(x@));
                assert(head + counting(v.take(i as int)).push(x@) =~= before.push(x@));
            }
        }
    }
    proof {
        assert(v.take(v.len() as int) =~= v);
    }
    out
}

/// Whether `p` lies in `base`.
pub fn path_in(p: &str, base: &str) -> (r: bool)
    ensures
        r == lies_in(p@, base@),
{
    let a = components_of(base);
    let b = components_of(p);
    proof {
        assert(text::views(a@).len() == a@.len());
        assert(text::views(b@).len() == b@.len());
    }
    if a.len() > b.len() {
        return false;
    }
    for i in 0..a.len()
        invariant
            a@.len() <= b@.len(),
            text::views(a@) == components(base@),
            text::views(b@) == components(p@),
            forall|j: int| 0 <= j < i ==> text::views(a@)[j] == text::views(b@)[j],
    {
        if !crate::text::same_str(a[i].as_str(), b[i].as_str()) {
            proof {
                assert(text::views(a@)[i as int] != text::views(b@)[i as int]);
                if lies_in(p@, base@) {
                    assert(text::views(b@).subrange(0, text::views(a@).len() as int)[i as int]
                        == text::views(b@)[i as int]);
                }
            }
            return false;
        }
        proof {
            assert(text::views(a@)[i as int] == text::views(b@)[i as int]);
        }
    }
    proof {
        assert(text::views(a@) =~= text::views(b@).subrange(0, text::views(a@).len() as int));
    }
    true
}

/// The name of what `p` leads to.
pub fn name_of(p: &str) -> (r: Option<String>)
    ensures
        text::opt_view(r) == file_name(p@),
{
    let c = components_of(p);
    proof {
        assert(text::views(c@).len() == c@.len());
    }
    if c.len() == 0 {
        return None;
    }
    let last = &c[c.len() - 1];
    proof {
        assert(text::views(c@).last() == last@);
    }
    if crate::text::same_str(last.as_str(), "/") || crate::text::same_str(last.as_str(), "..")
        || crate::text::same_str(last.as_str(), ".") {
        None
    } else {
        Some(last.clone())
    }
}

/// The pieces that count in a path that is not at its beginning.
pub open spec fn later(p: Seq<Seq<char>>) -> Seq<Seq<char>>
    decreases p.len(),
{
    if p.len() == 0 {
        Seq::empty()
    } else if p.last().len() == 0 || p.last() == "."@ {
        later(p.drop_last())
    } else {
        later(p.drop_last()).push(p.last())
    }
}

proof fn counting_of_both(x: Seq<Seq<char>>, y: Seq<Seq<char>>)
    requires
        x.len() > 0,
    ensures
        counting(x + y) == counting(x) + later(y),
    decreases y.len(),
{
    if y.len() == 0 {
        assert(x + y =~= x);
        assert(counting(x) + later(y) =~= counting(x));
    } else {
        counting_of_both(x, y.drop_last());
        assert((x + y).drop_last() =~= x + y.drop_last());
        assert((x + y).last() == y.last());
        assert(counting(x + y) =~= counting(x) + later(y));
    }
}

/// A relative path adds its components to those of the path it is put below.
pub proof fn components_of_join(root: Seq<char>, rel: Seq<char>)
    requires
        root.len() > 0,
        !is_absolute(rel),
    ensures
        components(path_join(root, rel)) == components(root) + later(text::split(rel, '/')),
{
    broadcast use text::split_has_a_piece;

    let full = path_join(root, rel);
    assert(full[0] == root[0]);
    let y = text::split(rel, '/');
    if root.last() == '/' {
        let r = root.drop_last();
        assert(root =~= r.push('/'));
        text::split_of_both(r, rel, '/');
        counting_of_both(text::split(r, '/'), y);
        assert(text::split(root, '/').drop_last() =~= text::split(r, '/'));
        assert(counting(text::split(root, '/')) == counting(text::split(r, '/')));
    } else {
        text::split_of_both(root, rel, '/');
        counting_of_both(text::split(root, '/'), y);
    }
    assert(components(full) =~= components(root) + later(y));
}

/// What is put below a directory by a relative path lies in it, component by
/// component.
pub proof fn below_lies_in(root: Seq<char>, rel: Seq<char>)
    requires
        !is_absolute(rel),
    ensures
        lies_in(path_join(root, rel), root),
{
    if root.len() == 0 {
        assert(text::split(root, '/') =~= seq![Seq::empty()]);
        assert(counting(text::split(root, '/').drop_last()) =~= Seq::empty());
        assert(components(root) =~= Seq::empty());
    } else {
        components_of_join(root, rel);
        assert(components(root) =~= components(path_join(root, rel)).subrange(
            0,
            components(root).len() as int,
        ));
    }
}

/// What lies in a directory of a directory lies in the latter.
pub proof fn lying_in_is_transitive(p: Seq<char>, inner: Seq<char>, outer: Seq<char>)
    requires
        lies_in(p, inner),
        lies_in(inner, outer),
    ensures
        lies_in(p, outer),
{
    let a = components(outer);
    let b = components(inner);
    let c = components(p);
    assert(a =~= c.subrange(0, a.len() as int)) by {
        assert forall|i: int| 0 <= i < a.len() implies a[i] == c[i] by {
            assert(b.subrange(0, a.len() as int)[i] == b[i]);
            assert(c.subrange(0, b.len() as int)[i] == c[i]);
        }
    }
}

proof fn later_counts(p: Seq<Seq<char>>, i: int)
    requires
        0 <= i < later(p).len(),
    ensures
        counting(p).contains(later(p)[i]),
    decreases p.len(),
{
    let before = counting(p.drop_last());
    if p.last().len() == 0 || p.last() == "."@ {
        later_counts(p.drop_last(), i);
        let k = choose|k: int| 0 <= k < before.len() && before[k] == later(p)[i];
        assert(counting(p)[k] == later(p)[i]);
    } else if i == later(p).len() - 1 {
        assert(counting(p)[counting(p).len() - 1] == p.last());
    } else {
        later_counts(p.drop_last(), i);
        let k = choose|k: int| 0 <= k < before.len() && before[k] == later(p)[i];
        assert(counting(p)[k] == later(p)[i]);
    }
}

/// A path has a component that leads to the directory above.
pub open spec fn climbs(p: Seq<char>) -> bool {
    components(p).contains(".."@)
}

/// Whether a path leads upwards somewhere.
pub fn leads_up(p: &str) -> (r: bool)
    ensures
        r == climbs(p@),
{
    let c = components_of(p);
    proof {
        assert(text::views(c@).len() == c@.len());
    }
    for i in 0..c.len()
        invariant
            text::views(c@) == components(p@),
            forall|j: int| 0 <= j < i ==> text::views(c@)[j] != ".."@,
    {
        if crate::text::same_str(c[i].as_str(), "..") {
            proof {
                assert(text::views(c@)[i as int] == ".."@);
            }
            return true;
        }
        proof {
            assert(text::views(c@)[i as int] == c@[i as int]@);
        }
    }
    false
}

proof fn counting_are_pieces(p: Seq<Seq<char>>, i: int)
    requires
        0 <= i < counting(p).len(),
    ensures
        p.contains(counting(p)[i]),
    decreases p.len(),
{
    let before = counting(p.drop_last());
    if i < before.len() && counting(p)[i] == before[i] {
        counting_are_pieces(p.drop_last(), i);
        let k = choose|k: int| 0 <= k < p.drop_last().len() && p.drop_last()[k] == before[i];
        assert(p[k] == before[i]);
    } else {
        assert(p[p.len() - 1] == counting(p)[i]);
    }
}

/// The name of a file holds no slash and does not lead upwards.
pub proof fn file_name_is_plain(p: Seq<char>)
    requires
        file_name(p) is Some,
    ensures
        !file_name(p)->0.contains('/'),
        file_name(p)->0 != ".."@,
{
    let c = counting(text::split(p, '/'));
    let n = components(p).last();
    reveal_strlit("/");
    if c.len() == 0 {
        assert(components(p) =~= seq!["/"@] || components(p).len() == 0);
    } else {
        assert(n == c[c.len() - 1]);
        counting_are_pieces(text::split(p, '/'), c.len() - 1);
        let k = choose|k: int| 0 <= k < text::split(p, '/').len() && text::split(p, '/')[k] == n;
        text::pieces_are_plain(p, '/', k);
    }
}

/// A name without a slash that is not the one of the directory above does not
/// lead upwards.
pub proof fn plain_name_does_not_climb(name: Seq<char>)
    requires
        !name.contains('/'),
        name != ".."@,
    ensures
        !climbs(name),
{
    text::plain_is_one_piece(name, '/');
    let p = text::split(name, '/');
    if climbs(name) {
        if is_absolute(name) {
            assert(name.contains('/'));
        }
        let k = choose|k: int| 0 <= k < components(name).len() && components(name)[k] == ".."@;
        counting_are_pieces(p, k);
        let j = choose|j: int| 0 <= j < p.len() && p[j] == ".."@;
        assert(p[j] == name);
    }
}

/// A path that is put together from two that do not lead upwards does not.
pub proof fn below_does_not_climb(root: Seq<char>, rel: Seq<char>)
    requires
        !climbs(root),
        !climbs(rel),
    ensures
        !climbs(path_join(root, rel)),
{
    if is_absolute(rel) {
    } else if root.len() == 0 {
        assert(path_join(root, rel) =~= rel);
    } else {
        components_of_join(root, rel);
        let y = text::split(rel, '/');
        if climbs(path_join(root, rel)) {
            let c = components(root) + later(y);
            let k = choose|k: int| 0 <= k < c.len() && c[k] == ".."@;
            if k < components(root).len() {
                assert(components(root)[k] == ".."@);
            } else {
                later_counts(y, k - components(root).len());
            }
        }
    }
}

/// A name or a path is put below another with one stroke between them; one that begins at
/// the root replaces it.
pub proof fn joined_by_one_stroke(a: Seq<char>, b: Seq<char>)
    ensures
        a.len() > 0 && a.last() != '/' && (b.len() == 0 || b[0] != '/') ==> path_join(a, b) == a
            + seq!['/'] + b,
        (b.len() == 0 || b[0] != '/') ==> path_join(a.push('/'), b) == a + seq!['/'] + b,
        (b.len() == 0 || b[0] != '/') ==> path_join(Seq::empty(), b) == b,
        path_join(a, seq!['/'] + b) == seq!['/'] + b,
        is_absolute(seq!['/'] + b),
        b.len() > 0 && b[0] != '/' ==> !is_absolute(b),
        !is_absolute(Seq::empty()),
{
    assert(a.push('/') + b =~= a + seq!['/'] + b);
    assert(Seq::<char>::empty() + b =~= b);
}

/// The parts of a path count but for empty ones and for those that stay where they are; a
/// path from the root begins with it.
pub proof fn parts_count(p: Seq<Seq<char>>, x: Seq<char>, s: Seq<char>)
    ensures
        x.len() == 0 ==> counting(p.push(x)) == counting(p),
        x == "."@ && p.len() > 0 ==> counting(p.push(x)) == counting(p),
        x.len() > 0 && x != "."@ ==> counting(p.push(x)) == counting(p).push(x),
        counting(Seq::empty()).len() == 0,
        s.len() > 0 && s[0] == '/' ==> components(s) == seq!["/"@] + counting(text::split(s, '/')),
        (s.len() == 0 || s[0] != '/') ==> components(s) == counting(text::split(s, '/')),
{
    assert(p.push(x).drop_last() =~= p);
}

/// A path that ends in a name is named by it.
pub proof fn last_part_is_the_name(root: Seq<char>, name: Seq<char>)
    requires
        root.len() > 0,
        name.len() > 0,
        !name.contains('/'),
        name != "."@ && name != ".."@,
    ensures
        file_name(path_join(root, name)) == Some(name),
{
    reveal_strlit("/");
    assert(name[0] != '/');
    components_of_join(root, name);
    text::plain_is_one_piece(name, '/');
    let l = text::split(name, '/');
    assert(l.drop_last() =~= Seq::<Seq<char>>::empty());
    assert(later(l.drop_last()).len() == 0);
    assert(later(l) =~= seq![name]);
    let c = components(root) + seq![name];
    assert(c.last() == name);
    if name == "/"@ {
        assert(name[0] == '/');
    }
}

}
