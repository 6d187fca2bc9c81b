//! The order of names, and the stable sort and the removal of neighbouring
//! duplicates that follow it.
use crate::text;
use crate::text::chars_of;
use vstd::prelude::*;

verus! {

/// Text is ordered by code points, left to right, a prefix before what extends it.
pub open spec fn less(a: Seq<char>, b: Seq<char>) -> bool
    decreases a.len(),
{
    if b.len() == 0 {
        false
    } else if a.len() == 0 {
        true
    } else if a[0] != b[0] {
        a[0] < b[0]
    } else {
        less(a.skip(1), b.skip(1))
    }
}

/// No text precedes itself.
pub proof fn less_is_irreflexive(a: Seq<char>)
    ensures
        !less(a, a),
    decreases a.len(),
{
    if a.len() > 0 {
        less_is_irreflexive(a.skip(1));
    }
}

/// The order of text is transitive.
pub proof fn less_is_transitive(a: Seq<char>, b: Seq<char>, c: Seq<char>)
    requires
        less(a, b),
        less(b, c),
    ensures
        less(a, c),
    decreases a.len(),
{
    if a.len() > 0 && a[0] == b[0] && b[0] == c[0] {
        less_is_transitive(a.skip(1), b.skip(1), c.skip(1));
    }
}

/// Of two different texts one precedes the other.
pub proof fn less_is_total(a: Seq<char>, b: Seq<char>)
    ensures
        less(a, b) || a == b || less(b, a),
    decreases a.len(),
{
    if a.len() > 0 && b.len() > 0 && a[0] == b[0] {
        less_is_total(a.skip(1), b.skip(1));
        if a.skip(1) == b.skip(1) {
            assert(a =~= seq![a[0]] + a.skip(1));
            assert(b =~= seq![b[0]] + b.skip(1));
        }
    } else if a.len() == 0 && b.len() == 0 {
        assert(a =~= b);
    }
}

/// Whether `a` precedes `b`.
pub fn precedes(a: &[char], b: &[char]) -> (r: bool)
    ensures
        r == less(a@, b@),
{
    let mut i: usize = 0;
    proof {
        assert(a@.skip(0) =~= a@);
        assert(b@.skip(0) =~= b@);
    }
    while i < a.len() && i < b.len() && a[i] == b[i]
        invariant
            i <= a@.len(),
            i <= b@.len(),
            less(a@, b@) == less(a@.skip(i as int), b@.skip(i as int)),
        decreases a@.len() - i,
    {
        proof {
            assert(a@.skip(i as int).skip(1) =~= a@.skip(i + 1));
            assert(b@.skip(i as int).skip(1) =~= b@.skip(i + 1));
        }
        i += 1;
    }
    if i >= b.len() {
        false
    } else if i >= a.len() {
        true
    } else {
        a[i] < b[i]
    }
}

pub fn str_precedes(a: &str, b: &str) -> (r: bool)
    ensures
        r == less(a@, b@),
{
    precedes(chars_of(a).as_slice(), chars_of(b).as_slice())
}

/// What is ordered by a name.
pub trait HasKey {
    spec fn key(&self) -> Seq<char>;
}

/// An executable value that is ordered by a name, and its mathematical content.
pub trait Keyed: HasKey + Sized {
    type Shown: HasKey;

    spec fn shown(&self) -> Self::Shown;

    proof fn shown_key(&self)
        ensures
            self.shown().key() == self.key(),
    ;

    fn key_str(&self) -> (r: &str)
        ensures
            r@ == self.key(),
    ;
}

impl HasKey for Seq<char> {
    open spec fn key(&self) -> Seq<char> {
        *self
    }
}

impl HasKey for String {
    open spec fn key(&self) -> Seq<char> {
        self@
    }
}

impl Keyed for String {
    type Shown = Seq<char>;

    open spec fn shown(&self) -> Seq<char> {
        self@
    }

    proof fn shown_key(&self) {
    }

    fn key_str(&self) -> (r: &str) {
        self.as_str()
    }
}

/// A name with a version, or without one.
pub type Listed = (String, Option<String>);

/// The mathematical content of a `Listed`.
pub type ListedView = (Seq<char>, Option<Seq<char>>);

impl HasKey for (Seq<char>, Option<Seq<char>>) {
    open spec fn key(&self) -> Seq<char> {
        self.0
    }
}

impl HasKey for (String, Option<String>) {
    open spec fn key(&self) -> Seq<char> {
        self.0@
    }
}

impl Keyed for (String, Option<String>) {
    type Shown = (Seq<char>, Option<Seq<char>>);

    open spec fn shown(&self) -> (Seq<char>, Option<Seq<char>>) {
        (self.0@, text::opt_view(self.1))
    }

    proof fn shown_key(&self) {
    }

    fn key_str(&self) -> (r: &str) {
        self.0.as_str()
    }
}

/// The mathematical content of a list.
pub open spec fn shown_all<T: Keyed>(s: Seq<T>) -> Seq<T::Shown> {
    Seq::new(s.len(), |i: int| s[i].shown())
}

/// The keys of a list.
pub open spec fn keys<T: HasKey>(s: Seq<T>) -> Seq<Seq<char>> {
    Seq::new(s.len(), |i: int| s[i].key())
}

/// `s` with `x` put before the items at its end that `x` precedes.
pub open spec fn place<T: HasKey>(s: Seq<T>, x: T) -> Seq<T>
    decreases s.len(),
{
    if s.len() > 0 && less(x.key(), s.last().key()) {
        place(s.drop_last(), x).push(s.last())
    } else {
        s.push(x)
    }
}

/// The stable sort of `s` by key.
pub open spec fn sort<T: HasKey>(s: Seq<T>) -> Seq<T>
    decreases s.len(),
{
    if s.len() == 0 {
        s
    } else {
        place(sort(s.drop_last()), s.last())
    }
}

/// No item of `s` precedes one that stands before it.
pub open spec fn ordered<T: HasKey>(s: Seq<T>) -> bool {
    forall|i: int, j: int| 0 <= i < j < s.len() ==> !less(#[trigger] s[j].key(), #[trigger] s[i].key())
}

proof fn place_splits<T: HasKey>(s: Seq<T>, x: T) -> (p: int)
    ensures
        0 <= p <= s.len(),
        place(s, x) == s.take(p).push(x) + s.skip(p),
        forall|j: int| p <= j < s.len() ==> less(x.key(), #[trigger] s[j].key()),
        p > 0 ==> !less(x.key(), s[p - 1].key()),
    decreases s.len(),
{
    if s.len() > 0 && less(x.key(), s.last().key()) {
        let p = place_splits(s.drop_last(), x);
        assert(s.drop_last().take(p) =~= s.take(p));
        assert(place(s, x) =~= s.take(p).push(x) + s.skip(p));
        assert forall|j: int| p <= j < s.len() implies less(x.key(), #[trigger] s[j].key()) by {
            if j < s.len() - 1 {
                assert(s.drop_last()[j] == s[j]);
            }
        }
        p
    } else {
        assert(s.take(s.len() as int) =~= s);
        assert(place(s, x) =~= s.take(s.len() as int).push(x) + s.skip(s.len() as int));
        s.len() as int
    }
}

proof fn place_keeps_order<T: HasKey>(s: Seq<T>, x: T)
    requires
        ordered(s),
    ensures
        ordered(place(s, x)),
{
    let p = place_splits(s, x);
    let r = place(s, x);
    assert forall|i: int, j: int| 0 <= i < j < r.len() implies !less(
        #[trigger] r[j].key(),
        #[trigger] r[i].key(),
    ) by {
        if j < p {
            assert(r[i] == s[i] && r[j] == s[j]);
        } else if j == p {
            assert(r[j] == x && r[i] == s[i]);
            if less(x.key(), s[i].key()) {
                // s[i] does not come after s[p - 1], which x does not precede.
                less_is_total(s[i].key(), s[p - 1].key());
                if i < p - 1 {
                    assert(!less(s[p - 1].key(), s[i].key()));
                    if less(s[i].key(), s[p - 1].key()) {
                        less_is_transitive(x.key(), s[i].key(), s[p - 1].key());
                    }
                }
            }
        } else if i < p {
            assert(r[j] == s[j - 1] && r[i] == s[i]);
        } else if i == p {
            assert(r[j] == s[j - 1] && r[i] == x);
            if less(s[j - 1].key(), x.key()) {
                less_is_transitive(x.key(), s[j - 1].key(), x.key());
                less_is_irreflexive(x.key());
            }
        } else {
            assert(r[j] == s[j - 1] && r[i] == s[i - 1]);
        }
    }
}

/// Sorting puts the items in order.
pub proof fn sort_orders<T: HasKey>(s: Seq<T>)
    ensures
        ordered(sort(s)),
    decreases s.len(),
{
    if s.len() > 0 {
        sort_orders(s.drop_last());
        place_keeps_order(sort(s.drop_last()), s.last());
    }
}

/// Sorting neither adds nor drops an item.
pub proof fn sort_permutes<T: HasKey>(s: Seq<T>)
    ensures
        sort(s).to_multiset() == s.to_multiset(),
    decreases s.len(),
{
    broadcast use vstd::seq_lib::group_to_multiset_ensures;

    if s.len() > 0 {
        let t = sort(s.drop_last());
        let x = s.last();
        sort_permutes(s.drop_last());
        let p = place_splits(t, x);
        vstd::seq_lib::lemma_multiset_commutative(t.take(p).push(x), t.skip(p));
        vstd::seq_lib::lemma_multiset_commutative(t.take(p), t.skip(p));
        assert(t.take(p) + t.skip(p) =~= t);
        assert(s.drop_last().push(x) =~= s);
        assert(sort(s).to_multiset() =~= t.to_multiset().insert(x));
    }
}

/// Sorting keeps the number of items.
pub proof fn sort_keeps_len<T: HasKey>(s: Seq<T>)
    ensures
        sort(s).len() == s.len(),
    decreases s.len(),
{
    if s.len() > 0 {
        sort_keeps_len(s.drop_last());
        let p = place_splits(sort(s.drop_last()), s.last());
    }
}

proof fn place_shown<T: Keyed>(s: Seq<T>, x: T)
    ensures
        shown_all(place(s, x)) == place(shown_all(s), x.shown()),
    decreases s.len(),
{
    x.shown_key();
    if s.len() > 0 {
        s.last().shown_key();
        place_shown(s.drop_last(), x);
        assert(shown_all(s.drop_last()) =~= shown_all(s).drop_last());
    }
    assert(shown_all(place(s, x)) =~= place(shown_all(s), x.shown()));
}

proof fn sort_shown<T: Keyed>(s: Seq<T>)
    ensures
        shown_all(sort(s)) == sort(shown_all(s)),
    decreases s.len(),
{
    if s.len() > 0 {
        sort_shown(s.drop_last());
        place_shown(sort(s.drop_last()), s.last());
        assert(shown_all(s.drop_last()) =~= shown_all(s).drop_last());
    } else {
        assert(shown_all(s) =~= Seq::empty());
    }
}

proof fn dedup_shown<T: Keyed>(s: Seq<T>)
    ensures
        shown_all(dedup(s)) == dedup(shown_all(s)),
    decreases s.len(),
{
    if s.len() > 0 {
        dedup_shown(s.drop_last());
        assert(shown_all(s.drop_last()) =~= shown_all(s).drop_last());
        s.last().shown_key();
        if s.len() > 1 {
            s[s.len() - 2].shown_key();
        }
    }
    assert(shown_all(dedup(s)) =~= dedup(shown_all(s)));
}

/// Sorts by key; items with equal keys keep their order.
pub fn sort_by_key<T: Keyed>(v: &mut Vec<T>)
    ensures
        final(v)@ == sort(old(v)@),
        shown_all(final(v)@) == sort(shown_all(old(v)@)),
{
    let ghost orig = v@;
    let n: usize = v.len();
    for i in 0..n
        invariant
            n == orig.len(),
            v@.len() == n,
            v@.take(i as int) == sort(orig.take(i as int)),
            v@.skip(i as int) == orig.skip(i as int),
    {
        let ghost done = v@.take(i as int);
        let ghost x = v@[i as int];
        proof {
            assert(v@.skip(i as int)[0] == orig.skip(i as int)[0]);
            assert(x == orig[i as int]);
            assert(orig.take(i + 1).drop_last() =~= orig.take(i as int));
            assert(orig.take(i + 1).last() == x);
            assert(done.take(i as int) =~= done);
            assert(done.skip(i as int) =~= Seq::<T>::empty());
            assert(place(done, x) =~= place(done, x) + Seq::<T>::empty());
        }
        let mut p: usize = i;
        while p > 0 && str_precedes(v[i].key_str(), v[p - 1].key_str())
            invariant
                p <= i < n == v@.len(),
                x == v@[i as int],
                done == v@.take(i as int),
                place(done, x) == place(done.take(p as int), x) + done.skip(p as int),
            decreases p,
        {
            proof {
                let t = done.take(p as int);
                assert(t.last() == v@[p - 1]);
                assert(t.drop_last() =~= done.take(p - 1));
                assert(place(t, x) == place(done.take(p - 1), x).push(t.last()));
                assert(place(done.take(p - 1), x).push(t.last()) + done.skip(p as int) =~= place(
                    done.take(p - 1),
                    x,
                ) + done.skip(p - 1));
            }
            p -= 1;
        }
        proof {
            let t = done.take(p as int);
            if p > 0 {
                assert(t.last() == v@[p - 1]);
            }
            assert(place(t, x) == t.push(x));
        }
        let ghost before = v@;
        let item = v.remove(i);
        v.insert(p, item);
        proof {
            assert(v@.take(i + 1) =~= done.take(p as int).push(x) + done.skip(p as int));
            assert(v@.skip(i + 1) =~= before.skip(i + 1));
            assert(before.skip(i + 1) =~= before.skip(i as int).skip(1));
            assert(orig.skip(i + 1) =~= orig.skip(i as int).skip(1));
        }
    }
    proof {
        assert(v@.take(n as int) =~= v@);
        assert(orig.take(n as int) =~= orig);
        sort_shown(orig);
    }
}

/// `s` without the items whose key is that of the item just before them.
pub open spec fn dedup<T: HasKey>(s: Seq<T>) -> Seq<T>
    decreases s.len(),
{
    if s.len() == 0 {
        s
    } else {
        let before = dedup(s.drop_last());
        if s.len() > 1 && s[s.len() - 2].key() == s.last().key() {
            before
        } else {
            before.push(s.last())
        }
    }
}

/// Every kept item of a sorted list precedes those after it, so no key stays twice.
pub proof fn dedup_of_ordered_is_strict<T: HasKey>(s: Seq<T>)
    requires
        ordered(s),
    ensures
        forall|i: int, j: int|
            0 <= i < j < dedup(s).len() ==> less(
                #[trigger] dedup(s)[i].key(),
                #[trigger] dedup(s)[j].key(),
            ),
        s.len() > 0 ==> dedup(s).len() > 0 && dedup(s).last().key() == s.last().key(),
    decreases s.len(),
{
    if s.len() > 0 {
        let t = s.drop_last();
        assert forall|i: int, j: int| 0 <= i < j < t.len() implies !less(
            #[trigger] t[j].key(),
            #[trigger] t[i].key(),
        ) by {
            assert(t[i] == s[i] && t[j] == s[j]);
        }
        dedup_of_ordered_is_strict(t);
        let r = dedup(s);
        let b = dedup(t);
        if s.len() > 1 && s[s.len() - 2].key() == s.last().key() {
            assert(t.last() == s[s.len() - 2]);
        } else {
            assert forall|i: int, j: int| 0 <= i < j < r.len() implies less(
                #[trigger] r[i].key(),
                #[trigger] r[j].key(),
            ) by {
                if j < b.len() {
                    assert(r[i] == b[i] && r[j] == b[j]);
                } else {
                    assert(r[j] == s.last());
                    assert(t.last() == s[s.len() - 2]);
                    less_is_total(t.last().key(), s.last().key());
                    if i < b.len() - 1 {
                        less_is_transitive(b[i].key(), b.last().key(), s.last().key());
                    }
                }
            }
        }
    }
}

/// Removing neighbouring duplicates keeps every key.
pub proof fn dedup_keeps_keys<T: HasKey>(s: Seq<T>)
    ensures
        forall|k: Seq<char>| keys(s).contains(k) <==> #[trigger] keys(dedup(s)).contains(k),
    decreases s.len(),
{
    if s.len() > 0 {
        let t = s.drop_last();
        dedup_keeps_keys(t);
        assert(keys(s) =~= keys(t).push(s.last().key()));
        assert forall|k: Seq<char>| keys(s).contains(k) <==> #[trigger] keys(dedup(s)).contains(
            k,
        ) by {
            assert(keys(t).contains(k) <==> keys(dedup(t)).contains(k));
            if s.len() > 1 && s[s.len() - 2].key() == s.last().key() {
                if keys(s).contains(k) && !keys(t).contains(k) {
                    assert(keys(t)[t.len() - 1] == s.last().key());
                }
                if keys(t).contains(k) {
                    let i = choose|i: int| 0 <= i < keys(t).len() && keys(t)[i] == k;
                    assert(keys(s)[i] == k);
                }
            } else {
                assert(keys(dedup(s)) =~= keys(dedup(t)).push(s.last().key()));
                if keys(s).contains(k) {
                    let i = choose|i: int| 0 <= i < keys(s).len() && keys(s)[i] == k;
                    if i < t.len() {
                        assert(keys(t)[i] == k);
                        let j = choose|j: int| 0 <= j < keys(dedup(t)).len() && keys(dedup(t))[j] == k;
                        assert(keys(dedup(s))[j] == k);
                    } else {
                        assert(keys(dedup(s))[dedup(s).len() - 1] == k);
                    }
                }
                if keys(dedup(s)).contains(k) {
                    let i = choose|i: int| 0 <= i < keys(dedup(s)).len() && keys(dedup(s))[i] == k;
                    if i < keys(dedup(t)).len() {
                        assert(keys(dedup(t))[i] == k);
                        let j = choose|j: int| 0 <= j < keys(t).len() && keys(t)[j] == k;
                        assert(keys(s)[j] == k);
                    } else {
                        assert(keys(s)[s.len() - 1] == k);
                    }
                }
            }
        }
    }
}

/// Removes each item whose key is that of the item before it.
pub fn dedup_by_key<T: Keyed>(v: &mut Vec<T>)
    ensures
        final(v)@ == dedup(old(v)@),
        shown_all(final(v)@) == dedup(shown_all(old(v)@)),
{
    let ghost orig = v@;
    let mut kept: usize = 0;
    let mut read: usize = 0;
    let n: usize = v.len();
    while kept < v.len()
        invariant
            n == orig.len(),
            kept <= read <= n,
            v@.len() == n - read + kept,
            v@.take(kept as int) == dedup(orig.take(read as int)),
            v@.skip(kept as int) == orig.skip(read as int),
            read > 0 ==> kept > 0 && v@[kept - 1].key() == orig[read - 1].key(),
        decreases n - read,
    {
        proof {
            assert(v@.skip(kept as int)[0] == orig.skip(read as int)[0]);
            assert(orig.take(read + 1).drop_last() =~= orig.take(read as int));
            assert(orig.skip(read + 1) =~= orig.skip(read as int).skip(1));
        }
        let ghost before = v@;
        if kept > 0 && crate::text::same_str(v[kept - 1].key_str(), v[kept].key_str()) {
            let _dropped = v.remove(kept);
            proof {
                assert(v@.take(kept as int) =~= before.take(kept as int));
                assert(v@.skip(kept as int) =~= before.skip(kept as int).skip(1));
                assert(orig.take(read + 1)[read - 1] == orig[read - 1]);
            }
        } else {
            kept += 1;
            proof {
                assert(v@.take(kept as int) =~= before.take(kept - 1).push(before[kept - 1]));
                assert(v@.skip(kept as int) =~= before.skip(kept - 1).skip(1));
                if read > 0 {
                    assert(orig.take(read + 1)[read - 1] == orig[read - 1]);
                }
            }
        }
        read += 1;
    }
    proof {
        assert(v@.take(kept as int) =~= v@);
        assert(orig.skip(read as int).len() == 0);
        assert(orig.take(read as int) =~= orig);
        dedup_shown(orig);
    }
}

/// Texts are in the order of their first different character, and one that another begins
/// with comes before it.
pub proof fn first_difference_orders(p: Seq<char>, a: char, b: char, x: Seq<char>, y: Seq<char>)
    ensures
        a < b ==> less(p + seq![a] + x, p + seq![b] + y) && !less(
            p + seq![b] + y,
            p + seq![a] + x,
        ),
        less(p, p + seq![a] + x),
        !less(p, p),
    decreases p.len(),
{
    let s = p + seq![a] + x;
    let t = p + seq![b] + y;
    if p.len() == 0 {
        assert(s[0] == a && t[0] == b);
    } else {
        let q = p.skip(1);
        first_difference_orders(q, a, b, x, y);
        assert(s[0] == p[0] && t[0] == p[0]);
        assert(s.skip(1) =~= q + seq![a] + x);
        assert(t.skip(1) =~= q + seq![b] + y);
    }
}

/// What has one key stays in the order in which it came.
pub proof fn equals_keep_their_order<T: HasKey>(s: Seq<T>, x: T)
    requires
        s.len() > 0,
        !less(x.key(), sort(s).last().key()),
    ensures
        sort(s.push(x)) == sort(s).push(x),
{
    assert(s.push(x).drop_last() =~= s);
}

/// Of neighbours with one key the first stays.
pub proof fn neighbours_are_joined<T: HasKey>(s: Seq<T>, x: T)
    ensures
        s.len() > 0 && s.last().key() == x.key() ==> dedup(s.push(x)) == dedup(s),
        s.len() > 0 && s.last().key() != x.key() ==> dedup(s.push(x)) == dedup(s).push(x),
        dedup(seq![x]) == seq![x],
{
    assert(s.push(x).drop_last() =~= s);
    let e = Seq::<T>::empty();
    assert(seq![x].drop_last() =~= e);
    assert(dedup(e) == e);
    assert(dedup(seq![x]) =~= seq![x]);
}

}
