//! Text as sequences of characters: the vocabulary the rest of the library is
//! specified in, and the executable functions that meet it.
use vstd::prelude::*;

verus! {

/// `String::push` appends one character.
pub assume_specification[ String::push ](s: &mut String, c: char)
    ensures
        final(s)@ == old(s)@.push(c),
;

/// Two string slices are equal when their characters are.
pub assume_specification[ <str as PartialEq<str>>::eq ](a: &str, b: &str) -> (r: bool)
    ensures
        r == (a@ == b@),
;

/// The character sequences of a list of strings.
pub open spec fn views(v: Seq<String>) -> Seq<Seq<char>> {
    Seq::new(v.len(), |i: int| v[i]@)
}

/// The character sequences of a list of character slices.
pub open spec fn slices(v: Seq<&[char]>) -> Seq<Seq<char>> {
    Seq::new(v.len(), |i: int| v[i]@)
}

/// The characters of `s`.
pub fn chars_of(s: &str) -> (r: Vec<char>)
    ensures
        r@ == s@,
{
    let mut out: Vec<char> = Vec::new();
    for c in it: s.chars()
        invariant
            out@ == it.seq().take(it.index() as int),
            it.seq() == s@,
    {
        out.push(c);
    }
    out
}

/// The string made of the characters of `s`.
pub fn string_of(s: &[char]) -> (r: String)
    ensures
        r@ == s@,
{
    let mut out = String::new();
    for i in 0..s.len()
        invariant
            out@ == s@.take(i as int),
    {
        out.push(s[i]);
    }
    out
}

/// The part of `s` from `from` up to `to`.
pub fn part(s: &[char], from: usize, to: usize) -> (r: &[char])
    requires
        from <= to <= s@.len(),
    ensures
        r@ == s@.subrange(from as int, to as int),
{
    &s[from..to]
}

/// Whether two slices hold the same characters.
pub fn same(a: &[char], b: &[char]) -> (r: bool)
    ensures
        r == (a@ == b@),
{
    if a.len() != b.len() {
        return false;
    }
    for i in 0..a.len()
        invariant
            a@.len() == b@.len(),
            forall|j: int| 0 <= j < i ==> a@[j] == b@[j],
    {
        if a[i] != b[i] {
            return false;
        }
    }
    assert(a@ =~= b@);
    true
}

/// Whether the characters of `s` are those of `p`.
pub fn is(s: &[char], p: &str) -> (r: bool)
    ensures
        r == (s@ == p@),
{
    same(s, chars_of(p).as_slice())
}

/// Whether two strings hold the same characters.
pub fn same_str(a: &str, b: &str) -> (r: bool)
    ensures
        r == (a@ == b@),
{
    *a == *b
}

// ---------------------------------------------------------------------------
// Occurrences

/// `p` stands in `s` at position `i`.
pub open spec fn occurs_at(s: Seq<char>, p: Seq<char>, i: int) -> bool {
    &&& 0 <= i <= s.len() - p.len()
    &&& s.subrange(i, i + p.len()) == p
}

pub open spec fn starts_with(s: Seq<char>, p: Seq<char>) -> bool {
    occurs_at(s, p, 0)
}

pub open spec fn ends_with(s: Seq<char>, p: Seq<char>) -> bool {
    occurs_at(s, p, s.len() - p.len())
}

pub open spec fn contains(s: Seq<char>, p: Seq<char>) -> bool {
    exists|i: int| occurs_at(s, p, i)
}

/// `i` is the first position at which `p` stands in `s`.
pub open spec fn first_at(s: Seq<char>, p: Seq<char>, i: int) -> bool {
    &&& occurs_at(s, p, i)
    &&& forall|j: int| 0 <= j < i ==> !occurs_at(s, p, j)
}

/// Whether `p` stands in `s` at position `i`.
pub fn occurs(s: &[char], p: &[char], i: usize) -> (r: bool)
    ensures
        r == occurs_at(s@, p@, i as int),
{
    if p.len() > s.len() || i > s.len() - p.len() {
        return false;
    }
    for k in 0..p.len()
        invariant
            i + p@.len() <= s.len(),
            forall|j: int| 0 <= j < k ==> s@[i + j] == p@[j],
    {
        if s[i + k] != p[k] {
            assert(s@.subrange(i as int, i + p@.len())[k as int] != p@[k as int]);
            return false;
        }
    }
    assert(s@.subrange(i as int, i + p@.len()) =~= p@);
    true
}

/// The first position of `p` in `s`.
pub fn find(s: &[char], p: &[char]) -> (r: Option<usize>)
    ensures
        match r {
            Some(i) => first_at(s@, p@, i as int),
            None => !contains(s@, p@),
        },
{
    if p.len() > s.len() {
        return None;
    }
    let last: usize = s.len() - p.len();
    let mut i: usize = 0;
    loop
        invariant
            last == s@.len() - p@.len(),
            i <= last,
            forall|j: int| 0 <= j < i ==> !occurs_at(s@, p@, j),
        decreases last - i,
    {
        if occurs(s, p, i) {
            return Some(i);
        }
        if i == last {
            return None;
        }
        i += 1;
    }
}

pub fn has(s: &[char], p: &str) -> (r: bool)
    ensures
        r == contains(s@, p@),
{
    find(s, chars_of(p).as_slice()).is_some()
}

pub fn has_char(s: &[char], c: char) -> (r: bool)
    ensures
        r == s@.contains(c),
{
    for i in 0..s.len()
        invariant
            forall|j: int| 0 <= j < i ==> s@[j] != c,
    {
        if s[i] == c {
            return true;
        }
    }
    false
}

pub fn begins(s: &[char], p: &str) -> (r: bool)
    ensures
        r == starts_with(s@, p@),
{
    occurs(s, chars_of(p).as_slice(), 0)
}

pub fn ends(s: &[char], p: &str) -> (r: bool)
    ensures
        r == ends_with(s@, p@),
{
    let q = chars_of(p);
    q.len() <= s.len() && occurs(s, q.as_slice(), s.len() - q.len())
}

/// What follows the prefix `p` of `s`.
pub open spec fn strip_prefix(s: Seq<char>, p: Seq<char>) -> Option<Seq<char>> {
    if starts_with(s, p) {
        Some(s.skip(p.len() as int))
    } else {
        None
    }
}

/// What precedes the suffix `p` of `s`.
pub open spec fn strip_suffix(s: Seq<char>, p: Seq<char>) -> Option<Seq<char>> {
    if ends_with(s, p) {
        Some(s.take(s.len() - p.len()))
    } else {
        None
    }
}

/// The characters behind an optional slice.
pub open spec fn opt(r: Option<&[char]>) -> Option<Seq<char>> {
    match r {
        Some(x) => Some(x@),
        None => None,
    }
}

/// The characters behind an optional string.
pub open spec fn opt_view(r: Option<String>) -> Option<Seq<char>> {
    match r {
        Some(x) => Some(x@),
        None => None,
    }
}

pub fn after_prefix<'a>(s: &'a [char], p: &str) -> (r: Option<&'a [char]>)
    ensures
        opt(r) == strip_prefix(s@, p@),
{
    let q = chars_of(p);
    if occurs(s, q.as_slice(), 0) {
        let n: usize = q.len();
        let r = part(s, n, s.len());
        assert(r@ =~= s@.skip(n as int));
        Some(r)
    } else {
        None
    }
}

pub fn before_suffix<'a>(s: &'a [char], p: &str) -> (r: Option<&'a [char]>)
    ensures
        opt(r) == strip_suffix(s@, p@),
{
    let q = chars_of(p);
    if q.len() <= s.len() && occurs(s, q.as_slice(), s.len() - q.len()) {
        let n: usize = s.len() - q.len();
        let r = part(s, 0, n);
        assert(r@ =~= s@.take(n as int));
        Some(r)
    } else {
        None
    }
}

// ---------------------------------------------------------------------------
// White space

/// The characters with Unicode's White_Space property.
pub open spec fn is_space(c: char) -> bool {
    let n = c as u32;
    ||| 0x9 <= n <= 0xd
    ||| n == 0x20
    ||| n == 0x85
    ||| n == 0xa0
    ||| n == 0x1680
    ||| 0x2000 <= n <= 0x200a
    ||| n == 0x2028
    ||| n == 0x2029
    ||| n == 0x202f
    ||| n == 0x205f
    ||| n == 0x3000
}

pub fn space(c: char) -> (r: bool)
    ensures
        r == is_space(c),
{
    let n: u32 = c as u32;
    (0x9 <= n && n <= 0xd) || n == 0x20 || n == 0x85 || n == 0xa0 || n == 0x1680 || (0x2000 <= n
        && n <= 0x200a) || n == 0x2028 || n == 0x2029 || n == 0x202f || n == 0x205f || n == 0x3000
}

/// `s` without the white space it begins with.
pub open spec fn trim_start(s: Seq<char>) -> Seq<char>
    decreases s.len(),
{
    if s.len() > 0 && is_space(s[0]) {
        trim_start(s.skip(1))
    } else {
        s
    }
}

/// `s` without the white space it ends with.
pub open spec fn trim_end(s: Seq<char>) -> Seq<char>
    decreases s.len(),
{
    if s.len() > 0 && is_space(s.last()) {
        trim_end(s.drop_last())
    } else {
        s
    }
}

pub open spec fn trim(s: Seq<char>) -> Seq<char> {
    trim_end(trim_start(s))
}

pub fn trimmed_start(s: &[char]) -> (r: &[char])
    ensures
        r@ == trim_start(s@),
{
    let mut i: usize = 0;
    proof {
        assert(s@.skip(0) =~= s@);
    }
    while i < s.len() && space(s[i])
        invariant
            i <= s@.len(),
            trim_start(s@) == trim_start(s@.skip(i as int)),
        decreases s@.len() - i,
    {
        proof {
            assert(s@.skip(i as int).skip(1) =~= s@.skip(i + 1));
        }
        i += 1;
    }
    let r = part(s, i, s.len());
    assert(r@ =~= s@.skip(i as int));
    r
}

pub fn trimmed_end(s: &[char]) -> (r: &[char])
    ensures
        r@ == trim_end(s@),
{
    let mut n: usize = s.len();
    proof {
        assert(s@.take(n as int) =~= s@);
    }
    while n > 0 && space(s[n - 1])
        invariant
            n <= s@.len(),
            trim_end(s@) == trim_end(s@.take(n as int)),
        decreases n,
    {
        proof {
            assert(s@.take(n as int).drop_last() =~= s@.take(n - 1));
        }
        n -= 1;
    }
    let r = part(s, 0, n);
    assert(r@ =~= s@.take(n as int));
    r
}

pub fn trimmed(s: &[char]) -> (r: &[char])
    ensures
        r@ == trim(s@),
{
    trimmed_end(trimmed_start(s))
}

/// `s` without the run of `c` it begins with.
pub open spec fn trim_start_char(s: Seq<char>, c: char) -> Seq<char>
    decreases s.len(),
{
    if s.len() > 0 && s[0] == c {
        trim_start_char(s.skip(1), c)
    } else {
        s
    }
}

/// `s` without the run of `c` it ends with.
pub open spec fn trim_end_char(s: Seq<char>, c: char) -> Seq<char>
    decreases s.len(),
{
    if s.len() > 0 && s.last() == c {
        trim_end_char(s.drop_last(), c)
    } else {
        s
    }
}

pub fn without_leading(s: &[char], c: char) -> (r: &[char])
    ensures
        r@ == trim_start_char(s@, c),
{
    let mut i: usize = 0;
    proof {
        assert(s@.skip(0) =~= s@);
    }
    while i < s.len() && s[i] == c
        invariant
            i <= s@.len(),
            trim_start_char(s@, c) == trim_start_char(s@.skip(i as int), c),
        decreases s@.len() - i,
    {
        proof {
            assert(s@.skip(i as int).skip(1) =~= s@.skip(i + 1));
        }
        i += 1;
    }
    let r = part(s, i, s.len());
    assert(r@ =~= s@.skip(i as int));
    r
}

pub fn without_trailing(s: &[char], c: char) -> (r: &[char])
    ensures
        r@ == trim_end_char(s@, c),
{
    let mut n: usize = s.len();
    proof {
        assert(s@.take(n as int) =~= s@);
    }
    while n > 0 && s[n - 1] == c
        invariant
            n <= s@.len(),
            trim_end_char(s@, c) == trim_end_char(s@.take(n as int), c),
        decreases n,
    {
        proof {
            assert(s@.take(n as int).drop_last() =~= s@.take(n - 1));
        }
        n -= 1;
    }
    let r = part(s, 0, n);
    assert(r@ =~= s@.take(n as int));
    r
}

// ---------------------------------------------------------------------------
// Pieces

/// The pieces of `s` between the occurrences of `c`: reading one more character
/// either opens a new piece or extends the last one.
pub open spec fn split(s: Seq<char>, c: char) -> Seq<Seq<char>>
    decreases s.len(),
{
    if s.len() == 0 {
        seq![Seq::empty()]
    } else {
        let before = split(s.drop_last(), c);
        if s.last() == c {
            before.push(Seq::empty())
        } else {
            before.drop_last().push(before.last().push(s.last()))
        }
    }
}

/// The pieces of `s` between single characters of white space.
pub open spec fn split_space(s: Seq<char>) -> Seq<Seq<char>>
    decreases s.len(),
{
    if s.len() == 0 {
        seq![Seq::empty()]
    } else {
        let before = split_space(s.drop_last());
        if is_space(s.last()) {
            before.push(Seq::empty())
        } else {
            before.drop_last().push(before.last().push(s.last()))
        }
    }
}

/// The pieces that hold at least one character, in order.
pub open spec fn nonempty(p: Seq<Seq<char>>) -> Seq<Seq<char>>
    decreases p.len(),
{
    if p.len() == 0 {
        Seq::empty()
    } else if p.last().len() == 0 {
        nonempty(p.drop_last())
    } else {
        nonempty(p.drop_last()).push(p.last())
    }
}

/// The words of `s`: its maximal runs without white space.
pub open spec fn words(s: Seq<char>) -> Seq<Seq<char>> {
    nonempty(split_space(s))
}

proof fn kept_are_nonempty(v: Seq<Seq<char>>, i: int)
    requires
        0 <= i < nonempty(v).len(),
    ensures
        nonempty(v)[i].len() > 0,
    decreases v.len(),
{
    if i < nonempty(v.drop_last()).len() {
        kept_are_nonempty(v.drop_last(), i);
    }
}

/// No word is empty.
pub proof fn words_are_nonempty(s: Seq<char>, i: int)
    requires
        0 <= i < words(s).len(),
    ensures
        words(s)[i].len() > 0,
{
    kept_are_nonempty(split_space(s), i);
}

/// A line without the carriage return before its line feed.
pub open spec fn strip_cr(s: Seq<char>) -> Seq<char> {
    if s.len() > 0 && s.last() == '\r' {
        s.drop_last()
    } else {
        s
    }
}

/// The lines of `s`. Each ends with a line feed, or with a carriage return and a
/// line feed; the last one need not end.
pub open spec fn lines(s: Seq<char>) -> Seq<Seq<char>> {
    let p = split(s, '\n');
    let n = if p.last().len() == 0 {
        p.len() - 1
    } else {
        p.len() as int
    };
    Seq::new(
        n as nat,
        |i: int|
            if i < p.len() - 1 {
                strip_cr(p[i])
            } else {
                p[i]
            },
    )
}

/// Splitting always gives at least one piece.
pub broadcast proof fn split_has_a_piece(s: Seq<char>, c: char)
    ensures
        #[trigger] split(s, c).len() > 0,
    decreases s.len(),
{
    if s.len() > 0 {
        split_has_a_piece(s.drop_last(), c);
    }
}

/// Splitting two texts with the separator between them gives the pieces of both.
pub proof fn split_of_both(a: Seq<char>, b: Seq<char>, c: char)
    ensures
        split(a.push(c) + b, c) == split(a, c) + split(b, c),
    decreases b.len(),
{
    broadcast use split_has_a_piece;

    let s = a.push(c) + b;
    if b.len() == 0 {
        assert(s =~= a.push(c));
        assert(s.drop_last() =~= a);
        assert(split(s, c) =~= split(a, c) + split(b, c));
    } else {
        assert(s.drop_last() =~= a.push(c) + b.drop_last());
        split_of_both(a, b.drop_last(), c);
        let x = split(a, c);
        let y = split(b.drop_last(), c);
        assert((x + y).last() == y.last());
        assert((x + y).drop_last() =~= x + y.drop_last());
        assert(split(s, c) =~= x + split(b, c));
    }
}

/// No piece holds the separator.
pub proof fn pieces_are_plain(s: Seq<char>, c: char, i: int)
    requires
        0 <= i < split(s, c).len(),
    ensures
        !split(s, c)[i].contains(c),
    decreases s.len(),
{
    if s.len() > 0 {
        broadcast use split_has_a_piece;

        let before = split(s.drop_last(), c);
        if i < before.len() {
            pieces_are_plain(s.drop_last(), c, i);
        }
    }
}

/// A text without the separator is one piece.
pub proof fn plain_is_one_piece(s: Seq<char>, c: char)
    requires
        !s.contains(c),
    ensures
        split(s, c) == seq![s],
    decreases s.len(),
{
    if s.len() > 0 {
        assert(s[s.len() - 1] != c);
        assert forall|i: int| 0 <= i < s.drop_last().len() implies s.drop_last()[i] != c by {
            assert(s[i] != c);
        }
        plain_is_one_piece(s.drop_last(), c);
        assert(s.drop_last().push(s.last()) =~= s);
        assert(split(s, c) =~= seq![s]);
    } else {
        assert(s =~= Seq::empty());
    }
}

pub fn pieces<'a>(s: &'a [char], c: char) -> (r: Vec<&'a [char]>)
    ensures
        slices(r@) == split(s@, c),
        r@.len() > 0,
{
    let mut out: Vec<&'a [char]> = Vec::new();
    let mut start: usize = 0;
    proof {
        assert(split(s@.take(0), c) =~~= slices(out@).push(s@.subrange(0, 0)));
    }
    for i in 0..s.len()
        invariant
            start <= i,
            split(s@.take(i as int), c) == slices(out@).push(s@.subrange(start as int, i as int)),
    {
        proof {
            assert(s@.take(i + 1).drop_last() =~= s@.take(i as int));
        }
        if s[i] == c {
            out.push(part(s, start, i));
            start = i + 1;
            proof {
                assert(split(s@.take(i + 1), c) =~~= slices(out@).push(
                    s@.subrange(start as int, i + 1),
                ));
            }
        } else {
            proof {
                assert(s@.subrange(start as int, i as int).push(s@[i as int]) =~= s@.subrange(
                    start as int,
                    i + 1,
                ));
                assert(split(s@.take(i + 1), c) =~~= slices(out@).push(
                    s@.subrange(start as int, i + 1),
                ));
            }
        }
    }
    out.push(part(s, start, s.len()));
    proof {
        assert(s@.take(s@.len() as int) =~= s@);
        assert(slices(out@) =~= split(s@, c));
    }
    out
}

fn space_pieces<'a>(s: &'a [char]) -> (r: Vec<&'a [char]>)
    ensures
        slices(r@) == split_space(s@),
{
    let mut out: Vec<&'a [char]> = Vec::new();
    let mut start: usize = 0;
    proof {
        assert(split_space(s@.take(0)) =~~= slices(out@).push(s@.subrange(0, 0)));
    }
    for i in 0..s.len()
        invariant
            start <= i,
            split_space(s@.take(i as int)) == slices(out@).push(
                s@.subrange(start as int, i as int),
            ),
    {
        proof {
            assert(s@.take(i + 1).drop_last() =~= s@.take(i as int));
        }
        if space(s[i]) {
            out.push(part(s, start, i));
            start = i + 1;
            proof {
                assert(split_space(s@.take(i + 1)) =~~= slices(out@).push(
                    s@.subrange(start as int, i + 1),
                ));
            }
        } else {
            proof {
                assert(s@.subrange(start as int, i as int).push(s@[i as int]) =~= s@.subrange(
                    start as int,
                    i + 1,
                ));
                assert(split_space(s@.take(i + 1)) =~~= slices(out@).push(
                    s@.subrange(start as int, i + 1),
                ));
            }
        }
    }
    out.push(part(s, start, s.len()));
    proof {
        assert(s@.take(s@.len() as int) =~= s@);
        assert(slices(out@) =~= split_space(s@));
    }
    out
}

pub fn words_of<'a>(s: &'a [char]) -> (r: Vec<&'a [char]>)
    ensures
        slices(r@) == words(s@),
{
    let p = space_pieces(s);
    let mut out: Vec<&'a [char]> = Vec::new();
    for i in 0..p.len()
        invariant
            slices(out@) == nonempty(slices(p@).take(i as int)),
    {
        proof {
            assert(slices(p@).take(i + 1).drop_last() =~= slices(p@).take(i as int));
        }
        let ghost before = slices(out@);
        if p[i].len() > 0 {
            out.push(p[i]);
            proof {
                assert(slices(out@) =~= before.push(p@[i as int]@));
            }
        }
    }
    proof {
        assert(slices(p@).take(p@.len() as int) =~= slices(p@));
    }
    out
}

fn stripped_cr(s: &[char]) -> (r: &[char])
    ensures
        r@ == strip_cr(s@),
{
    if s.len() > 0 && s[s.len() - 1] == '\r' {
        let r = part(s, 0, s.len() - 1);
        assert(r@ =~= s@.drop_last());
        r
    } else {
        s
    }
}

pub fn lines_of<'a>(s: &'a [char]) -> (r: Vec<&'a [char]>)
    ensures
        slices(r@) == lines(s@),
{
    let p = pieces(s, '\n');
    let n: usize = p.len();
    proof {
        assert(split(s@, '\n')[n - 1] == p@[n - 1]@);
    }
    let mut out: Vec<&'a [char]> = Vec::new();
    for i in 0..n - 1
        invariant
            0 < n == p@.len(),
            out@.len() == i,
            forall|j: int| 0 <= j < i ==> #[trigger] out@[j]@ == strip_cr(p@[j]@),
    {
        out.push(stripped_cr(p[i]));
    }
    if p[n - 1].len() > 0 {
        out.push(p[n - 1]);
    }
    proof {
        assert(slices(out@) =~= lines(s@));
    }
    out
}

/// Where `p` first stands in a text that contains it.
pub open spec fn position(s: Seq<char>, p: Seq<char>) -> int {
    choose|i: int| first_at(s, p, i)
}

/// There is one first position.
pub proof fn position_is(s: Seq<char>, p: Seq<char>, i: int)
    requires
        first_at(s, p, i),
    ensures
        contains(s, p),
        position(s, p) == i,
{
    let j = position(s, p);
    assert(first_at(s, p, j));
    if j < i {
        assert(!occurs_at(s, p, j));
    } else if i < j {
        assert(!occurs_at(s, p, i));
    }
}

/// The pieces of `s` between the occurrences of `p`, found from the left and not
/// overlapping.
pub open spec fn split_str(s: Seq<char>, p: Seq<char>) -> Seq<Seq<char>>
    decreases s.len(),
{
    let i = position(s, p);
    if p.len() > 0 && contains(s, p) && 0 <= i <= s.len() - p.len() {
        seq![s.take(i)] + split_str(s.skip(i + p.len()), p)
    } else {
        seq![s]
    }
}

pub fn pieces_str<'a>(s: &'a [char], p: &str) -> (r: Vec<&'a [char]>)
    requires
        p@.len() > 0,
    ensures
        slices(r@) == split_str(s@, p@),
{
    let q = chars_of(p);
    let mut out: Vec<&'a [char]> = Vec::new();
    let mut rest: &'a [char] = s;
    proof {
        assert(slices(out@) + split_str(rest@, p@) =~= split_str(s@, p@));
    }
    loop
        invariant
            q@ == p@,
            p@.len() > 0,
            slices(out@) + split_str(rest@, p@) == split_str(s@, p@),
        decreases rest@.len(),
    {
        let ghost before = slices(out@);
        match find(rest, q.as_slice()) {
            Some(i) => {
                let n: usize = rest.len();
                let head = part(rest, 0, i);
                let tail = part(rest, i + q.len(), n);
                proof {
                    position_is(rest@, p@, i as int);
                    assert(head@ =~= rest@.take(i as int));
                    assert(tail@ =~= rest@.skip(i + p@.len()));
                }
                out.push(head);
                proof {
                    assert(slices(out@) =~= before.push(head@));
                    assert(slices(out@) + split_str(tail@, p@) =~= before + (seq![head@]
                        + split_str(tail@, p@)));
                }
                rest = tail;
            },
            None => {
                out.push(rest);
                proof {
                    assert(slices(out@) =~= before + seq![rest@]);
                }
                return out;
            },
        }
    }
}

// ---------------------------------------------------------------------------
// Rewriting

/// `s` with each occurrence of `from`, found from the left and not overlapping,
/// replaced by `to`.
pub open spec fn replace(s: Seq<char>, from: Seq<char>, to: Seq<char>) -> Seq<char>
    decreases s.len(),
{
    if from.len() == 0 || s.len() < from.len() {
        s
    } else if starts_with(s, from) {
        to + replace(s.skip(from.len() as int), from, to)
    } else {
        seq![s[0]] + replace(s.skip(1), from, to)
    }
}

pub fn replaced(s: &[char], from: &[char], to: &[char]) -> (r: Vec<char>)
    requires
        from@.len() > 0,
    ensures
        r@ == replace(s@, from@, to@),
{
    let mut out: Vec<char> = Vec::new();
    let mut i: usize = 0;
    proof {
        assert(s@.skip(0) =~= s@);
        assert(out@ + replace(s@, from@, to@) =~= replace(s@, from@, to@));
    }
    while i < s.len()
        invariant
            from@.len() > 0,
            i <= s@.len(),
            out@ + replace(s@.skip(i as int), from@, to@) == replace(s@, from@, to@),
        decreases s@.len() - i,
    {
        let ghost before = out@;
        let ghost rest = s@.skip(i as int);
        if occurs(s, from, i) {
            proof {
                assert(rest.subrange(0, from@.len() as int) =~= s@.subrange(
                    i as int,
                    i + from@.len(),
                ));
                assert(rest.skip(from@.len() as int) =~= s@.skip(i + from@.len()));
            }
            put(&mut out, to);
            i += from.len();
            proof {
                assert(out@ + replace(s@.skip(i as int), from@, to@) =~= before + (to@ + replace(
                    s@.skip(i as int),
                    from@,
                    to@,
                )));
            }
        } else {
            proof {
                if rest.len() >= from@.len() {
                    assert(rest.subrange(0, from@.len() as int) =~= s@.subrange(
                        i as int,
                        i + from@.len(),
                    ));
                    assert(!starts_with(rest, from@));
                }
                assert(rest.skip(1) =~= s@.skip(i + 1));
                assert(replace(rest, from@, to@) =~= seq![rest[0]] + replace(
                    rest.skip(1),
                    from@,
                    to@,
                ));
            }
            out.push(s[i]);
            i += 1;
            proof {
                assert(out@ + replace(s@.skip(i as int), from@, to@) =~= before + (seq![rest[0]]
                    + replace(s@.skip(i as int), from@, to@)));
            }
        }
    }
    proof {
        assert(s@.skip(s@.len() as int) =~= Seq::<char>::empty());
        assert(out@ + Seq::<char>::empty() =~= out@);
    }
    out
}

/// Appends the characters of `s`.
pub fn put(out: &mut Vec<char>, s: &[char])
    ensures
        final(out)@ == old(out)@ + s@,
{
    let ghost before = out@;
    for i in 0..s.len()
        invariant
            out@ == before + s@.take(i as int),
    {
        out.push(s[i]);
        proof {
            assert(out@ =~= before + s@.take(i + 1));
        }
    }
    proof {
        assert(s@.take(s@.len() as int) =~= s@);
    }
}

/// The parts one after another, with `sep` between neighbours.
pub open spec fn join(parts: Seq<Seq<char>>, sep: Seq<char>) -> Seq<char>
    decreases parts.len(),
{
    if parts.len() == 0 {
        Seq::empty()
    } else if parts.len() == 1 {
        parts[0]
    } else {
        join(parts.drop_last(), sep) + sep + parts.last()
    }
}

pub fn joined(parts: &Vec<String>, sep: &str) -> (r: String)
    ensures
        r@ == join(views(parts@), sep@),
{
    let mut out = String::new();
    for i in 0..parts.len()
        invariant
            out@ == join(views(parts@).take(i as int), sep@),
    {
        proof {
            assert(views(parts@).take(i + 1).drop_last() =~= views(parts@).take(i as int));
        }
        if i > 0 {
            out.append(sep);
        }
        out.append(parts[i].as_str());
        proof {
            assert(out@ =~= join(views(parts@).take(i + 1), sep@));
        }
    }
    proof {
        assert(views(parts@).take(parts@.len() as int) =~= views(parts@));
    }
    out
}

/// The ASCII capital letters made small, every other character kept.
pub open spec fn lower_char(c: char) -> char {
    if 'A' <= c <= 'Z' {
        (c as u8 + 32) as char
    } else {
        c
    }
}

pub open spec fn ascii_lower(s: Seq<char>) -> Seq<char> {
    Seq::new(s.len(), |i: int| lower_char(s[i]))
}

pub fn lowered_char(c: char) -> (r: char)
    ensures
        r == lower_char(c),
{
    if 'A' <= c && c <= 'Z' {
        (c as u8 + 32) as char
    } else {
        c
    }
}

pub fn lowered(s: &[char]) -> (r: Vec<char>)
    ensures
        r@ == ascii_lower(s@),
{
    let mut out: Vec<char> = Vec::new();
    for i in 0..s.len()
        invariant
            out@ == ascii_lower(s@).take(i as int),
    {
        out.push(lowered_char(s[i]));
        proof {
            assert(out@ =~= ascii_lower(s@).take(i + 1));
        }
    }
    proof {
        assert(ascii_lower(s@).take(s@.len() as int) =~= ascii_lower(s@));
    }
    out
}

pub open spec fn is_digit(c: char) -> bool {
    '0' <= c <= '9'
}

pub open spec fn is_ascii_alnum(c: char) -> bool {
    ||| '0' <= c <= '9'
    ||| 'a' <= c <= 'z'
    ||| 'A' <= c <= 'Z'
}

pub fn ascii_alnum(c: char) -> (r: bool)
    ensures
        r == is_ascii_alnum(c),
{
    ('0' <= c && c <= '9') || ('a' <= c && c <= 'z') || ('A' <= c && c <= 'Z')
}

// ---------------------------------------------------------------------------
// Numbers

/// What a run of decimal digits stands for.
pub open spec fn value_of(s: Seq<char>) -> nat
    decreases s.len(),
{
    if s.len() == 0 {
        0
    } else {
        value_of(s.drop_last()) * 10 + (s.last() as u32 - '0' as u32) as nat
    }
}

/// `s` is one or more decimal digits.
pub open spec fn is_number(s: Seq<char>) -> bool {
    s.len() > 0 && forall|i: int| 0 <= i < s.len() ==> is_digit(#[trigger] s[i])
}

/// `s` without the plus sign that may stand before a number.
pub open spec fn unsigned_part(s: Seq<char>) -> Seq<char> {
    if s.len() > 0 && s[0] == '+' {
        s.skip(1)
    } else {
        s
    }
}

/// The number no greater than `max` that `s` writes in decimal.
pub open spec fn parse_number(s: Seq<char>, max: nat) -> Option<nat> {
    let d = unsigned_part(s);
    if is_number(d) && value_of(d) <= max {
        Some(value_of(d))
    } else {
        None
    }
}

proof fn value_grows(s: Seq<char>, n: int)
    requires
        0 <= n <= s.len(),
        forall|i: int| 0 <= i < s.len() ==> is_digit(#[trigger] s[i]),
    ensures
        value_of(s.take(n)) <= value_of(s),
    decreases s.len(),
{
    if n < s.len() {
        assert(s.drop_last().take(n) =~= s.take(n));
        value_grows(s.drop_last(), n);
    } else {
        assert(s.take(n) =~= s);
    }
}

pub fn parsed_u64(s: &[char], max: u64) -> (r: Option<u64>)
    ensures
        match r {
            Some(v) => parse_number(s@, max as nat) == Some(v as nat),
            None => parse_number(s@, max as nat) is None,
        },
{
    let from: usize = if s.len() > 0 && s[0] == '+' {
        1
    } else {
        0
    };
    let d = part(s, from, s.len());
    proof {
        assert(d@ =~= unsigned_part(s@));
    }
    if d.len() == 0 {
        return None;
    }
    let mut v: u64 = 0;
    for i in 0..d.len()
        invariant
            d@ == unsigned_part(s@),
            v == value_of(d@.take(i as int)),
            v <= max,
            forall|j: int| 0 <= j < i ==> is_digit(#[trigger] d@[j]),
    {
        let c = d[i];
        if c < '0' || c > '9' {
            proof {
                assert(!is_digit(d@[i as int]));
            }
            return None;
        }
        let digit: u64 = (c as u32 - '0' as u32) as u64;
        proof {
            assert(d@.take(i + 1).drop_last() =~= d@.take(i as int));
        }
        if digit > max || v > (max - digit) / 10 {
            proof {
                if is_number(d@) {
                    value_grows(d@, i + 1);
                }
            }
            return None;
        }
        v = v * 10 + digit;
    }
    proof {
        assert(d@.take(d@.len() as int) =~= d@);
    }
    Some(v)
}

/// The decimal digits of `n`.
pub open spec fn decimal(n: nat) -> Seq<char>
    decreases n,
{
    if n < 10 {
        seq![('0' as u8 + n) as char]
    } else {
        decimal(n / 10).push(('0' as u8 + n % 10) as char)
    }
}

pub fn number(n: u128) -> (r: String)
    ensures
        r@ == decimal(n as nat),
    decreases n,
{
    if n < 10 {
        let mut out = String::new();
        out.push(('0' as u8 + n as u8) as char);
        proof {
            assert(out@ =~= decimal(n as nat));
        }
        out
    } else {
        let mut out = number(n / 10);
        out.push(('0' as u8 + (n % 10) as u8) as char);
        out
    }
}

/// A copy of a list of strings.
pub fn copied(v: &Vec<String>) -> (r: Vec<String>)
    ensures
        r@ == v@,
{
    let mut out: Vec<String> = Vec::new();
    for i in 0..v.len()
        invariant
            out@ == v@.take(i as int),
    {
        out.push(v[i].clone());
        proof {
            assert(out@ =~= v@.take(i + 1));
        }
    }
    proof {
        assert(v@.take(v@.len() as int) =~= v@);
    }
    out
}

/// A copy of a slice.
pub fn owned(s: &[char]) -> (r: Vec<char>)
    ensures
        r@ == s@,
{
    let mut out: Vec<char> = Vec::new();
    put(&mut out, s);
    proof {
        assert(Seq::<char>::empty() + s@ =~= s@);
    }
    out
}

/// Where a character last stands.
pub open spec fn last_index(s: Seq<char>, c: char) -> Option<int>
    decreases s.len(),
{
    if s.len() == 0 {
        None
    } else if s.last() == c {
        Some(s.len() - 1)
    } else {
        last_index(s.drop_last(), c)
    }
}

/// Where a character last stands.
pub fn last_place(s: &[char], c: char) -> (r: Option<usize>)
    ensures
        match r {
            Some(i) => i < s@.len() && last_index(s@, c) == Some(i as int),
            None => last_index(s@, c) is None,
        },
{
    let mut i: usize = s.len();
    proof {
        assert(s@.take(i as int) =~= s@);
    }
    while i > 0
        invariant
            i <= s@.len(),
            last_index(s@, c) == last_index(s@.take(i as int), c),
        decreases i,
    {
        proof {
            assert(s@.take(i as int).last() == s@[i - 1]);
            assert(s@.take(i as int).drop_last() =~= s@.take(i - 1));
        }
        if s[i - 1] == c {
            return Some(i - 1);
        }
        i = i - 1;
    }
    None
}

/// The decimal digits of a number, after a minus sign where it is negative.
pub open spec fn signed_decimal(n: int) -> Seq<char> {
    if n < 0 {
        "-"@ + decimal((-n) as nat)
    } else {
        decimal(n as nat)
    }
}

pub fn signed_number(n: i32) -> (r: String)
    ensures
        r@ == signed_decimal(n as int),
{
    if n < 0 {
        let mut out = String::from_str("-");
        out.append(number((-(n as i64)) as u128).as_str());
        out
    } else {
        number(n as u128)
    }
}

/// Where the first blank stands.
pub open spec fn first_space(s: Seq<char>) -> Option<int>
    decreases s.len(),
{
    if s.len() == 0 {
        None
    } else if is_space(s[0]) {
        Some(0)
    } else {
        match first_space(s.skip(1)) {
            Some(i) => Some(i + 1),
            None => None,
        }
    }
}

/// Where the first blank stands.
pub fn space_place(s: &[char]) -> (r: Option<usize>)
    ensures
        match r {
            Some(i) => i < s@.len() && first_space(s@) == Some(i as int),
            None => first_space(s@) is None,
        },
{
    proof {
        assert(s@.skip(0) =~= s@);
    }
    for i in 0..s.len()
        invariant
            first_space(s@) == match first_space(s@.skip(i as int)) {
                Some(k) => Some(k + i),
                None => None,
            },
    {
        proof {
            assert(s@.skip(i as int)[0] == s@[i as int]);
            assert(s@.skip(i as int).skip(1) =~= s@.skip(i + 1));
        }
        if space(s[i]) {
            return Some(i);
        }
    }
    None
}

// ---------------------------------------------------------------------------
// Laws

/// Every character of `s` is white space.
pub open spec fn is_blank(s: Seq<char>) -> bool {
    forall|i: int| 0 <= i < s.len() ==> is_space(#[trigger] s[i])
}

proof fn trim_start_drops(a: Seq<char>, m: Seq<char>)
    requires
        is_blank(a),
        m.len() == 0 || !is_space(m[0]),
    ensures
        trim_start(a + m) == m,
    decreases a.len(),
{
    if a.len() == 0 {
        assert(a + m =~= m);
    } else {
        assert((a + m)[0] == a[0]);
        assert((a + m).skip(1) =~= a.skip(1) + m);
        trim_start_drops(a.skip(1), m);
    }
}

proof fn trim_end_drops(m: Seq<char>, b: Seq<char>)
    requires
        is_blank(b),
        m.len() == 0 || !is_space(m.last()),
    ensures
        trim_end(m + b) == m,
    decreases b.len(),
{
    if b.len() == 0 {
        assert(m + b =~= m);
    } else {
        assert((m + b).last() == b.last());
        assert((m + b).drop_last() =~= m + b.drop_last());
        trim_end_drops(m, b.drop_last());
    }
}

/// Trimming takes away the white space around a text, and nothing of the text.
pub proof fn trimming_keeps_the_middle(a: Seq<char>, m: Seq<char>, b: Seq<char>)
    requires
        is_blank(a),
        is_blank(b),
        m.len() > 0 ==> !is_space(m[0]) && !is_space(m.last()),
    ensures
        trim(a + m + b) == m,
        trim(m) == m,
{
    let none = Seq::<char>::empty();
    if m.len() == 0 {
        assert(a + m + b =~= (a + b) + none);
        trim_start_drops(a + b, none);
        assert(trim_end(none) =~= none);
        assert(m =~= none);
        assert(trim_start(none) =~= none);
    } else {
        assert(a + m + b =~= a + (m + b));
        assert((m + b)[0] == m[0]);
        trim_start_drops(a, m + b);
        trim_end_drops(m, b);
        assert(m + none =~= m);
        assert(none + m =~= m);
        trim_start_drops(none, m);
        trim_end_drops(m, none);
    }
}

/// Blanks, tabs and line ends are white space; what can be seen in a name is not.
pub proof fn seen_characters_are_no_space(c: char)
    ensures
        is_space(' ') && is_space('\t') && is_space('\n') && is_space('\r'),
        '!' <= c <= '~' ==> !is_space(c),
{
}

/// Lines, each with its line feed behind it.
pub open spec fn written(l: Seq<Seq<char>>) -> Seq<char>
    decreases l.len(),
{
    if l.len() == 0 {
        Seq::empty()
    } else {
        written(l.drop_last()) + l.last().push('\n')
    }
}

/// A line that holds no line feed and does not end in a carriage return.
pub open spec fn is_line(s: Seq<char>) -> bool {
    !s.contains('\n') && !(s.len() > 0 && s.last() == '\r')
}

proof fn split_of_written(l: Seq<Seq<char>>)
    requires
        forall|i: int| 0 <= i < l.len() ==> is_line(#[trigger] l[i]),
    ensures
        split(written(l), '\n') == l.push(Seq::empty()),
    decreases l.len(),
{
    let none = Seq::<char>::empty();
    if l.len() == 0 {
        assert(split(written(l), '\n') =~= l.push(none));
    } else {
        let before = l.drop_last();
        assert forall|i: int| 0 <= i < before.len() implies is_line(#[trigger] before[i]) by {
            assert(before[i] == l[i]);
        }
        split_of_written(before);
        let w = written(before);
        let last = l.last();
        assert(is_line(l[l.len() - 1]));
        if before.len() == 0 {
            assert(w =~= none);
            assert(w + last.push('\n') =~= last.push('\n') + none);
            split_of_both(last, none, '\n');
            plain_is_one_piece(last, '\n');
            assert(split(none, '\n') =~= seq![none]);
            assert(split(written(l), '\n') =~= l.push(none));
        } else {
            let u = w.drop_last();
            assert(w.last() == '\n');
            assert(w =~= u.push('\n'));
            assert(w + last.push('\n') =~= u.push('\n') + last.push('\n'));
            split_of_both(u, last.push('\n'), '\n');
            assert(u.push('\n') + none =~= w);
            split_of_both(u, none, '\n');
            assert(split(none, '\n') =~= seq![none]);
            assert(split(u, '\n') + seq![none] =~= before.push(none));
            assert((split(u, '\n') + seq![none]).drop_last() =~= split(u, '\n'));
            assert(before.push(none).drop_last() =~= before);
            assert(last.push('\n') =~= last.push('\n') + none);
            split_of_both(last, none, '\n');
            plain_is_one_piece(last, '\n');
            assert(split(written(l), '\n') =~= l.push(none));
        }
    }
}

/// The lines of a text are the lines that were written.
pub proof fn lines_are_read_back(l: Seq<Seq<char>>)
    requires
        forall|i: int| 0 <= i < l.len() ==> is_line(#[trigger] l[i]),
    ensures
        lines(written(l)) == l,
{
    split_of_written(l);
    let p = l.push(Seq::<char>::empty());
    assert(p.last().len() == 0);
    assert forall|i: int| 0 <= i < l.len() implies #[trigger] lines(written(l))[i] == l[i] by {
        assert(is_line(l[i]));
    }
    assert(lines(written(l)) =~= l);
}

/// A text that does not hold another is left as it is.
pub proof fn replacing_nothing(s: Seq<char>, from: Seq<char>, to: Seq<char>)
    requires
        !contains(s, from),
    ensures
        replace(s, from, to) == s,
    decreases s.len(),
{
    if from.len() > 0 && s.len() >= from.len() {
        assert(!occurs_at(s, from, 0));
        assert forall|i: int| !occurs_at(s.skip(1), from, i) by {
            if occurs_at(s.skip(1), from, i) {
                assert(s.skip(1).subrange(i, i + from.len()) =~= s.subrange(
                    i + 1,
                    i + 1 + from.len(),
                ));
                assert(occurs_at(s, from, i + 1));
            }
        }
        replacing_nothing(s.skip(1), from, to);
        assert(seq![s[0]] + s.skip(1) =~= s);
    }
}

/// The first place where a text holds another is replaced, and then what follows.
pub proof fn replacing_the_first(a: Seq<char>, from: Seq<char>, b: Seq<char>, to: Seq<char>)
    requires
        from.len() > 0,
        first_at(a + from + b, from, a.len() as int),
    ensures
        replace(a + from + b, from, to) == a + to + replace(b, from, to),
    decreases a.len(),
{
    let s = a + from + b;
    if a.len() == 0 {
        assert(s.skip(from.len() as int) =~= b);
        assert(a + to + replace(b, from, to) =~= to + replace(b, from, to));
    } else {
        assert(!occurs_at(s, from, 0));
        let rest = a.skip(1) + from + b;
        assert(s.skip(1) =~= rest);
        assert(rest.subrange(a.len() - 1, a.len() - 1 + from.len()) =~= from);
        assert forall|j: int| 0 <= j < a.len() - 1 implies !occurs_at(rest, from, j) by {
            if occurs_at(rest, from, j) {
                assert(rest.subrange(j, j + from.len()) =~= s.subrange(j + 1, j + 1 + from.len()));
                assert(occurs_at(s, from, j + 1));
            }
        }
        replacing_the_first(a.skip(1), from, b, to);
        assert(seq![a[0]] + (a.skip(1) + to + replace(b, from, to)) =~= a + to + replace(
            b,
            from,
            to,
        ));
    }
}

/// What was put before a text is taken away again; nothing is taken from a text that
/// does not begin so.
pub proof fn stripping_undoes_prefixing(p: Seq<char>, s: Seq<char>)
    ensures
        strip_prefix(p + s, p) == Some(s),
        strip_suffix(s + p, p) == Some(s),
        starts_with(p + s, p),
        ends_with(s + p, p),
        strip_prefix(s, p) matches Some(r) ==> s == p + r,
        strip_suffix(s, p) matches Some(r) ==> s == r + p,
{
    assert((p + s).subrange(0, p.len() as int) =~= p);
    assert((p + s).skip(p.len() as int) =~= s);
    assert((s + p).subrange(s.len() as int, (s + p).len() as int) =~= p);
    assert((s + p).take(s.len() as int) =~= s);
    if starts_with(s, p) {
        assert(s =~= s.subrange(0, p.len() as int) + s.skip(p.len() as int));
    }
    if ends_with(s, p) {
        assert(s =~= s.take(s.len() - p.len()) + s.subrange(s.len() - p.len(), s.len() as int));
    }
}

/// A text holds another exactly when it is the other with something around it.
pub proof fn containing_is_having_around(s: Seq<char>, p: Seq<char>)
    ensures
        contains(s, p) <==> exists|a: Seq<char>, b: Seq<char>| s == #[trigger] (a + p + b),
{
    if contains(s, p) {
        let i = choose|i: int| occurs_at(s, p, i);
        let a = s.take(i);
        let b = s.skip(i + p.len());
        assert(s =~= a + p + b);
    }
    if exists|a: Seq<char>, b: Seq<char>| s == #[trigger] (a + p + b) {
        let (a, b) = choose|a: Seq<char>, b: Seq<char>| s == #[trigger] (a + p + b);
        assert(s.subrange(a.len() as int, (a.len() + p.len()) as int) =~= p);
        assert(occurs_at(s, p, a.len() as int));
    }
}

/// What stands before the first place where a text holds another.
pub proof fn position_of_first(a: Seq<char>, p: Seq<char>, b: Seq<char>)
    requires
        forall|j: int| 0 <= j < a.len() ==> !occurs_at(a + p + b, p, j),
    ensures
        contains(a + p + b, p),
        position(a + p + b, p) == a.len(),
        (a + p + b).take(position(a + p + b, p)) == a,
        (a + p + b).skip(position(a + p + b, p) + p.len()) == b,
{
    let s = a + p + b;
    assert(s.subrange(a.len() as int, (a.len() + p.len()) as int) =~= p);
    assert(first_at(s, p, a.len() as int));
    position_is(s, p, a.len() as int);
    assert(s.take(a.len() as int) =~= a);
    assert(s.skip((a.len() + p.len()) as int) =~= b);
}

/// A number is written in digits, without a sign.
pub proof fn decimal_is_number(n: nat)
    ensures
        is_number(decimal(n)),
        value_of(decimal(n)) == n,
        decimal(n)[0] != '+',
    decreases n,
{
    let d = decimal(n);
    if n < 10 {
        assert(d.drop_last() =~= Seq::<char>::empty());
        assert(value_of(d.drop_last()) == 0);
    } else {
        decimal_is_number(n / 10);
        let before = decimal(n / 10);
        assert(d.drop_last() =~= before);
        assert(is_digit(d.last()));
        assert(d[0] == before[0]);
        assert forall|i: int| 0 <= i < d.len() implies is_digit(#[trigger] d[i]) by {
            if i < before.len() {
                assert(is_digit(before[i]));
            }
        }
    }
}

/// A number is read back from its digits, unless it is too large; and a sign before
/// it changes nothing.
pub proof fn numbers_are_read_back(n: nat, max: nat)
    ensures
        n <= max ==> parse_number(decimal(n), max) == Some(n),
        n <= max ==> parse_number("+"@ + decimal(n), max) == Some(n),
        n > max ==> parse_number(decimal(n), max) is None,
{
    decimal_is_number(n);
    reveal_strlit("+");
    let d = decimal(n);
    assert(("+"@ + d).skip(1) =~= d);
    assert(unsigned_part(d) == d);
    assert(unsigned_part("+"@ + d) == d);
}

/// Only digits are read as a number.
pub proof fn only_digits_are_numbers(s: Seq<char>, max: nat, i: int)
    requires
        0 <= i < s.len(),
        !('0' <= s[i] <= '9'),
        i > 0 || s[i] != '+',
    ensures
        parse_number(s, max) is None,
{
    let d = unsigned_part(s);
    if s[0] == '+' {
        assert(d[i - 1] == s[i]);
    } else {
        assert(d[i] == s[i]);
    }
}

/// The last place of a character.
pub proof fn last_index_is_last(a: Seq<char>, c: char, b: Seq<char>)
    requires
        !b.contains(c),
    ensures
        last_index(a.push(c) + b, c) == Some(a.len() as int),
        last_index(b, c) is None,
    decreases b.len(),
{
    let s = a.push(c) + b;
    if b.len() == 0 {
        assert(s =~= a.push(c));
    } else {
        assert(b[b.len() - 1] != c);
        assert forall|i: int| 0 <= i < b.drop_last().len() implies b.drop_last()[i] != c by {
            assert(b[i] != c);
        }
        assert(s.last() == b.last());
        assert(s.drop_last() =~= a.push(c) + b.drop_last());
        last_index_is_last(a, c, b.drop_last());
    }
}

/// The first white space of a text.
pub proof fn first_space_is_first(a: Seq<char>, b: Seq<char>)
    requires
        forall|i: int| 0 <= i < a.len() ==> !is_space(#[trigger] a[i]),
        b.len() > 0 ==> is_space(b[0]),
    ensures
        first_space(a + b) == if b.len() > 0 {
            Some(a.len() as int)
        } else {
            None
        },
    decreases a.len(),
{
    if a.len() == 0 {
        assert(a + b =~= b);
    } else {
        assert((a + b)[0] == a[0]);
        assert((a + b).skip(1) =~= a.skip(1) + b);
        assert forall|i: int| 0 <= i < a.skip(1).len() implies !is_space(#[trigger] a.skip(1)[i]) by {
            assert(a.skip(1)[i] == a[i + 1]);
        }
        first_space_is_first(a.skip(1), b);
    }
}

proof fn nonempty_of_both(a: Seq<Seq<char>>, b: Seq<Seq<char>>)
    ensures
        nonempty(a + b) == nonempty(a) + nonempty(b),
    decreases b.len(),
{
    if b.len() == 0 {
        assert(a + b =~= a);
        assert(nonempty(a) + nonempty(b) =~= nonempty(a));
    } else {
        assert((a + b).last() == b.last());
        assert((a + b).drop_last() =~= a + b.drop_last());
        nonempty_of_both(a, b.drop_last());
        assert(nonempty(a + b) =~= nonempty(a) + nonempty(b));
    }
}

proof fn space_split_has_a_piece(s: Seq<char>)
    ensures
        split_space(s).len() > 0,
    decreases s.len(),
{
    if s.len() > 0 {
        space_split_has_a_piece(s.drop_last());
    }
}

proof fn space_split_of_both(a: Seq<char>, c: char, b: Seq<char>)
    requires
        is_space(c),
    ensures
        split_space(a.push(c) + b) == split_space(a) + split_space(b),
    decreases b.len(),
{
    let s = a.push(c) + b;
    space_split_has_a_piece(a);
    space_split_has_a_piece(b);
    if b.len() == 0 {
        assert(s =~= a.push(c));
        assert(s.drop_last() =~= a);
        assert(split_space(s) =~= split_space(a) + split_space(b));
    } else {
        assert(s.last() == b.last());
        assert(s.drop_last() =~= a.push(c) + b.drop_last());
        space_split_of_both(a, c, b.drop_last());
        space_split_has_a_piece(b.drop_last());
        let all = split_space(a) + split_space(b.drop_last());
        assert(all.last() == split_space(b.drop_last()).last());
        assert(all.drop_last() =~= split_space(a) + split_space(b.drop_last()).drop_last());
        assert(split_space(s) =~= split_space(a) + split_space(b));
    }
}

proof fn plain_is_one_space_piece(s: Seq<char>)
    requires
        forall|i: int| 0 <= i < s.len() ==> !is_space(#[trigger] s[i]),
    ensures
        split_space(s) == seq![s],
    decreases s.len(),
{
    if s.len() == 0 {
        assert(s =~= Seq::<char>::empty());
        assert(split_space(s) =~= seq![s]);
    } else {
        let d = s.drop_last();
        assert forall|i: int| 0 <= i < d.len() implies !is_space(#[trigger] d[i]) by {
            assert(d[i] == s[i]);
        }
        plain_is_one_space_piece(d);
        assert(!is_space(s[s.len() - 1]));
        assert(d.push(s.last()) =~= s);
        assert(split_space(s) =~= seq![s]);
    }
}

/// A text without white space is one word, and white space parts the words before
/// and behind it.
pub proof fn words_are_parted_by_space(w: Seq<char>, c: char, b: Seq<char>)
    requires
        forall|i: int| 0 <= i < w.len() ==> !is_space(#[trigger] w[i]),
        is_space(c),
    ensures
        w.len() > 0 ==> words(w) == seq![w],
        words(w.push(c) + b) == words(w) + words(b),
{
    plain_is_one_space_piece(w);
    space_split_of_both(w, c, b);
    nonempty_of_both(split_space(w), split_space(b));
    if w.len() > 0 {
        assert(seq![w].drop_last() =~= Seq::<Seq<char>>::empty());
        assert(nonempty(Seq::<Seq<char>>::empty()) =~= Seq::<Seq<char>>::empty());
        assert(words(w) =~= seq![w]);
    }
}

/// Only capital letters change when a text is put in lower case, each to its small
/// letter; doing it again changes nothing.
pub proof fn lowering_changes_capitals(s: Seq<char>, i: int)
    requires
        0 <= i < s.len(),
    ensures
        ascii_lower(s).len() == s.len(),
        !('A' <= s[i] <= 'Z') ==> ascii_lower(s)[i] == s[i],
        'A' <= s[i] <= 'Z' ==> 'a' <= ascii_lower(s)[i] <= 'z' && ascii_lower(s)[i] as u32
            == s[i] as u32 + ('a' as u32 - 'A' as u32),
        ascii_lower(ascii_lower(s)) == ascii_lower(s),
{
    assert(ascii_lower(ascii_lower(s)) =~= ascii_lower(s));
}

/// Texts put together with a separator that none of them holds are parted again.
pub proof fn joining_is_undone_by_splitting(parts: Seq<Seq<char>>, c: char)
    requires
        parts.len() > 0,
        forall|i: int| 0 <= i < parts.len() ==> !(#[trigger] parts[i]).contains(c),
    ensures
        split(join(parts, seq![c]), c) == parts,
    decreases parts.len(),
{
    assert(!parts[0].contains(c));
    if parts.len() == 1 {
        plain_is_one_piece(parts[0], c);
        assert(parts =~= seq![parts[0]]);
    } else {
        let before = parts.drop_last();
        assert forall|i: int| 0 <= i < before.len() implies !(#[trigger] before[i]).contains(c) by {
            assert(before[i] == parts[i]);
        }
        joining_is_undone_by_splitting(before, c);
        let j = join(before, seq![c]);
        let last = parts.last();
        assert(!parts[parts.len() - 1].contains(c));
        assert(j + seq![c] + last =~= j.push(c) + last);
        split_of_both(j, last, c);
        plain_is_one_piece(last, c);
        assert(before + seq![last] =~= parts);
    }
}

proof fn trim_end_has_none(s: Seq<char>)
    ensures
        trim_end(s).len() > 0 ==> !is_space(trim_end(s).last()),
        trim_end(s).is_prefix_of(s),
    decreases s.len(),
{
    if s.len() > 0 && is_space(s.last()) {
        trim_end_has_none(s.drop_last());
    }
}

proof fn trim_start_has_none(s: Seq<char>)
    ensures
        trim_start(s).len() > 0 ==> !is_space(trim_start(s)[0]),
    decreases s.len(),
{
    if s.len() > 0 && is_space(s[0]) {
        trim_start_has_none(s.skip(1));
    }
}

/// What was trimmed has no white space around it, and is not changed by trimming it
/// again.
pub proof fn trimming_is_idempotent(s: Seq<char>)
    ensures
        trim(s).len() > 0 ==> !is_space(trim(s)[0]) && !is_space(trim(s).last()),
        trim(trim(s)) == trim(s),
{
    let m = trim(s);
    trim_start_has_none(s);
    trim_end_has_none(trim_start(s));
    if m.len() > 0 {
        assert(m[0] == trim_start(s)[0]);
    }
    let none = Seq::<char>::empty();
    trimming_keeps_the_middle(none, m, none);
}

/// A text is parted at each place where it holds the separator, the first one first;
/// one that does not hold it is a single piece.
pub proof fn splitting_at_the_first(a: Seq<char>, p: Seq<char>, b: Seq<char>)
    requires
        p.len() > 0,
    ensures
        first_at(a + p + b, p, a.len() as int) ==> split_str(a + p + b, p) == seq![a] + split_str(
            b,
            p,
        ),
        !contains(a, p) ==> split_str(a, p) == seq![a],
{
    let s = a + p + b;
    if first_at(s, p, a.len() as int) {
        position_is(s, p, a.len() as int);
        assert(s.take(a.len() as int) =~= a);
        assert(s.skip((a.len() + p.len()) as int) =~= b);
    }
}

/// The first of several lines.
pub proof fn first_line_is_first(l: Seq<Seq<char>>)
    requires
        l.len() > 0,
        forall|i: int| 0 <= i < l.len() ==> is_line(#[trigger] l[i]),
    ensures
        lines(written(l)).len() == l.len(),
        lines(written(l))[0] == l[0],
{
    lines_are_read_back(l);
}

/// A character at the end is dropped however often it stands there, and so is one at the
/// beginning; nothing else is.
pub proof fn trimming_drops_one_character(s: Seq<char>, c: char)
    ensures
        trim_end_char(s.push(c), c) == trim_end_char(s, c),
        s.len() > 0 && s.last() != c ==> trim_end_char(s, c) == s,
        trim_start_char(seq![c] + s, c) == trim_start_char(s, c),
        s.len() > 0 && s[0] != c ==> trim_start_char(s, c) == s,
        trim_end_char(Seq::empty(), c).len() == 0,
        trim_start_char(Seq::empty(), c).len() == 0,
{
    assert(s.push(c).drop_last() =~= s);
    assert((seq![c] + s).skip(1) =~= s);
}

/// The pieces that are not empty stay, in their order.
pub proof fn full_pieces_stay(p: Seq<Seq<char>>, x: Seq<char>)
    ensures
        x.len() > 0 ==> nonempty(p.push(x)) == nonempty(p).push(x),
        x.len() == 0 ==> nonempty(p.push(x)) == nonempty(p),
        nonempty(Seq::empty()).len() == 0,
{
    assert(p.push(x).drop_last() =~= p);
}

/// A list is seen text by text, and what may be missing is missing exactly where it is.
pub proof fn lists_are_seen_text_by_text(v: Seq<String>, i: int, s: String)
    ensures
        views(v).len() == v.len(),
        0 <= i < v.len() ==> views(v)[i] == v[i]@,
        opt_view(Some(s)) == Some(s@),
        opt_view(None) is None,
{
}

/// A number below zero is written with a sign before it, and no other is.
pub proof fn signs_are_written(n: nat)
    ensures
        signed_decimal(n as int) == decimal(n),
        n > 0 ==> signed_decimal(-(n as int)) == "-"@ + decimal(n),
{
}

/// One carriage return at the end of a line is no part of it.
pub proof fn returns_end_lines(s: Seq<char>)
    ensures
        strip_cr(s.push('\r')) == s,
        s.len() == 0 || s.last() != '\r' ==> strip_cr(s) == s,
{
    assert(s.push('\r').drop_last() =~= s);
}

}
