//! Finding what is installed outside wax.
//!
//! wax keeps its own records, but software is also installed by hand or by other
//! package managers. What is found of that is matched with the index, so that
//! lockfiles and lists are complete.
use crate::api::{Cask, CaskView, Formula, FormulaView};
use crate::cask::{InstalledCask, InstalledCaskView};
use crate::install::{InstallMode, InstalledPackage, InstalledView};
use crate::outside::{lossy_text, lowercased};
use crate::table::Table;
use crate::text::{
    ascii_alnum, begins, chars_of, ends, has_char, last_place, lines_of, part, pieces, replaced,
    same_str, string_of, trimmed, without_leading, without_trailing, words_of,
};
use crate::ui::dirs;
use crate::{api, outside, table, text};
use vstd::prelude::*;

verus! {

// ---------------------------------------------------------------------------
// Tokens

/// The letters and digits of a text, with one hyphen for each run of other
/// characters that comes after some of them.
pub open spec fn dashed(s: Seq<char>) -> Seq<char>
    decreases s.len(),
{
    if s.len() == 0 {
        Seq::empty()
    } else {
        let before = dashed(s.drop_last());
        if text::is_ascii_alnum(s.last()) {
            before.push(s.last())
        } else if before.len() == 0 || before.last() == '-' {
            before
        } else {
            before.push('-')
        }
    }
}

/// The words of a text with hyphens between them.
pub open spec fn slug(s: Seq<char>) -> Seq<char> {
    text::trim_end_char(text::trim_start_char(dashed(s), '-'), '-')
}

/// A text as it is compared: in lower case, its words with hyphens between them,
/// and without `.app`.
pub open spec fn token_of(value: Seq<char>) -> Seq<char> {
    slug(
        outside::lowercase(
            text::replace(
                text::replace(text::replace(value, ".app"@, ""@), "_"@, "-"@),
                "/"@,
                "-"@,
            ),
        ),
    )
}

/// A text of words with single hyphens between them.
pub open spec fn is_slug(s: Seq<char>) -> bool {
    &&& forall|i: int| 0 <= i < s.len() ==> text::is_ascii_alnum(#[trigger] s[i]) || s[i] == '-'
    &&& s.len() > 0 ==> s[0] != '-' && s.last() != '-'
    &&& forall|i: int| 0 < i < s.len() ==> !(#[trigger] s[i] == '-' && s[i - 1] == '-')
}

spec fn is_half_slug(s: Seq<char>) -> bool {
    &&& forall|i: int| 0 <= i < s.len() ==> text::is_ascii_alnum(#[trigger] s[i]) || s[i] == '-'
    &&& s.len() > 0 ==> s[0] != '-'
    &&& forall|i: int| 0 < i < s.len() ==> !(#[trigger] s[i] == '-' && s[i - 1] == '-')
}

proof fn dashed_is_half_slug(s: Seq<char>)
    ensures
        is_half_slug(dashed(s)),
    decreases s.len(),
{
    if s.len() > 0 {
        dashed_is_half_slug(s.drop_last());
        let before = dashed(s.drop_last());
        let after = dashed(s);
        assert(!text::is_ascii_alnum('-'));
        if after.len() > before.len() {
            assert forall|i: int| 0 < i < after.len() implies !(#[trigger] after[i] == '-' && after[i
                - 1] == '-') by {
                if i < before.len() {
                    assert(after[i] == before[i] && after[i - 1] == before[i - 1]);
                } else {
                    assert(after[i - 1] == before.last());
                }
            }
        }
    }
}

/// What a text is compared as is made of words with single hyphens between them.
pub proof fn slugs_are_slugs(s: Seq<char>)
    ensures
        is_slug(slug(s)),
{
    let d = dashed(s);
    dashed_is_half_slug(s);
    assert(text::trim_start_char(d, '-') == d);
    if d.len() > 0 && d.last() == '-' {
        let e = d.drop_last();
        if e.len() > 0 {
            assert(!(d[d.len() - 1] == '-' && d[d.len() - 2] == '-'));
            assert(e.last() != '-');
        }
        assert(text::trim_end_char(e, '-') == e);
        assert forall|i: int| 0 < i < e.len() implies !(#[trigger] e[i] == '-' && e[i - 1] == '-') by {
            assert(e[i] == d[i] && e[i - 1] == d[i - 1]);
        }
    }
}

proof fn dashing_a_slug(s: Seq<char>)
    requires
        is_half_slug(s),
    ensures
        dashed(s) == s,
    decreases s.len(),
{
    if s.len() > 0 {
        let t = s.drop_last();
        assert forall|i: int| 0 < i < t.len() implies !(#[trigger] t[i] == '-' && t[i - 1] == '-') by {
            assert(t[i] == s[i] && t[i - 1] == s[i - 1]);
        }
        dashing_a_slug(t);
        assert(t.push(s.last()) =~= s);
        if s.last() == '-' {
            assert(s.len() > 1);
            assert(t.last() == s[s.len() - 2]);
            assert(!(s[s.len() - 1] == '-' && s[s.len() - 2] == '-'));
        }
    }
}

/// What a text is compared as is compared as itself.
pub proof fn slugging_is_idempotent(s: Seq<char>)
    ensures
        slug(slug(s)) == slug(s),
{
    slugs_are_slugs(s);
    dashing_a_slug(slug(s));
}

/// Every character of what a text is compared as is one of the text, or a hyphen.
proof fn slug_takes_from(s: Seq<char>, i: int)
    requires
        0 <= i < dashed(s).len(),
    ensures
        dashed(s)[i] == '-' || s.contains(dashed(s)[i]),
    decreases s.len(),
{
    let before = dashed(s.drop_last());
    if i < before.len() {
        slug_takes_from(s.drop_last(), i);
        if dashed(s)[i] != '-' {
            let k = choose|k: int| 0 <= k < s.drop_last().len() && s.drop_last()[k] == before[i];
            assert(s[k] == dashed(s)[i]);
        }
    } else {
        assert(s[s.len() - 1] == s.last());
    }
}

/// A token: small letters and digits, in words with single hyphens between them.
pub open spec fn is_token(s: Seq<char>) -> bool {
    &&& is_slug(s)
    &&& forall|i: int|
        0 <= i < s.len() ==> 'a' <= #[trigger] s[i] <= 'z' || '0' <= s[i] <= '9' || s[i] == '-'
}

proof fn lower_has_no_capital(s: Seq<char>, i: int)
    requires
        0 <= i < text::ascii_lower(s).len(),
    ensures
        !('A' <= text::ascii_lower(s)[i] <= 'Z'),
{
    let c = s[i];
    if 'A' <= c <= 'Z' {
        assert(text::lower_char(c) as u32 == c as u32 + 32);
    }
}

proof fn slug_of_lower_is_token(s: Seq<char>)
    ensures
        is_token(slug(text::ascii_lower(s))),
{
    let l = text::ascii_lower(s);
    let d = dashed(l);
    let r = slug(l);
    slugs_are_slugs(l);
    dashed_is_half_slug(l);
    assert(text::trim_start_char(d, '-') == d);
    assert(r.len() <= d.len() && r =~= d.take(r.len() as int)) by {
        if d.len() > 0 && d.last() == '-' {
            let e = d.drop_last();
            if e.len() > 0 {
                assert(!(d[d.len() - 1] == '-' && d[d.len() - 2] == '-'));
            }
            assert(text::trim_end_char(e, '-') == e);
        }
    }
    assert forall|i: int| 0 <= i < r.len() implies 'a' <= #[trigger] r[i] <= 'z' || '0' <= r[i]
        <= '9' || r[i] == '-' by {
        assert(r[i] == d[i]);
        slug_takes_from(l, i);
        if d[i] != '-' {
            let k = choose|k: int| 0 <= k < l.len() && l[k] == d[i];
            lower_has_no_capital(s, k);
        }
    }
}

/// What a package is compared as is a token: small letters, digits and single hyphens
/// inside, whatever it was called.
pub proof fn tokens_are_tokens(value: Seq<char>)
    ensures
        is_token(token_of(value)),
{
    let t = text::replace(
        text::replace(text::replace(value, ".app"@, ""@), "_"@, "-"@),
        "/"@,
        "-"@,
    );
    slug_of_lower_is_token(t);
    slug_of_lower_is_token(outside::unicode_lowercase(t));
}

/// Replacing what does not occur changes nothing.
proof fn nothing_to_replace(s: Seq<char>, from: Seq<char>, to: Seq<char>)
    requires
        from.len() > 0,
        !s.contains(from[0]),
    ensures
        text::replace(s, from, to) == s,
    decreases s.len(),
{
    if s.len() >= from.len() {
        if text::starts_with(s, from) {
            assert(s.subrange(0, from.len() as int)[0] == s[0]);
        }
        let t = s.skip(1);
        if t.contains(from[0]) {
            let i = choose|i: int| 0 <= i < t.len() && t[i] == from[0];
            assert(s[i + 1] == from[0]);
        }
        nothing_to_replace(t, from, to);
        assert(seq![s[0]] + t =~= s);
    }
}

/// A token is compared as itself.
pub proof fn token_is_its_token(t: Seq<char>)
    requires
        is_token(t),
    ensures
        token_of(t) == t,
{
    reveal_strlit(".app");
    reveal_strlit("_");
    reveal_strlit("/");
    assert(!t.contains('.') && !t.contains('_') && !t.contains('/'));
    nothing_to_replace(t, ".app"@, ""@);
    nothing_to_replace(t, "_"@, "-"@);
    nothing_to_replace(t, "/"@, "-"@);
    assert(vstd::utf8::is_ascii_chars(t));
    assert(text::ascii_lower(t) =~= t);
    dashing_a_slug(t);
    assert(slug(t) == t) by {
        slugging_is_idempotent(t);
    }
}

/// Normalizing twice is normalizing once.
pub proof fn normalizing_is_idempotent(value: Seq<char>)
    ensures
        token_of(token_of(value)) == token_of(value),
{
    tokens_are_tokens(value);
    token_is_its_token(token_of(value));
}

/// The words of a text with hyphens between them.
pub fn slug_of(value: &[char]) -> (r: String)
    ensures
        r@ == slug(value@),
{
    let mut out: Vec<char> = Vec::new();
    proof {
        assert(out@ =~= dashed(value@.take(0)));
    }
    for i in 0..value.len()
        invariant
            out@ == dashed(value@.take(i as int)),
    {
        proof {
            assert(value@.take(i + 1).drop_last() =~= value@.take(i as int));
            assert(value@.take(i + 1).last() == value@[i as int]);
        }
        let c = value[i];
        if ascii_alnum(c) {
            out.push(c);
        } else if out.len() > 0 && out[out.len() - 1] != '-' {
            out.push('-');
        }
    }
    proof {
        assert(value@.take(value@.len() as int) =~= value@);
    }
    string_of(without_trailing(without_leading(out.as_slice(), '-'), '-'))
}

/// A text as it is compared.
pub fn normalize_package_token(value: &str) -> (r: String)
    ensures
        r@ == token_of(value@),
        is_token(r@),
{
    proof {
        tokens_are_tokens(value@);
    }
    let v = chars_of(value);
    let none = chars_of("");
    let dash = chars_of("-");
    let app = chars_of(".app");
    let under = chars_of("_");
    let slash = chars_of("/");
    proof {
        reveal_strlit(".app");
        reveal_strlit("_");
        reveal_strlit("/");
    }
    let a = replaced(v.as_slice(), app.as_slice(), none.as_slice());
    let b = replaced(a.as_slice(), under.as_slice(), dash.as_slice());
    let c = replaced(b.as_slice(), slash.as_slice(), dash.as_slice());
    let low = lowercased(string_of(c.as_slice()).as_str());
    slug_of(chars_of(low.as_str()).as_slice())
}

// ---------------------------------------------------------------------------
// Apps

/// What an app says of itself.
#[derive(Debug, Clone, PartialEq, Eq)]
pub struct AppBundleMetadata {
    pub bundle_name: String,
    pub file_name: String,
    pub bundle_identifier: Option<String>,
    pub short_version: Option<String>,
    pub bundle_version: Option<String>,
}

/// The mathematical content of `AppBundleMetadata`.
pub struct AppView {
    pub bundle_name: Seq<char>,
    pub file_name: Seq<char>,
    pub bundle_identifier: Option<Seq<char>>,
    pub short_version: Option<Seq<char>>,
    pub bundle_version: Option<Seq<char>>,
}

impl View for AppBundleMetadata {
    type V = AppView;

    open spec fn view(&self) -> AppView {
        AppView {
            bundle_name: self.bundle_name@,
            file_name: self.file_name@,
            bundle_identifier: text::opt_view(self.bundle_identifier),
            short_version: text::opt_view(self.short_version),
            bundle_version: text::opt_view(self.bundle_version),
        }
    }
}

/// An `AppBundleMetadata` is seen as what it holds.
pub proof fn app_bundle_metadata_is_seen_as_it_is(x: AppBundleMetadata)
    ensures
        x@.bundle_name == x.bundle_name@,
        x@.file_name == x.file_name@,
        x@.bundle_identifier == text::opt_view(x.bundle_identifier),
        x@.short_version == text::opt_view(x.short_version),
        x@.bundle_version == text::opt_view(x.bundle_version),
{
}

/// The cask that an app was matched with, and the version of the app.
#[derive(Debug, Clone, PartialEq, Eq)]
pub struct CaskMatch {
    pub cask_index: usize,
    pub version: Option<String>,
}

/// The tokens that a cask is found by.
pub open spec fn cask_keys(c: CaskView) -> Seq<Seq<char>> {
    seq![token_of(c.token), token_of(c.full_token)] + Seq::new(
        c.name.len(),
        |i: int| token_of(c.name[i]),
    )
}

/// The casks that are found by a token, in their order.
pub open spec fn found_by(c: Seq<CaskView>, key: Seq<char>) -> Seq<int>
    decreases c.len(),
{
    if c.len() == 0 {
        Seq::empty()
    } else if cask_keys(c.last()).contains(key) {
        found_by(c.drop_last(), key).push(c.len() - 1)
    } else {
        found_by(c.drop_last(), key)
    }
}

pub open spec fn ints(v: Seq<usize>) -> Seq<int> {
    Seq::new(v.len(), |i: int| v[i] as int)
}

/// What an index holds for a token.
pub open spec fn held(m: Map<Seq<char>, Vec<usize>>, key: Seq<char>) -> Seq<int> {
    if m.contains_key(key) {
        ints(m[key]@)
    } else {
        Seq::empty()
    }
}

/// An index holds for each token the casks that are found by it.
pub open spec fn indexes(t: Table<Vec<usize>>, c: Seq<CaskView>) -> bool {
    t.wf() && forall|key: Seq<char>| #[trigger] held(t@, key) == found_by(c, key)
}

/// Casks are found at places in the list.
proof fn found_in_range(c: Seq<CaskView>, key: Seq<char>)
    ensures
        forall|i: int| 0 <= i < found_by(c, key).len() ==> 0 <= #[trigger] found_by(c, key)[i]
            < c.len(),
    decreases c.len(),
{
    if c.len() > 0 {
        found_in_range(c.drop_last(), key);
        let before = found_by(c.drop_last(), key);
        assert forall|i: int| 0 <= i < found_by(c, key).len() implies 0 <= #[trigger] found_by(
            c,
            key,
        )[i] < c.len() by {
            if i < before.len() {
                assert(found_by(c, key)[i] == before[i]);
            }
        }
    }
}

fn cask_tokens(cask: &Cask) -> (r: Vec<String>)
    ensures
        text::views(r@) == cask_keys(cask@),
{
    let mut v: Vec<String> = Vec::new();
    v.push(normalize_package_token(cask.token.as_str()));
    v.push(normalize_package_token(cask.full_token.as_str()));
    for i in 0..cask.name.len()
        invariant
            v@.len() == i + 2,
            v@[0]@ == token_of(cask.token@),
            v@[1]@ == token_of(cask.full_token@),
            forall|j: int| 0 <= j < i ==> (#[trigger] v@[j + 2])@ == token_of(cask.name@[j]@),
    {
        let t = normalize_package_token(cask.name[i].as_str());
        let ghost before = v@;
        v.push(t);
        proof {
            assert forall|j: int| 0 <= j < i + 1 implies (#[trigger] v@[j + 2])@ == token_of(
                cask.name@[j]@,
            ) by {
                if j < i {
                    assert(v@[j + 2] == before[j + 2]);
                }
            }
        }
    }
    proof {
        let want = cask_keys(cask@);
        assert forall|k: int| 0 <= k < want.len() implies text::views(v@)[k] == want[k] by {
            if k >= 2 {
                assert(v@[(k - 2) + 2]@ == token_of(cask.name@[k - 2]@));
            }
        }
        assert(text::views(v@) =~= want);
    }
    v
}

/// The casks under each token that they are found by.
pub fn build_cask_candidate_index(casks: &Vec<Cask>) -> (r: Table<Vec<usize>>)
    ensures
        indexes(r, api::cask_views(casks@)),
{
    let ghost c = api::cask_views(casks@);
    let mut t: Table<Vec<usize>> = Table::new();
    proof {
        assert forall|key: Seq<char>| #[trigger] held(t@, key) == found_by(c.take(0), key) by {
            assert(held(t@, key) =~= Seq::empty());
        }
    }
    for i in 0..casks.len()
        invariant
            c == api::cask_views(casks@),
            t.wf(),
            forall|key: Seq<char>| #[trigger] held(t@, key) == found_by(c.take(i as int), key),
    {
        let keys = cask_tokens(&casks[i]);
        let ghost k = text::views(keys@);
        proof {
            assert(c.take(i + 1).drop_last() =~= c.take(i as int));
            assert(c.take(i + 1).last() == casks@[i as int]@);
            assert(k.take(0) =~= Seq::empty());
        }
        for j in 0..keys.len()
            invariant
                i < casks@.len(),
                c == api::cask_views(casks@),
                t.wf(),
                k == text::views(keys@),
                forall|key: Seq<char>| #[trigger]
                    held(t@, key) == if k.take(j as int).contains(key) {
                        found_by(c.take(i as int), key).push(i as int)
                    } else {
                        found_by(c.take(i as int), key)
                    },
        {
            let ghost before = t@;
            let ghost this = keys@[j as int]@;
            let had = t.remove(keys[j].as_str());
            let mut list: Vec<usize> = match had {
                Some(l) => l,
                None => Vec::new(),
            };
            let ghost old_list = ints(list@);
            proof {
                assert(old_list =~= held(before, this));
                found_in_range(c.take(i as int), this);
            }
            let n: usize = list.len();
            if n == 0 || list[n - 1] != i {
                proof {
                    if k.take(j as int).contains(this) {
                        assert(old_list.last() == i as int);
                        assert(old_list.last() == list@[n - 1] as int);
                    }
                }
                list.push(i);
                proof {
                    assert(ints(list@) =~= old_list.push(i as int));
                }
            } else {
                proof {
                    assert(old_list.last() == list@[n - 1] as int);
                    if !k.take(j as int).contains(this) {
                        let f = found_by(c.take(i as int), this);
                        assert(f[f.len() - 1] < i);
                    }
                }
            }
            t.insert(keys[j].clone(), list);
            proof {
                let k1 = k.take(j + 1);
                let k0 = k.take(j as int);
                assert(k1.drop_last() =~= k0);
                assert(k1[j as int] == this);
                assert forall|key: Seq<char>| #[trigger]
                    held(t@, key) == if k1.contains(key) {
                        found_by(c.take(i as int), key).push(i as int)
                    } else {
                        found_by(c.take(i as int), key)
                    } by {
                    if key == this {
                        assert(k1.contains(key));
                    } else {
                        assert(held(t@, key) == held(before, key));
                        if k1.contains(key) {
                            let x = choose|x: int|
                                0 <= x < k1.len() && k1[x] == key;
                            assert(x < j);
                            assert(k0[x] == key);
                        }
                        if k0.contains(key) {
                            let x = choose|x: int|
                                0 <= x < k0.len() && k0[x] == key;
                            assert(k1[x] == key);
                        }
                    }
                }
            }
        }
        proof {
            assert(k.take(k.len() as int) =~= k);
        }
    }
    proof {
        assert(c.take(c.len() as int) =~= c);
    }
    t
}

/// The text without `.app`, as often as it ends with it.
pub open spec fn without_app(s: Seq<char>) -> Seq<char>
    decreases s.len(),
{
    if text::ends_with(s, ".app"@) && ".app"@.len() > 0 {
        without_app(s.take(s.len() - ".app"@.len()))
    } else {
        s
    }
}

/// The text without `.app`, as often as it ends with it.
pub fn strip_app(value: &str) -> (r: String)
    ensures
        r@ == without_app(value@),
{
    let c = chars_of(value);
    let mut n: usize = c.len();
    proof {
        reveal_strlit(".app");
        assert(c@.take(n as int) =~= c@);
    }
    while ends(part(c.as_slice(), 0, n), ".app")
        invariant
            n <= c@.len(),
            c@ == value@,
            ".app"@.len() == 4,
            without_app(value@) == without_app(value@.take(n as int)),
        decreases n,
    {
        proof {
            assert(c@.subrange(0, n as int) =~= value@.take(n as int));
            assert(value@.take(n as int).take(n - 4) =~= value@.take(n - 4));
        }
        n = n - 4;
    }
    let head = part(c.as_slice(), 0, n);
    proof {
        assert(head@ =~= value@.take(n as int));
    }
    string_of(head)
}

/// The places with those of `more` that are not among them.
pub open spec fn with_places(v: Seq<int>, more: Seq<int>) -> Seq<int>
    decreases more.len(),
{
    if more.len() == 0 {
        v
    } else {
        let before = with_places(v, more.drop_last());
        if before.contains(more.last()) {
            before
        } else {
            before.push(more.last())
        }
    }
}

/// The casks that a name of an app leads to: by the name, and by the name without
/// `.app`.
pub open spec fn led_to(c: Seq<CaskView>, value: Seq<char>) -> Seq<int> {
    let plain = token_of(value);
    let stripped = token_of(without_app(value));
    if stripped == plain {
        found_by(c, plain)
    } else {
        with_places(found_by(c, plain), found_by(c, stripped))
    }
}

fn add_places(v: &mut Vec<usize>, more: &Vec<usize>)
    ensures
        ints(final(v)@) == with_places(ints(old(v)@), ints(more@)),
{
    let ghost start = ints(v@);
    let ghost m = ints(more@);
    for i in 0..more.len()
        invariant
            m == ints(more@),
            ints(v@) == with_places(start, m.take(i as int)),
    {
        let ghost before = ints(v@);
        proof {
            assert(m.take(i + 1).drop_last() =~= m.take(i as int));
            assert(m.take(i + 1).last() == more@[i as int] as int);
        }
        if !has_place(v, more[i]) {
            v.push(more[i]);
            proof {
                assert(ints(v@) =~= before.push(more@[i as int] as int));
            }
        }
    }
    proof {
        assert(m.take(m.len() as int) =~= m);
    }
}

fn has_place(v: &Vec<usize>, x: usize) -> (r: bool)
    ensures
        r == ints(v@).contains(x as int),
{
    for i in 0..v.len()
        invariant
            forall|j: int| 0 <= j < i ==> ints(v@)[j] != x as int,
    {
        proof {
            assert(ints(v@)[i as int] == v@[i as int] as int);
        }
        if v[i] == x {
            return true;
        }
    }
    false
}

fn places_for(index: &Table<Vec<usize>>, key: &str) -> (r: Vec<usize>)
    requires
        index.wf(),
    ensures
        ints(r@) == held(index@, key@),
{
    let mut out: Vec<usize> = Vec::new();
    match index.get(key) {
        Some(l) => {
            for i in 0..l.len()
                invariant
                    out@ == l@.take(i as int),
            {
                out.push(l[i]);
                proof {
                    assert(out@ =~= l@.take(i + 1));
                }
            }
            proof {
                assert(l@.take(l@.len() as int) =~= l@);
            }
        },
        None => {
            proof {
                assert(ints(out@) =~= Seq::empty());
            }
        },
    }
    out
}

/// The casks that a name of an app leads to.
pub fn candidate_indices_for_value(index: &Table<Vec<usize>>, casks: &Vec<Cask>, value: &str) -> (r:
    Vec<usize>)
    requires
        indexes(*index, api::cask_views(casks@)),
    ensures
        ints(r@) == led_to(api::cask_views(casks@), value@),
{
    let ghost c = api::cask_views(casks@);
    let plain = normalize_package_token(value);
    let mut out = places_for(index, plain.as_str());
    proof {
        assert(held(index@, plain@) == found_by(c, plain@));
    }
    let stripped = normalize_package_token(strip_app(value).as_str());
    if !same_str(stripped.as_str(), plain.as_str()) {
        let more = places_for(index, stripped.as_str());
        proof {
            assert(held(index@, stripped@) == found_by(c, stripped@));
        }
        add_places(&mut out, &more);
    }
    out
}

/// The casks that an app may be: those that its name leads to, then those that the
/// name of its file leads to.
pub open spec fn candidates_of(c: Seq<CaskView>, app: AppView) -> Seq<int> {
    with_places(led_to(c, app.bundle_name), led_to(c, app.file_name))
}

// ---------------------------------------------------------------------------
// Which cask

/// A version with its build, where the cask's version has it so.
pub open spec fn combined(short: Seq<char>, build: Seq<char>, cask: Seq<char>) -> Option<Seq<char>> {
    let both = short + ","@ + build;
    if !cask.contains(',') || build.len() == 0 || short.len() == 0 {
        None
    } else if cask == both || text::starts_with(cask, both + ","@) {
        Some(both)
    } else {
        None
    }
}

pub fn combine_bundle_version_for_cask(short_version: &str, bundle_version: &str, cask_version: &str) -> (r:
    Option<String>)
    ensures
        text::opt_view(r) == combined(short_version@, bundle_version@, cask_version@),
{
    let c = chars_of(cask_version);
    if !has_char(c.as_slice(), ',') || bundle_version.is_empty() || short_version.is_empty() {
        return None;
    }
    let mut both = String::from_str(short_version);
    both.append(",");
    both.append(bundle_version);
    let mut longer = both.clone();
    longer.append(",");
    if same_str(cask_version, both.as_str()) || begins(c.as_slice(), longer.as_str()) {
        Some(both)
    } else {
        None
    }
}

/// The version of an app, as its cask would write it.
pub open spec fn app_version(app: AppView, cask_version: Seq<char>) -> Option<Seq<char>> {
    let both = match (app.short_version, app.bundle_version) {
        (Some(s), Some(b)) => combined(s, b, cask_version),
        _ => None,
    };
    if both is Some {
        both
    } else if app.short_version is Some {
        app.short_version
    } else {
        app.bundle_version
    }
}

fn app_version_for_cask(app: &AppBundleMetadata, cask: &Cask) -> (r: Option<String>)
    ensures
        text::opt_view(r) == app_version(app@, cask@.version),
{
    match (&app.short_version, &app.bundle_version) {
        (Some(s), Some(b)) => match combine_bundle_version_for_cask(
            s.as_str(),
            b.as_str(),
            cask.version.as_str(),
        ) {
            Some(v) => {
                return Some(v);
            },
            None => {},
        },
        _ => {},
    }
    match &app.short_version {
        Some(s) => Some(s.clone()),
        None => app.bundle_version.clone(),
    }
}

/// An app has the version of a cask.
pub open spec fn same_version(app: AppView, cask_version: Seq<char>) -> bool {
    app.short_version == Some(cask_version) || app.bundle_version == Some(cask_version) || (match (
        app.short_version,
        app.bundle_version,
    ) {
        (Some(s), Some(b)) => combined(s, b, cask_version) is Some,
        _ => false,
    })
}

fn cask_version_matches_app(app: &AppBundleMetadata, cask: &Cask) -> (r: bool)
    ensures
        r == same_version(app@, cask@.version),
{
    match &app.short_version {
        Some(s) => {
            if same_str(s.as_str(), cask.version.as_str()) {
                return true;
            }
        },
        None => {},
    }
    match &app.bundle_version {
        Some(b) => {
            if same_str(b.as_str(), cask.version.as_str()) {
                return true;
            }
        },
        None => {},
    }
    match (&app.short_version, &app.bundle_version) {
        (Some(s), Some(b)) => combine_bundle_version_for_cask(
            s.as_str(),
            b.as_str(),
            cask.version.as_str(),
        ).is_some(),
        _ => false,
    }
}

/// The parts of an identifier: its runs of letters and digits, in lower case; a
/// part can be empty.
pub open spec fn id_parts(s: Seq<char>) -> Seq<Seq<char>>
    decreases s.len(),
{
    if s.len() == 0 {
        seq![Seq::empty()]
    } else {
        let before = id_parts(s.drop_last());
        if text::is_ascii_alnum(s.last()) {
            before.drop_last().push(before.last().push(text::lower_char(s.last())))
        } else {
            before.push(Seq::empty())
        }
    }
}

/// Parts of identifiers that tell nothing of the vendor.
pub open spec fn is_common(p: Seq<char>) -> bool {
    p == "app"@ || p == "co"@ || p == "com"@ || p == "io"@ || p == "net"@ || p == "org"@
}

/// The first part that tells something.
pub open spec fn first_telling(parts: Seq<Seq<char>>) -> Option<Seq<char>>
    decreases parts.len(),
{
    if parts.len() == 0 {
        None
    } else if parts[0].len() > 0 && !is_common(parts[0]) {
        Some(parts[0])
    } else {
        first_telling(parts.skip(1))
    }
}

fn parts_of_id(id: &[char]) -> (r: Vec<String>)
    ensures
        text::views(r@) == id_parts(id@),
{
    let mut done: Vec<String> = Vec::new();
    let mut open_part = String::new();
    proof {
        assert(text::views(done@).push(open_part@) =~= id_parts(id@.take(0)));
    }
    for i in 0..id.len()
        invariant
            text::views(done@).push(open_part@) == id_parts(id@.take(i as int)),
    {
        let ghost before = text::views(done@);
        let ghost this = open_part@;
        proof {
            assert(id@.take(i + 1).drop_last() =~= id@.take(i as int));
            assert(id@.take(i + 1).last() == id@[i as int]);
            assert(before.push(this).drop_last() =~= before);
        }
        let c = id[i];
        if ascii_alnum(c) {
            open_part.push(text::lowered_char(c));
            proof {
                assert(text::views(done@).push(open_part@) =~= id_parts(id@.take(i + 1)));
            }
        } else {
            done.push(open_part);
            open_part = String::new();
            proof {
                assert(text::views(done@) =~= before.push(this));
                assert(open_part@ =~= Seq::empty());
                assert(text::views(done@).push(open_part@) =~= id_parts(id@.take(i + 1)));
            }
        }
    }
    let ghost before = text::views(done@);
    let ghost this = open_part@;
    done.push(open_part);
    proof {
        assert(text::views(done@) =~= before.push(this));
        assert(id@.take(id@.len() as int) =~= id@);
    }
    done
}

/// The vendor that a bundle's identifier names.
pub fn bundle_identifier_vendor(identifier: Option<&str>) -> (r: Option<String>)
    ensures
        text::opt_view(r) == match dirs::str_view(identifier) {
            Some(id) => first_telling(id_parts(id)),
            None => None,
        },
{
    match identifier {
        None => None,
        Some(id) => {
            let c = chars_of(id);
            let parts = parts_of_id(c.as_slice());
            let ghost p = text::views(parts@);
            proof {
                assert(p.skip(0) =~= p);
            }
            for i in 0..parts.len()
                invariant
                    p == text::views(parts@),
                    p == id_parts(id@),
                    identifier == Some(id),
                    first_telling(p) == first_telling(p.skip(i as int)),
            {
                proof {
                    assert(p.skip(i as int)[0] == parts@[i as int]@);
                    assert(p.skip(i as int).skip(1) =~= p.skip(i + 1));
                }
                let x = parts[i].as_str();
                if !x.is_empty() && !same_str(x, "app") && !same_str(x, "co") && !same_str(x, "com")
                    && !same_str(x, "io") && !same_str(x, "net") && !same_str(x, "org") {
                    return Some(parts[i].clone());
                }
            }
            None
        },
    }
}

/// A word of a token.
pub open spec fn has_word(token: Seq<char>, word: Seq<char>) -> bool {
    text::split(token, '-').contains(word)
}

fn word_in(token: &str, word: &str) -> (r: bool)
    ensures
        r == has_word(token@, word@),
{
    let c = chars_of(token);
    let p = pieces(c.as_slice(), '-');
    let ghost s = text::slices(p@);
    for i in 0..p.len()
        invariant
            s == text::slices(p@),
            s == text::split(token@, '-'),
            forall|j: int| 0 <= j < i ==> s[j] != word@,
    {
        proof {
            assert(s[i as int] == p@[i as int]@);
        }
        if text::is(p[i], word) {
            return true;
        }
    }
    false
}

/// A vendor is named in a cask's token, its full token or its homepage.
pub open spec fn names_vendor(c: CaskView, identifier: Option<Seq<char>>) -> bool {
    match identifier {
        Some(id) => match first_telling(id_parts(id)) {
            Some(v) => has_word(token_of(c.token), v) || has_word(token_of(c.full_token), v)
                || has_word(token_of(c.homepage), v),
            None => false,
        },
        None => false,
    }
}

pub fn bundle_identifier_matches_cask(identifier: Option<&str>, cask: &Cask) -> (r: bool)
    ensures
        r == names_vendor(cask@, dirs::str_view(identifier)),
{
    match bundle_identifier_vendor(identifier) {
        Some(v) => {
            let token = normalize_package_token(cask.token.as_str());
            let full = normalize_package_token(cask.full_token.as_str());
            let home = normalize_package_token(cask.homepage.as_str());
            word_in(token.as_str(), v.as_str()) || word_in(full.as_str(), v.as_str()) || word_in(
                home.as_str(),
                v.as_str(),
            )
        },
        None => false,
    }
}

/// How well a cask fits an app.
pub open spec fn score_of(app: AppView, c: CaskView) -> int {
    (if same_version(app, c.version) {
        100int
    } else {
        0int
    }) + (if names_vendor(c, app.bundle_identifier) {
        60int
    } else {
        0int
    })
}

pub fn cask_match_score(app: &AppBundleMetadata, cask: &Cask) -> (r: i32)
    ensures
        r == score_of(app@, cask@),
{
    let mut score: i32 = 0;
    if cask_version_matches_app(app, cask) {
        score = score + 100;
    }
    let id = match &app.bundle_identifier {
        Some(s) => Some(s.as_str()),
        None => None,
    };
    if bundle_identifier_matches_cask(id, cask) {
        score = score + 60;
    }
    score
}

/// The score at `p` is at least 50 and above all others.
pub open spec fn leads(scores: Seq<int>, p: int) -> bool {
    &&& 0 <= p < scores.len()
    &&& scores[p] >= 50
    &&& forall|q: int| 0 <= q < scores.len() && q != p ==> #[trigger] scores[q] < scores[p]
}

pub open spec fn scores_of(app: AppView, c: Seq<CaskView>, places: Seq<int>) -> Seq<int> {
    Seq::new(places.len(), |i: int| score_of(app, c[places[i]]))
}

/// The cask that an app is: the only candidate, or the one that fits better than
/// all others and well enough.
pub open spec fn is_match(app: AppView, c: Seq<CaskView>, k: int) -> bool {
    let places = candidates_of(c, app);
    if places.len() == 1 {
        k == places[0]
    } else {
        exists|p: int| #[trigger] leads(scores_of(app, c, places), p) && places[p] == k
    }
}

proof fn places_in_range(c: Seq<CaskView>, a: Seq<int>, b: Seq<int>)
    requires
        forall|i: int| 0 <= i < a.len() ==> 0 <= #[trigger] a[i] < c.len(),
        forall|i: int| 0 <= i < b.len() ==> 0 <= #[trigger] b[i] < c.len(),
    ensures
        forall|i: int| 0 <= i < with_places(a, b).len() ==> 0 <= #[trigger] with_places(a, b)[i]
            < c.len(),
    decreases b.len(),
{
    if b.len() > 0 {
        places_in_range(c, a, b.drop_last());
        let before = with_places(a, b.drop_last());
        assert forall|i: int| 0 <= i < with_places(a, b).len() implies 0 <= #[trigger] with_places(
            a,
            b,
        )[i] < c.len() by {
            if i < before.len() {
                assert(with_places(a, b)[i] == before[i]);
            } else {
                assert(b[b.len() - 1] < c.len());
            }
        }
    }
}

proof fn led_in_range(c: Seq<CaskView>, value: Seq<char>)
    ensures
        forall|i: int| 0 <= i < led_to(c, value).len() ==> 0 <= #[trigger] led_to(c, value)[i]
            < c.len(),
{
    let plain = token_of(value);
    let stripped = token_of(without_app(value));
    found_in_range(c, plain);
    found_in_range(c, stripped);
    places_in_range(c, found_by(c, plain), found_by(c, stripped));
}

/// The cask that an app is, if that can be told.
pub fn resolve_cask_match(casks: &Vec<Cask>, index: &Table<Vec<usize>>, app: &AppBundleMetadata) -> (r:
    Option<CaskMatch>)
    requires
        indexes(*index, api::cask_views(casks@)),
    ensures
        match r {
            Some(m) => m.cask_index < casks@.len() && is_match(
                app@,
                api::cask_views(casks@),
                m.cask_index as int,
            ) && text::opt_view(m.version) == app_version(
                app@,
                casks@[m.cask_index as int]@.version,
            ),
            None => forall|k: int| !#[trigger] is_match(app@, api::cask_views(casks@), k),
        },
{
    let ghost c = api::cask_views(casks@);
    let mut places = candidate_indices_for_value(index, casks, app.bundle_name.as_str());
    let more = candidate_indices_for_value(index, casks, app.file_name.as_str());
    add_places(&mut places, &more);
    let ghost p = ints(places@);
    let ghost s = scores_of(app@, c, p);
    proof {
        led_in_range(c, app@.bundle_name);
        led_in_range(c, app@.file_name);
        places_in_range(c, led_to(c, app@.bundle_name), led_to(c, app@.file_name));
        assert(p == candidates_of(c, app@));
        assert forall|i: int| 0 <= i < places@.len() implies (#[trigger] places@[i]) < casks@.len() by {
            assert(p[i] == places@[i] as int);
        }
    }
    let n: usize = places.len();
    if n == 0 {
        return None;
    }
    if n == 1 {
        let k: usize = places[0];
        proof {
            assert(p[0] == k as int);
        }
        return Some(CaskMatch { cask_index: k, version: app_version_for_cask(app, &casks[k]) });
    }
    let mut best: usize = 0;
    let mut best_score: i32 = cask_match_score(app, &casks[places[0]]);
    let mut tied = false;
    for i in 1..n
        invariant
            n == places@.len(),
            n > 1,
            c == api::cask_views(casks@),
            p == ints(places@),
            s == scores_of(app@, c, p),
            forall|i: int| 0 <= i < places@.len() ==> (#[trigger] places@[i]) < casks@.len(),
            best < i,
            best_score == s[best as int],
            forall|q: int| 0 <= q < i ==> #[trigger] s[q] <= best_score,
            tied == exists|q: int| 0 <= q < i && q != best && #[trigger] s[q] == best_score,
    {
        let score: i32 = cask_match_score(app, &casks[places[i]]);
        proof {
            assert(s[i as int] == score);
        }
        let ghost was = best;
        let ghost was_tied = tied;
        if score > best_score {
            best = i;
            best_score = score;
            tied = false;
        } else if score == best_score {
            tied = true;
        }
        proof {
            if score <= s[was as int] && was_tied {
                let q = choose|q: int| 0 <= q < i && q != was && #[trigger] s[q] == s[was as int];
                assert(0 <= q < i + 1 && q != best && s[q] == best_score);
            }
        }
    }
    if best_score >= 50 && !tied {
        let k: usize = places[best];
        proof {
            assert(leads(s, best as int));
            assert(p[best as int] == k as int);
        }
        Some(CaskMatch { cask_index: k, version: app_version_for_cask(app, &casks[k]) })
    } else {
        proof {
            assert forall|k: int| !#[trigger] is_match(app@, c, k) by {
                if is_match(app@, c, k) {
                    let x = choose|x: int| #[trigger] leads(s, x) && p[x] == k;
                    assert(s[best as int] <= best_score);
                    if x != best {
                        assert(s[best as int] < s[x]);
                        assert(s[x] <= best_score);
                    } else {
                        let q = choose|q: int| 0 <= q < n && q != best && #[trigger] s[q] == best_score;
                        if tied {
                            assert(s[q] < s[x]);
                        }
                    }
                }
            }
        }
        None
    }
}

/// An app is matched with one cask at most.
pub proof fn match_is_unique(app: AppView, c: Seq<CaskView>, a: int, b: int)
    requires
        is_match(app, c, a),
        is_match(app, c, b),
    ensures
        a == b,
{
    let places = candidates_of(c, app);
    if places.len() != 1 {
        let s = scores_of(app, c, places);
        let p = choose|p: int| #[trigger] leads(s, p) && places[p] == a;
        let q = choose|q: int| #[trigger] leads(s, q) && places[q] == b;
        if p != q {
            assert(s[p] < s[q]);
            assert(s[q] < s[p]);
        }
    }
}

// ---------------------------------------------------------------------------
// What is found on macOS

/// An entry of a directory for applications, with what it says of itself if it is
/// an app.
pub struct AppEntry {
    pub file_name: String,
    /// A directory, or a link.
    pub is_dir: bool,
    pub app: AppBundleMetadata,
    /// When it was last changed or, where that is not known, now.
    pub date: i64,
}

/// The mathematical content of an `AppEntry`.
pub struct AppEntryView {
    pub file_name: Seq<char>,
    pub is_dir: bool,
    pub app: AppView,
    pub date: int,
}

impl View for AppEntry {
    type V = AppEntryView;

    open spec fn view(&self) -> AppEntryView {
        AppEntryView {
            file_name: self.file_name@,
            is_dir: self.is_dir,
            app: self.app@,
            date: self.date as int,
        }
    }
}

/// An `AppEntry` is seen as what it holds.
pub proof fn app_entry_is_seen_as_it_is(x: AppEntry)
    ensures
        x@.file_name == x.file_name@,
        x@.is_dir == x.is_dir,
        x@.app == x.app@,
        x@.date == x.date as int,
{
}

pub open spec fn app_entries(v: Seq<AppEntry>) -> Seq<AppEntryView> {
    Seq::new(v.len(), |i: int| v[i]@)
}

/// An entry that is looked at: an app that is not hidden.
pub open spec fn is_app(e: AppEntryView) -> bool {
    e.is_dir && text::ends_with(e.file_name, ".app"@) && !text::starts_with(e.file_name, "."@)
}

/// What is recorded of an app that is a cask.
pub open spec fn app_record(e: AppEntryView, c: CaskView) -> InstalledCaskView {
    InstalledCaskView {
        name: c.token,
        version: match app_version(e.app, c.version) {
            Some(v) => v,
            None => "unknown"@,
        },
        install_date: e.date,
        artifact_type: Some("app"@),
        binary_paths: None,
        app_name: Some(e.app.bundle_name),
    }
}

/// The cask that an app is, if that can be told.
pub open spec fn match_of(app: AppView, c: Seq<CaskView>) -> Option<int> {
    if exists|k: int| #[trigger] is_match(app, c, k) {
        Some(choose|k: int| #[trigger] is_match(app, c, k))
    } else {
        None
    }
}

/// The casks that the entries are, by their tokens; the first of a token counts.
pub open spec fn discovered(e: Seq<AppEntryView>, c: Seq<CaskView>) -> Map<
    Seq<char>,
    InstalledCaskView,
>
    decreases e.len(),
{
    if e.len() == 0 {
        Map::empty()
    } else {
        let before = discovered(e.drop_last(), c);
        if !is_app(e.last()) {
            before
        } else {
            match match_of(e.last().app, c) {
                Some(k) => if before.contains_key(c[k].token) {
                    before
                } else {
                    before.insert(c[k].token, app_record(e.last(), c[k]))
                },
                None => before,
            }
        }
    }
}

/// The directories that apps are looked for in.
pub fn macos_application_roots(home: Option<&str>) -> (r: Vec<String>)
    ensures
        text::views(r@) == match dirs::str_view(home) {
            Some(h) => seq!["/Applications"@, crate::paths::path_join(h, "Applications"@)],
            None => seq!["/Applications"@],
        },
{
    let mut v: Vec<String> = Vec::new();
    v.push(String::from_str("/Applications"));
    match home {
        Some(h) => {
            v.push(crate::paths::below(h, "Applications"));
            proof {
                assert(text::views(v@) =~= seq![
                    "/Applications"@,
                    crate::paths::path_join(h@, "Applications"@),
                ]);
            }
        },
        None => {
            proof {
                assert(text::views(v@) =~= seq!["/Applications"@]);
            }
        },
    }
    v
}

/// The casks that apps are, which were installed by hand. Only macOS has such apps.
pub fn discover_manually_installed_casks(os: &str, casks: &Vec<Cask>, entries: &Vec<AppEntry>) -> (r:
    Table<InstalledCask>)
    ensures
        r.wf(),
        table::contents(r) == if os@ == "macos"@ {
            discovered(app_entries(entries@), api::cask_views(casks@))
        } else {
            Map::empty()
        },
{
    let mut out: Table<InstalledCask> = Table::new();
    if !same_str(os, "macos") {
        proof {
            assert(table::contents(out) =~= Map::empty());
        }
        return out;
    }
    let index = build_cask_candidate_index(casks);
    let ghost c = api::cask_views(casks@);
    let ghost e = app_entries(entries@);
    proof {
        assert(table::contents(out) =~= discovered(e.take(0), c));
    }
    for i in 0..entries.len()
        invariant
            indexes(index, c),
            c == api::cask_views(casks@),
            e == app_entries(entries@),
            out.wf(),
            table::contents(out) == discovered(e.take(i as int), c),
    {
        let ghost before = table::contents(out);
        let x = &entries[i];
        proof {
            assert(e.take(i + 1).drop_last() =~= e.take(i as int));
            assert(e.take(i + 1).last() == x@);
        }
        let name = chars_of(x.file_name.as_str());
        if x.is_dir && ends(name.as_slice(), ".app") && !begins(name.as_slice(), ".") {
            match resolve_cask_match(casks, &index, &x.app) {
                Some(m) => {
                    proof {
                        let k = choose|k: int| #[trigger] is_match(x.app@, c, k);
                        match_is_unique(x.app@, c, k, m.cask_index as int);
                    }
                    let cask = &casks[m.cask_index];
                    let version = match m.version {
                        Some(v) => v,
                        None => String::from_str("unknown"),
                    };
                    let record = InstalledCask {
                        name: cask.token.clone(),
                        version,
                        install_date: x.date,
                        artifact_type: Some(String::from_str("app")),
                        binary_paths: None,
                        app_name: Some(x.app.bundle_name.clone()),
                    };
                    let ghost shown = record@;
                    proof {
                        assert(shown == app_record(x@, cask@));
                    }
                    out.or_insert(cask.token.clone(), record);
                    proof {
                        if !before.contains_key(cask.token@) {
                            assert(table::contents(out) =~= before.insert(cask.token@, shown));
                        }
                    }
                },
                None => {},
            }
        }
    }
    proof {
        assert(e.take(e.len() as int) =~= e);
    }
    out
}

/// A value of an app's property list, as the tool that extracts it prints it.
pub open spec fn plist_value(shown: Seq<char>) -> Option<Seq<char>> {
    if text::trim(shown).len() == 0 {
        None
    } else {
        Some(text::trim(shown))
    }
}

/// A value of an app's property list; none where it could not be extracted, or
/// where there are no such lists.
pub fn read_info_plist_string(os: &str, stdout: Option<&[u8]>) -> (r: Option<String>)
    ensures
        text::opt_view(r) == if os@ != "macos"@ {
            None
        } else {
            match stdout {
                Some(b) => plist_value(outside::lossy(b@)),
                None => None,
            }
        },
{
    if !same_str(os, "macos") {
        return None;
    }
    match stdout {
        Some(b) => plist_text(lossy_text(b).as_str()),
        None => None,
    }
}

pub fn plist_text(shown: &str) -> (r: Option<String>)
    ensures
        text::opt_view(r) == plist_value(shown@),
{
    let c = chars_of(shown);
    let t = trimmed(c.as_slice());
    if t.len() == 0 {
        None
    } else {
        Some(string_of(t))
    }
}

/// The name of a file without its last extension. A dot at its start begins none.
pub open spec fn stem(name: Seq<char>) -> Seq<char> {
    match text::last_index(name, '.') {
        Some(i) => if i == 0 || name == ".."@ {
            name
        } else {
            name.take(i)
        },
        None => name,
    }
}

/// The name of a file without its last extension.
pub fn stem_of(name: &str) -> (r: String)
    ensures
        r@ == stem(name@),
{
    let c = chars_of(name);
    match last_place(c.as_slice(), '.') {
        Some(i) => if i == 0 || same_str(name, "..") {
            String::from_str(name)
        } else {
            let head = part(c.as_slice(), 0, i);
            proof {
                assert(head@ =~= name@.take(i as int));
            }
            string_of(head)
        },
        None => String::from_str(name),
    }
}

/// The name of an app: the one it is shown by, or else its own, or else that of
/// its file without the extension.
pub fn read_app_bundle_name(display: Option<String>, name: Option<String>, file_name: &str) -> (r: String)
    ensures
        r@ == match text::opt_view(display) {
            Some(d) => d,
            None => match text::opt_view(name) {
                Some(n) => n,
                None => stem(file_name@),
            },
        },
{
    match display {
        Some(d) => d,
        None => match name {
            Some(n) => n,
            None => stem_of(file_name),
        },
    }
}

/// The version of an app: the short one, or else that of its bundle.
pub fn read_app_bundle_version(short: Option<String>, bundle: Option<String>) -> (r: Option<String>)
    ensures
        text::opt_view(r) == match text::opt_view(short) {
            Some(s) => Some(s),
            None => text::opt_view(bundle),
        },
{
    match short {
        Some(s) => Some(s),
        None => bundle,
    }
}

// ---------------------------------------------------------------------------
// What is found on Linux

/// The formulae under the tokens of their names; the first of a token counts.
pub open spec fn token_index(f: Seq<FormulaView>) -> Map<Seq<char>, Seq<char>>
    decreases f.len(),
{
    if f.len() == 0 {
        Map::empty()
    } else {
        let before = token_index(f.drop_last());
        let a = token_of(f.last().name);
        let b = token_of(f.last().full_name);
        let one = if before.contains_key(a) {
            before
        } else {
            before.insert(a, f.last().name)
        };
        if one.contains_key(b) {
            one
        } else {
            one.insert(b, f.last().name)
        }
    }
}

/// The formulae under the tokens of their names.
pub fn build_formula_token_index(formulae: &Vec<Formula>) -> (r: Table<String>)
    ensures
        r.wf(),
        table::contents(r) == token_index(api::formula_views(formulae@)),
{
    let ghost f = api::formula_views(formulae@);
    let mut t: Table<String> = Table::new();
    proof {
        assert(table::contents(t) =~= token_index(f.take(0)));
    }
    for i in 0..formulae.len()
        invariant
            f == api::formula_views(formulae@),
            t.wf(),
            table::contents(t) == token_index(f.take(i as int)),
    {
        let x = &formulae[i];
        let ghost before = table::contents(t);
        proof {
            assert(f.take(i + 1).drop_last() =~= f.take(i as int));
            assert(f.take(i + 1).last() == x@);
        }
        let a = normalize_package_token(x.name.as_str());
        let b = normalize_package_token(x.full_name.as_str());
        t.or_insert(a, x.name.clone());
        let ghost one = table::contents(t);
        proof {
            if !before.contains_key(a@) {
                assert(one =~= before.insert(a@, x.name@));
            }
        }
        t.or_insert(b, x.name.clone());
        proof {
            if !one.contains_key(b@) {
                assert(table::contents(t) =~= one.insert(b@, x.name@));
            }
        }
    }
    proof {
        assert(f.take(f.len() as int) =~= f);
    }
    t
}

/// The formulae that packages of the system are, with the versions of those.
pub open spec fn found_packages(
    inventory: Seq<(Seq<char>, Seq<char>)>,
    index: Map<Seq<char>, Seq<char>>,
    platform: Seq<char>,
    now: int,
) -> Map<Seq<char>, InstalledView>
    decreases inventory.len(),
{
    if inventory.len() == 0 {
        Map::empty()
    } else {
        let before = found_packages(inventory.drop_last(), index, platform, now);
        let (name, version) = inventory.last();
        let token = token_of(name);
        if !index.contains_key(token) || before.contains_key(index[token]) {
            before
        } else {
            before.insert(
                index[token],
                InstalledView {
                    name: index[token],
                    version,
                    platform,
                    install_date: now,
                    install_mode: InstallMode::Global,
                    from_source: false,
                    bottle_rebuild: 0,
                    bottle_sha256: None,
                    pinned: false,
                },
            )
        }
    }
}

/// The formulae that packages of the system are, on Linux.
pub fn discover_linux_system_packages(
    os: &str,
    formulae: &Vec<Formula>,
    inventory: &Vec<(String, String)>,
    platform: &str,
    now: i64,
) -> (r: Table<InstalledPackage>)
    ensures
        r.wf(),
        table::contents(r) == if os@ == "linux"@ {
            found_packages(
                outside::pair_views(inventory@),
                token_index(api::formula_views(formulae@)),
                platform@,
                now as int,
            )
        } else {
            Map::empty()
        },
{
    let mut out: Table<InstalledPackage> = Table::new();
    if !same_str(os, "linux") {
        proof {
            assert(table::contents(out) =~= Map::empty());
        }
        return out;
    }
    let index = build_formula_token_index(formulae);
    let ghost m = table::contents(index);
    let ghost v = outside::pair_views(inventory@);
    proof {
        assert(table::contents(out) =~= found_packages(v.take(0), m, platform@, now as int));
    }
    for i in 0..inventory.len()
        invariant
            index.wf(),
            m == table::contents(index),
            v == outside::pair_views(inventory@),
            out.wf(),
            table::contents(out) == found_packages(v.take(i as int), m, platform@, now as int),
    {
        let ghost before = table::contents(out);
        proof {
            assert(v.take(i + 1).drop_last() =~= v.take(i as int));
            assert(v.take(i + 1).last() == (inventory@[i as int].0@, inventory@[i as int].1@));
        }
        let token = normalize_package_token(inventory[i].0.as_str());
        match index.get(token.as_str()) {
            Some(name) => {
                proof {
                    assert(m.contains_key(token@) && m[token@] == name@);
                }
                let record = InstalledPackage {
                    name: name.clone(),
                    version: inventory[i].1.clone(),
                    platform: String::from_str(platform),
                    install_date: now,
                    install_mode: InstallMode::Global,
                    from_source: false,
                    bottle_rebuild: 0,
                    bottle_sha256: None,
                    pinned: false,
                };
                let ghost shown = record@;
                out.or_insert(name.clone(), record);
                proof {
                    if !before.contains_key(name@) {
                        assert(table::contents(out) =~= before.insert(name@, shown));
                    }
                }
            },
            None => {
                proof {
                    assert(!m.contains_key(token@));
                }
            },
        }
    }
    proof {
        assert(v.take(v.len() as int) =~= v);
    }
    out
}

// ---------------------------------------------------------------------------
// Inventories

/// What comes before the first colon.
pub open spec fn before_colon(name: Seq<char>, strip: bool) -> Seq<char> {
    if strip {
        text::split(name, ':')[0]
    } else {
        name
    }
}

fn without_arch(name: &[char], strip: bool) -> (r: &[char])
    ensures
        r@ == before_colon(name@, strip),
{
    if strip {
        let p = pieces(name, ':');
        proof {
            assert(text::slices(p@)[0] == p@[0]@);
        }
        p[0]
    } else {
        name
    }
}

/// A name and a version, neither of them empty.
pub open spec fn both(name: Seq<char>, version: Seq<char>) -> Option<(Seq<char>, Seq<char>)> {
    if name.len() == 0 || version.len() == 0 {
        None
    } else {
        Some((name, version))
    }
}

/// A line of a name, a tab and a version.
pub open spec fn tab_entry(line: Seq<char>, strip: bool) -> Option<(Seq<char>, Seq<char>)> {
    if line.contains('\t') {
        let i = text::position(line, "\t"@);
        both(text::trim(before_colon(line.take(i), strip)), text::trim(line.skip(i + 1)))
    } else {
        None
    }
}

/// A line of a name and a version with blanks between them.
pub open spec fn space_entry(line: Seq<char>, strip: bool) -> Option<(Seq<char>, Seq<char>)> {
    let w = text::words(line);
    if w.len() < 2 {
        None
    } else {
        both(before_colon(w[0], strip), w[1])
    }
}

/// The longest name that a line begins with, a hyphen following.
pub open spec fn longest(names: Seq<Seq<char>>, line: Seq<char>) -> Option<Seq<char>>
    decreases names.len(),
{
    if names.len() == 0 {
        None
    } else {
        let before = longest(names.drop_last(), line);
        let name = names.last();
        if !text::starts_with(line, name + "-"@) {
            before
        } else {
            match before {
                Some(b) => if b.len() >= name.len() {
                    before
                } else {
                    Some(name)
                },
                None => Some(name),
            }
        }
    }
}

/// A line of a known name, a hyphen and a version.
pub open spec fn apk_entry(line: Seq<char>, names: Seq<Seq<char>>) -> Option<(Seq<char>, Seq<char>)> {
    let l = text::trim(line);
    match longest(names, l) {
        Some(name) => {
            let w = text::words(l.skip(name.len() as int + 1));
            if w.len() == 0 {
                None
            } else {
                both_or_version(name, text::trim(w[0]))
            }
        },
        None => None,
    }
}

/// A name with a version that is not empty.
pub open spec fn both_or_version(name: Seq<char>, version: Seq<char>) -> Option<
    (Seq<char>, Seq<char>),
> {
    if version.len() == 0 {
        None
    } else {
        Some((name, version))
    }
}

/// How the lines of an inventory are written.
#[derive(Debug, Clone, Copy, PartialEq, Eq, Structural)]
pub enum Layout {
    Tab,
    Space,
}

pub open spec fn entry_in(layout: Layout, line: Seq<char>, strip: bool) -> Option<
    (Seq<char>, Seq<char>),
> {
    match layout {
        Layout::Tab => tab_entry(line, strip),
        Layout::Space => space_entry(line, strip),
    }
}

/// The packages that the lines of an inventory name.
pub open spec fn entries_in(layout: Layout, l: Seq<Seq<char>>, strip: bool) -> Seq<
    (Seq<char>, Seq<char>),
>
    decreases l.len(),
{
    if l.len() == 0 {
        Seq::empty()
    } else {
        match entry_in(layout, l.last(), strip) {
            Some(e) => entries_in(layout, l.drop_last(), strip).push(e),
            None => entries_in(layout, l.drop_last(), strip),
        }
    }
}

pub open spec fn pair_view(p: Option<(String, String)>) -> Option<(Seq<char>, Seq<char>)> {
    match p {
        Some((a, b)) => Some((a@, b@)),
        None => None,
    }
}

fn read_tab(line: &[char], strip: bool) -> (r: Option<(String, String)>)
    ensures
        pair_view(r) == tab_entry(line@, strip),
{
    let tab = chars_of("\t");
    let n: usize = line.len();
    proof {
        reveal_strlit("\t");
    }
    match text::find(line, tab.as_slice()) {
        Some(i) => {
            proof {
                text::position_is(line@, "\t"@, i as int);
                assert(line@.subrange(i as int, i + 1)[0] == '\t');
                assert(line@[i as int] == '\t');
            }
            let head = part(line, 0, i);
            let tail = part(line, i + 1, n);
            proof {
                assert(head@ =~= line@.take(i as int));
                assert(tail@ =~= line@.skip(i + 1));
            }
            let name = trimmed(without_arch(head, strip));
            let version = trimmed(tail);
            if name.len() == 0 || version.len() == 0 {
                None
            } else {
                Some((string_of(name), string_of(version)))
            }
        },
        None => {
            proof {
                if line@.contains('\t') {
                    let k = choose|k: int| 0 <= k < line@.len() && line@[k] == '\t';
                    assert(line@.subrange(k, k + 1) =~= "\t"@);
                    assert(text::occurs_at(line@, "\t"@, k));
                }
            }
            None
        },
    }
}

fn read_space(line: &[char], strip: bool) -> (r: Option<(String, String)>)
    ensures
        pair_view(r) == space_entry(line@, strip),
{
    let w = words_of(line);
    proof {
        assert(text::slices(w@).len() == w@.len());
    }
    if w.len() < 2 {
        return None;
    }
    proof {
        assert(text::slices(w@)[0] == w@[0]@);
        assert(text::slices(w@)[1] == w@[1]@);
    }
    let name = without_arch(w[0], strip);
    if name.len() == 0 || w[1].len() == 0 {
        None
    } else {
        Some((string_of(name), string_of(w[1])))
    }
}

/// The packages that the lines of an inventory name.
pub fn inventory_of(layout: Layout, shown: &str, strip: bool) -> (r: Vec<(String, String)>)
    ensures
        outside::pair_views(r@) == entries_in(layout, text::lines(shown@), strip),
{
    let c = chars_of(shown);
    let l = lines_of(c.as_slice());
    let ghost s = text::slices(l@);
    let mut out: Vec<(String, String)> = Vec::new();
    proof {
        assert(outside::pair_views(out@) =~= entries_in(layout, s.take(0), strip));
    }
    for i in 0..l.len()
        invariant
            s == text::slices(l@),
            outside::pair_views(out@) == entries_in(layout, s.take(i as int), strip),
    {
        let ghost before = outside::pair_views(out@);
        proof {
            assert(s.take(i + 1).drop_last() =~= s.take(i as int));
            assert(s.take(i + 1).last() == l@[i as int]@);
        }
        let e = match layout {
            Layout::Tab => read_tab(l[i], strip),
            Layout::Space => read_space(l[i], strip),
        };
        match e {
            Some((name, version)) => {
                out.push((name, version));
                proof {
                    assert(outside::pair_views(out@) =~= before.push((name@, version@)));
                }
            },
            None => {},
        }
    }
    proof {
        assert(s.take(s.len() as int) =~= s);
    }
    out
}

/// The packages in an inventory whose lines are a name, a tab and a version.
pub fn parse_tab_inventory_lines(stdout: &[u8], strip_arch_suffix: bool) -> (r: Vec<(String, String)>)
    ensures
        outside::pair_views(r@) == entries_in(
            Layout::Tab,
            text::lines(outside::lossy(stdout@)),
            strip_arch_suffix,
        ),
{
    let shown = lossy_text(stdout);
    inventory_of(Layout::Tab, shown.as_str(), strip_arch_suffix)
}

/// The packages in an inventory whose lines are a name and a version with blanks
/// between them.
pub fn parse_space_inventory_lines(stdout: &[u8], strip_arch_suffix: bool) -> (r: Vec<
    (String, String),
>)
    ensures
        outside::pair_views(r@) == entries_in(
            Layout::Space,
            text::lines(outside::lossy(stdout@)),
            strip_arch_suffix,
        ),
{
    let shown = lossy_text(stdout);
    inventory_of(Layout::Space, shown.as_str(), strip_arch_suffix)
}

/// The lines that are not empty, without the blanks around them.
pub open spec fn full_lines(l: Seq<Seq<char>>) -> Seq<Seq<char>>
    decreases l.len(),
{
    if l.len() == 0 {
        Seq::empty()
    } else if text::trim(l.last()).len() == 0 {
        full_lines(l.drop_last())
    } else {
        full_lines(l.drop_last()).push(text::trim(l.last()))
    }
}

/// The names in a list of one name a line.
pub fn names_in(shown: &str) -> (r: Vec<String>)
    ensures
        text::views(r@) == full_lines(text::lines(shown@)),
{
    let c = chars_of(shown);
    let l = lines_of(c.as_slice());
    let ghost s = text::slices(l@);
    let mut out: Vec<String> = Vec::new();
    proof {
        assert(text::views(out@) =~= full_lines(s.take(0)));
    }
    for i in 0..l.len()
        invariant
            s == text::slices(l@),
            text::views(out@) == full_lines(s.take(i as int)),
    {
        let ghost before = text::views(out@);
        proof {
            assert(s.take(i + 1).drop_last() =~= s.take(i as int));
            assert(s.take(i + 1).last() == l@[i as int]@);
        }
        let t = trimmed(l[i]);
        if t.len() > 0 {
            out.push(string_of(t));
            proof {
                assert(text::views(out@) =~= before.push(t@));
            }
        }
    }
    proof {
        assert(s.take(s.len() as int) =~= s);
    }
    out
}

/// The names in a list of one name a line.
pub fn parse_line_list(stdout: &[u8]) -> (r: Vec<String>)
    ensures
        text::views(r@) == full_lines(text::lines(outside::lossy(stdout@))),
{
    let shown = lossy_text(stdout);
    names_in(shown.as_str())
}

fn longest_name(names: &Vec<String>, line: &[char]) -> (r: Option<String>)
    ensures
        text::opt_view(r) == longest(text::views(names@), line@),
        r matches Some(name) ==> name@.len() + 1 <= line@.len(),
{
    let ghost n = text::views(names@);
    let mut best: Option<String> = None;
    for i in 0..names.len()
        invariant
            n == text::views(names@),
            text::opt_view(best) == longest(n.take(i as int), line@),
            best matches Some(name) ==> name@.len() + 1 <= line@.len(),
    {
        proof {
            assert(n.take(i + 1).drop_last() =~= n.take(i as int));
            assert(n.take(i + 1).last() == names@[i as int]@);
            reveal_strlit("-");
        }
        let mut mark = names[i].clone();
        mark.append("-");
        if begins(line, mark.as_str()) {
            let longer = match &best {
                Some(b) => chars_of(b.as_str()).len() < chars_of(names[i].as_str()).len(),
                None => true,
            };
            if longer {
                best = Some(names[i].clone());
            }
        }
    }
    proof {
        assert(n.take(n.len() as int) =~= n);
    }
    best
}

pub open spec fn apk_entries(l: Seq<Seq<char>>, names: Seq<Seq<char>>) -> Seq<
    (Seq<char>, Seq<char>),
>
    decreases l.len(),
{
    if l.len() == 0 {
        Seq::empty()
    } else {
        match apk_entry(l.last(), names) {
            Some(e) => apk_entries(l.drop_last(), names).push(e),
            None => apk_entries(l.drop_last(), names),
        }
    }
}

fn read_apk(line: &[char], names: &Vec<String>) -> (r: Option<(String, String)>)
    ensures
        pair_view(r) == apk_entry(line@, text::views(names@)),
{
    let l = trimmed(line);
    let n: usize = l.len();
    match longest_name(names, l) {
        Some(name) => {
            let k: usize = chars_of(name.as_str()).len();
            let rest = part(l, k + 1, n);
            proof {
                assert(rest@ =~= l@.skip(k + 1));
            }
            let w = words_of(rest);
            proof {
                assert(text::slices(w@).len() == w@.len());
            }
            if w.len() == 0 {
                return None;
            }
            proof {
                assert(text::slices(w@)[0] == w@[0]@);
            }
            let version = trimmed(w[0]);
            if version.len() == 0 {
                None
            } else {
                Some((name, string_of(version)))
            }
        },
        None => None,
    }
}

/// The packages of which a list names the versions, given the names of all.
pub fn apk_inventory(shown: &str, names: &Vec<String>) -> (r: Vec<(String, String)>)
    ensures
        outside::pair_views(r@) == apk_entries(text::lines(shown@), text::views(names@)),
{
    let c = chars_of(shown);
    let l = lines_of(c.as_slice());
    let ghost s = text::slices(l@);
    let ghost v = text::views(names@);
    let mut out: Vec<(String, String)> = Vec::new();
    proof {
        assert(outside::pair_views(out@) =~= apk_entries(s.take(0), v));
    }
    for i in 0..l.len()
        invariant
            s == text::slices(l@),
            v == text::views(names@),
            outside::pair_views(out@) == apk_entries(s.take(i as int), v),
    {
        let ghost before = outside::pair_views(out@);
        proof {
            assert(s.take(i + 1).drop_last() =~= s.take(i as int));
            assert(s.take(i + 1).last() == l@[i as int]@);
        }
        match read_apk(l[i], names) {
            Some((name, version)) => {
                out.push((name, version));
                proof {
                    assert(outside::pair_views(out@) =~= before.push((name@, version@)));
                }
            },
            None => {},
        }
    }
    proof {
        assert(s.take(s.len() as int) =~= s);
    }
    out
}

/// The packages of which apk's list names the versions.
pub fn parse_apk_inventory_lines(stdout: &[u8], package_names: &Vec<String>) -> (r: Vec<
    (String, String),
>)
    ensures
        outside::pair_views(r@) == apk_entries(
            text::lines(outside::lossy(stdout@)),
            text::views(package_names@),
        ),
{
    let shown = lossy_text(stdout);
    apk_inventory(shown.as_str(), package_names)
}

/// The name that a line is given is a known one, and the longest that fits.
pub proof fn longest_fits(names: Seq<Seq<char>>, line: Seq<char>)
    ensures
        match longest(names, line) {
            Some(n) => names.contains(n) && text::starts_with(line, n + "-"@) && forall|i: int|
                0 <= i < names.len() && text::starts_with(line, #[trigger] names[i] + "-"@)
                    ==> names[i].len() <= n.len(),
            None => forall|i: int|
                0 <= i < names.len() ==> !text::starts_with(line, #[trigger] names[i] + "-"@),
        },
    decreases names.len(),
{
    if names.len() > 0 {
        let shorter = names.drop_last();
        longest_fits(shorter, line);
        assert forall|i: int| 0 <= i < names.len() - 1 implies shorter[i] == #[trigger] names[i] by {}
        match longest(names, line) {
            Some(n) => {
                if longest(shorter, line) == Some(n) {
                    let k = choose|k: int| 0 <= k < shorter.len() && shorter[k] == n;
                    assert(names[k] == n);
                } else {
                    assert(names[names.len() - 1] == n);
                }
            },
            None => {},
        }
    }
}

// ---------------------------------------------------------------------------
// Laws

/// What is a letter or a digit stays in a slug, and any run of other characters between
/// two of them becomes one dash.
pub proof fn runs_become_one_dash(s: Seq<char>, c: char)
    ensures
        text::is_ascii_alnum(c) ==> dashed(s.push(c)) == dashed(s).push(c),
        !text::is_ascii_alnum(c) && dashed(s).len() > 0 && dashed(s).last() != '-' ==> dashed(
            s.push(c),
        ) == dashed(s).push('-'),
        !text::is_ascii_alnum(c) && (dashed(s).len() == 0 || dashed(s).last() == '-') ==> dashed(
            s.push(c),
        ) == dashed(s),
        dashed(Seq::empty()).len() == 0,
{
    assert(s.push(c).drop_last() =~= s);
}

/// A cask is found by each of its names: its token, its full token and what it calls
/// itself.
pub proof fn casks_have_all_their_keys(c: CaskView, key: Seq<char>, i: int)
    ensures
        cask_keys(c).contains(token_of(c.token)),
        cask_keys(c).contains(token_of(c.full_token)),
        0 <= i < c.name.len() ==> cask_keys(c).contains(token_of(c.name[i])),
        cask_keys(c).contains(key) ==> key == token_of(c.token) || key == token_of(c.full_token)
            || exists|j: int| 0 <= j < c.name.len() && key == token_of(#[trigger] c.name[j]),
{
    assert(cask_keys(c)[0] == token_of(c.token));
    assert(cask_keys(c)[1] == token_of(c.full_token));
    if 0 <= i < c.name.len() {
        assert(cask_keys(c)[2 + i] == token_of(c.name[i]));
    }
    if cask_keys(c).contains(key) {
        let j = choose|j: int| 0 <= j < cask_keys(c).len() && cask_keys(c)[j] == key;
        if j >= 2 {
            assert(key == token_of(c.name[j - 2]));
        }
    }
}

/// Exactly the casks that have a key are found by it.
pub proof fn casks_are_found_by_their_keys(c: Seq<CaskView>, key: Seq<char>, k: int)
    ensures
        found_by(c, key).contains(k) <==> 0 <= k < c.len() && cask_keys(c[k]).contains(key),
    decreases c.len(),
{
    if c.len() > 0 {
        let d = c.drop_last();
        casks_are_found_by_their_keys(d, key, k);
        let n = c.len() - 1;
        if cask_keys(c.last()).contains(key) {
            let f = found_by(d, key);
            assert(found_by(c, key) == f.push(n));
            assert(f.push(n)[f.len() as int] == n);
            if f.contains(k) {
                let j = choose|j: int| 0 <= j < f.len() && f[j] == k;
                assert(f.push(n)[j] == k);
            }
            if found_by(c, key).contains(k) && k != n {
                let j = choose|j: int| 0 <= j < f.push(n).len() && f.push(n)[j] == k;
                assert(f[j] == k);
            }
        }
        if 0 <= k < n {
            assert(d[k] == c[k]);
        }
    }
}

/// The ending of an app is taken off however often it stands there, and nothing else.
pub proof fn app_endings_are_taken_off(s: Seq<char>)
    ensures
        without_app(s + ".app"@) == without_app(s),
        !text::ends_with(s, ".app"@) ==> without_app(s) == s,
        !text::ends_with(without_app(s), ".app"@),
    decreases s.len(),
{
    reveal_strlit(".app");
    let t = s + ".app"@;
    assert(t.skip(t.len() - ".app"@.len()) =~= ".app"@);
    assert(t.subrange(t.len() - ".app"@.len(), t.len() as int) =~= ".app"@);
    assert(t.take(t.len() - ".app"@.len()) =~= s);
    assert(text::ends_with(t, ".app"@));
    if text::ends_with(s, ".app"@) {
        app_endings_are_taken_off(s.take(s.len() - ".app"@.len()));
    }
}

/// Places are joined without repeating one: each of both lists is there, and nothing else.
pub proof fn places_are_joined(v: Seq<int>, more: Seq<int>, k: int)
    ensures
        with_places(v, more).contains(k) <==> v.contains(k) || more.contains(k),
        v.is_prefix_of(with_places(v, more)),
    decreases more.len(),
{
    if more.len() == 0 {
        assert(!more.contains(k));
    } else {
        let d = more.drop_last();
        let x = more.last();
        places_are_joined(v, d, k);
        let b = with_places(v, d);
        assert(more =~= d.push(x));
        if more.contains(k) && k != x {
            let j = choose|j: int| 0 <= j < more.len() && more[j] == k;
            assert(d[j] == k);
        }
        if d.contains(k) {
            let j = choose|j: int| 0 <= j < d.len() && d[j] == k;
            assert(more[j] == k);
        }
        assert(more[more.len() - 1] == x);
        if !b.contains(x) {
            assert(b.push(x)[b.len() as int] == x);
            if b.contains(k) {
                let j = choose|j: int| 0 <= j < b.len() && b[j] == k;
                assert(b.push(x)[j] == k);
            }
            if b.push(x).contains(k) && k != x {
                let j = choose|j: int| 0 <= j < b.push(x).len() && b.push(x)[j] == k;
                assert(b[j] == k);
            }
        }
    }
}

/// An app may be any cask that has its name or the name of its file as a key, with or
/// without the ending of an app; no other cask is considered.
pub proof fn apps_are_found_by_both_names(c: Seq<CaskView>, app: AppView, k: int)
    ensures
        candidates_of(c, app).contains(k) <==> 0 <= k < c.len() && (cask_keys(c[k]).contains(
            token_of(app.bundle_name),
        ) || cask_keys(c[k]).contains(token_of(without_app(app.bundle_name))) || cask_keys(
            c[k],
        ).contains(token_of(app.file_name)) || cask_keys(c[k]).contains(
            token_of(without_app(app.file_name)),
        )),
{
    let a = led_to(c, app.bundle_name);
    let b = led_to(c, app.file_name);
    places_are_joined(a, b, k);
    casks_are_found_by_their_keys(c, token_of(app.bundle_name), k);
    casks_are_found_by_their_keys(c, token_of(without_app(app.bundle_name)), k);
    casks_are_found_by_their_keys(c, token_of(app.file_name), k);
    casks_are_found_by_their_keys(c, token_of(without_app(app.file_name)), k);
    places_are_joined(
        found_by(c, token_of(app.bundle_name)),
        found_by(c, token_of(without_app(app.bundle_name))),
        k,
    );
    places_are_joined(
        found_by(c, token_of(app.file_name)),
        found_by(c, token_of(without_app(app.file_name))),
        k,
    );
}

/// The two versions of an app are joined only where the version of the cask is both of
/// them, or begins with them and goes on behind a comma.
pub proof fn versions_are_joined_by_comma(short: Seq<char>, build: Seq<char>, rest: Seq<char>)
    requires
        short.len() > 0,
        build.len() > 0,
    ensures
        combined(short, build, short + ","@ + build) == Some(short + ","@ + build),
        combined(short, build, short + ","@ + build + ","@ + rest) == Some(short + ","@ + build),
        !rest.contains(',') ==> combined(short, build, rest) is None,
        combined(Seq::empty(), build, rest) is None,
        combined(short, Seq::empty(), rest) is None,
        combined(short, build, rest) is Some ==> rest == short + ","@ + build || text::starts_with(
            rest,
            short + ","@ + build + ","@,
        ),
{
    reveal_strlit(",");
    let both = short + ","@ + build;
    assert(both[short.len() as int] == ',');
    assert(both.contains(','));
    let long = both + ","@ + rest;
    assert(long[short.len() as int] == ',');
    assert(long.contains(','));
    let p = both + ","@;
    assert(long.subrange(0, p.len() as int) =~= p);
    assert(long.take(p.len() as int) =~= p);
    assert(text::starts_with(long, p));
}

/// The version of an app is both of its versions where the cask has them, else the short
/// one, else the other.
pub proof fn short_version_comes_first(app: AppView, cask_version: Seq<char>, s: Seq<char>, b: Seq<char>)
    ensures
        app.short_version == Some(s) && app.bundle_version == Some(b) && combined(
            s,
            b,
            cask_version,
        ) is Some ==> app_version(app, cask_version) == combined(s, b, cask_version)
            && same_version(app, cask_version),
        app.short_version == Some(s) && (app.bundle_version == Some(b) ==> combined(
            s,
            b,
            cask_version,
        ) is None) && (app.bundle_version is None || app.bundle_version == Some(b))
            ==> app_version(app, cask_version) == Some(s),
        app.short_version is None ==> app_version(app, cask_version) == app.bundle_version,
        app.short_version == Some(cask_version) ==> same_version(app, cask_version),
        app.bundle_version == Some(cask_version) ==> same_version(app, cask_version),
        app.short_version is None && app.bundle_version != Some(cask_version) ==> !same_version(
            app,
            cask_version,
        ),
        app.bundle_version is None && app.short_version != Some(cask_version) ==> !same_version(
            app,
            cask_version,
        ),
{
}

/// The parts of an identifier are what other characters than letters and digits part, in
/// small letters.
pub proof fn identifiers_are_parted(s: Seq<char>, c: char)
    ensures
        id_parts(s).len() > 0,
        text::is_ascii_alnum(c) ==> id_parts(s.push(c)).len() == id_parts(s).len() && id_parts(
            s.push(c),
        ).last() == id_parts(s).last().push(text::lower_char(c)) && id_parts(s.push(c)).drop_last()
            == id_parts(s).drop_last(),
        !text::is_ascii_alnum(c) ==> id_parts(s.push(c)) == id_parts(s).push(Seq::empty()),
    decreases s.len(),
{
    assert(s.push(c).drop_last() =~= s);
    if s.len() > 0 {
        identifiers_are_parted(s.drop_last(), s.last());
        assert(s.drop_last().push(s.last()) =~= s);
    }
    let b = id_parts(s);
    let x = b.last().push(text::lower_char(c));
    assert(b.drop_last().push(x).drop_last() =~= b.drop_last());
}

/// The vendor is the first part that is not empty and not one of those that any identifier
/// may have.
pub proof fn vendor_is_first_telling(before: Seq<Seq<char>>, p: Seq<char>, after: Seq<Seq<char>>)
    requires
        p.len() > 0,
        p != "app"@ && p != "co"@ && p != "com"@ && p != "io"@ && p != "net"@ && p != "org"@,
        forall|i: int|
            0 <= i < before.len() ==> (#[trigger] before[i]).len() == 0 || before[i] == "app"@
                || before[i] == "co"@ || before[i] == "com"@ || before[i] == "io"@ || before[i]
                == "net"@ || before[i] == "org"@,
    ensures
        first_telling(before + seq![p] + after) == Some(p),
        first_telling(before) is None,
    decreases before.len(),
{
    let all = before + seq![p] + after;
    if before.len() == 0 {
        assert(all[0] == p);
    } else {
        let t = before.skip(1);
        assert forall|i: int| 0 <= i < t.len() implies (#[trigger] t[i]).len() == 0 || t[i]
            == "app"@ || t[i] == "co"@ || t[i] == "com"@ || t[i] == "io"@ || t[i] == "net"@ || t[i]
            == "org"@ by {
            assert(t[i] == before[i + 1]);
        }
        vendor_is_first_telling(t, p, after);
        assert(all[0] == before[0]);
        assert(all.skip(1) =~= t + seq![p] + after);
    }
}

/// A cask names the vendor of an app where the vendor is a word between the dashes of its
/// token, its full token or its homepage.
pub proof fn vendors_are_named_as_words(c: CaskView, id: Seq<char>, v: Seq<char>)
    ensures
        !names_vendor(c, None),
        first_telling(id_parts(id)) is None ==> !names_vendor(c, Some(id)),
        first_telling(id_parts(id)) == Some(v) ==> (names_vendor(c, Some(id)) <==> text::split(
            token_of(c.token),
            '-',
        ).contains(v) || text::split(token_of(c.full_token), '-').contains(v) || text::split(
            token_of(c.homepage),
            '-',
        ).contains(v)),
{
}

/// A version counts for more than a vendor, and each of them alone is enough to decide.
pub proof fn scores_add_up(app: AppView, c: CaskView)
    ensures
        same_version(app, c.version) && names_vendor(c, app.bundle_identifier) ==> score_of(app, c)
            == 160,
        same_version(app, c.version) && !names_vendor(c, app.bundle_identifier) ==> score_of(app, c)
            == 100,
        !same_version(app, c.version) && names_vendor(c, app.bundle_identifier) ==> score_of(app, c)
            == 60,
        !same_version(app, c.version) && !names_vendor(c, app.bundle_identifier) ==> score_of(
            app,
            c,
        ) == 0,
{
}

/// An only candidate is the match. Of several, the match is one that scores at least half a
/// hundred and more than each other; where two lead, none is.
pub proof fn match_leads(app: AppView, c: Seq<CaskView>, k: int, p: int, q: int)
    ensures
        candidates_of(c, app).len() == 0 ==> !is_match(app, c, k),
        candidates_of(c, app).len() == 1 ==> (is_match(app, c, k) <==> k == candidates_of(
            c,
            app,
        )[0]),
        candidates_of(c, app).len() > 1 && 0 <= p < candidates_of(c, app).len() && score_of(
            app,
            c[candidates_of(c, app)[p]],
        ) >= 50 && (forall|i: int|
            0 <= i < candidates_of(c, app).len() && i != p ==> score_of(
                app,
                c[#[trigger] candidates_of(c, app)[i]],
            ) < score_of(app, c[candidates_of(c, app)[p]])) ==> is_match(
            app,
            c,
            candidates_of(c, app)[p],
        ),
        candidates_of(c, app).len() > 1 && is_match(app, c, k) ==> candidates_of(c, app).contains(k)
            && score_of(app, c[k]) >= 50,
        candidates_of(c, app).len() > 1 && is_match(app, c, k) && 0 <= q < candidates_of(
            c,
            app,
        ).len() ==> candidates_of(c, app)[q] == k || score_of(app, c[candidates_of(c, app)[q]])
            < score_of(app, c[k]),
{
    let places = candidates_of(c, app);
    let s = scores_of(app, c, places);
    if places.len() > 1 {
        if 0 <= p < places.len() && score_of(app, c[places[p]]) >= 50 && (forall|i: int|
            0 <= i < places.len() && i != p ==> score_of(app, c[#[trigger] places[i]]) < score_of(
                app,
                c[places[p]],
            )) {
            assert(leads(s, p)) by {
                assert forall|j: int| 0 <= j < s.len() && j != p implies #[trigger] s[j] < s[p] by {
                    assert(score_of(app, c[places[j]]) < score_of(app, c[places[p]]));
                }
            }
        }
        if is_match(app, c, k) {
            let w = choose|w: int| #[trigger] leads(s, w) && places[w] == k;
            assert(places[w] == k);
            if 0 <= q < places.len() && q != w {
                assert(s[q] < s[w]);
            }
        }
    }
}

/// Only a folder with the ending of an app that is not hidden is an app.
pub proof fn apps_are_shown_folders(e: AppEntryView)
    ensures
        is_app(e) <==> e.is_dir && text::ends_with(e.file_name, ".app"@) && !text::starts_with(
            e.file_name,
            "."@,
        ),
{
}

/// An app that matches a cask is found as that cask, with its own version and date and under
/// its own name; of two apps for one cask the first counts.
pub proof fn matched_apps_are_found(e: Seq<AppEntryView>, c: Seq<CaskView>, x: AppEntryView, k: int)
    ensures
        ({
            let before = discovered(e, c);
            let now = discovered(e.push(x), c);
            &&& !is_app(x) ==> now == before
            &&& (forall|j: int| !#[trigger] is_match(x.app, c, j)) ==> now == before
            &&& is_app(x) && is_match(x.app, c, k) && before.contains_key(c[k].token) ==> now
                == before
            &&& is_app(x) && is_match(x.app, c, k) && !before.contains_key(c[k].token) ==> {
                &&& now == before.insert(c[k].token, now[c[k].token])
                &&& now[c[k].token].name == c[k].token
                &&& now[c[k].token].install_date == x.date
                &&& now[c[k].token].artifact_type == Some("app"@)
                &&& now[c[k].token].binary_paths is None
                &&& now[c[k].token].app_name == Some(x.app.bundle_name)
                &&& app_version(x.app, c[k].version) is Some ==> Some(now[c[k].token].version)
                    == app_version(x.app, c[k].version)
                &&& app_version(x.app, c[k].version) is None ==> now[c[k].token].version
                    == "unknown"@
            }
        }),
        discovered(Seq::empty(), c) == Map::<Seq<char>, InstalledCaskView>::empty(),
{
    assert(e.push(x).drop_last() =~= e);
    if is_match(x.app, c, k) {
        let j = match_of(x.app, c)->0;
        assert(is_match(x.app, c, j));
        match_is_unique(x.app, c, j, k);
    }
}

/// The name of a file without what follows its last dot is its stem; a name that only
/// begins with a dot keeps it.
pub proof fn stems_have_no_ending(name: Seq<char>, ending: Seq<char>)
    requires
        name.len() > 0,
        !ending.contains('.'),
        ending.len() > 0,
    ensures
        stem(name + seq!['.'] + ending) == name,
        !name.contains('.') ==> stem(name) == name,
        stem(seq!['.'] + ending) == seq!['.'] + ending,
{
    let all = name + seq!['.'] + ending;
    text::last_index_is_last(name, '.', ending);
    text::last_index_is_last(Seq::empty(), '.', ending);
    assert(all.take(name.len() as int) =~= name);
    assert(name.push('.') + ending =~= all);
    assert(Seq::<char>::empty().push('.') + ending =~= seq!['.'] + ending);
    if !name.contains('.') {
        text::last_index_is_last(Seq::empty(), '.', name);
    }
    reveal_strlit("..");
    assert(all.len() >= 3);
    assert(all != ".."@);
}

/// What is shown of a property is its text without the space around it; where nothing is
/// left it has none.
pub proof fn properties_are_trimmed(shown: Seq<char>)
    ensures
        text::trim(shown).len() > 0 ==> plist_value(shown) == Some(text::trim(shown)),
        text::trim(shown).len() == 0 ==> plist_value(shown) is None,
{
}

/// A formula is found by the token of its name and by that of its full name; of two with
/// one token the first counts.
pub proof fn formulae_are_found_by_both_names(f: Seq<FormulaView>, x: FormulaView, key: Seq<char>)
    ensures
        ({
            let before = token_index(f);
            let now = token_index(f.push(x));
            &&& before.contains_key(key) ==> now.contains_key(key) && now[key] == before[key]
            &&& now.contains_key(token_of(x.name)) && now.contains_key(token_of(x.full_name))
            &&& !before.contains_key(key) && now.contains_key(key) ==> now[key] == x.name && (key
                == token_of(x.name) || key == token_of(x.full_name))
        }),
        token_index(Seq::empty()) == Map::<Seq<char>, Seq<char>>::empty(),
{
    assert(f.push(x).drop_last() =~= f);
}

/// A package of the system that is a formula is found under the name of the formula, with
/// the version that the system has of it; one that is none is not.
pub proof fn system_packages_are_found(
    inventory: Seq<(Seq<char>, Seq<char>)>,
    index: Map<Seq<char>, Seq<char>>,
    platform: Seq<char>,
    now: int,
    name: Seq<char>,
    version: Seq<char>,
)
    ensures
        ({
            let before = found_packages(inventory, index, platform, now);
            let after = found_packages(inventory.push((name, version)), index, platform, now);
            let formula = index[token_of(name)];
            &&& !index.contains_key(token_of(name)) ==> after == before
            &&& index.contains_key(token_of(name)) && before.contains_key(formula) ==> after
                == before
            &&& index.contains_key(token_of(name)) && !before.contains_key(formula) ==> {
                &&& after == before.insert(formula, after[formula])
                &&& after[formula].name == formula
                &&& after[formula].version == version
                &&& after[formula].platform == platform
                &&& after[formula].install_date == now
                &&& after[formula].install_mode == InstallMode::Global
                &&& !after[formula].from_source && !after[formula].pinned
                &&& after[formula].bottle_rebuild == 0 && after[formula].bottle_sha256 is None
            }
        }),
        found_packages(Seq::empty(), index, platform, now) == Map::<
            Seq<char>,
            InstalledView,
        >::empty(),
{
    assert(inventory.push((name, version)).drop_last() =~= inventory);
}

proof fn tab_stands_behind(a: Seq<char>, b: Seq<char>)
    requires
        !a.contains('\t'),
    ensures
        text::position(a + seq!['\t'] + b, "\t"@) == a.len(),
{
    reveal_strlit("\t");
    assert("\t"@ =~= seq!['\t']);
    let s = a + "\t"@ + b;
    assert forall|j: int| 0 <= j < a.len() implies !text::occurs_at(s, "\t"@, j) by {
        if text::occurs_at(s, "\t"@, j) {
            assert(s.subrange(j, j + 1)[0] == "\t"@[0]);
            assert(s[j] == a[j]);
        }
    }
    text::position_of_first(a, "\t"@, b);
}

/// A line with a name, a tab and a version gives both; the architecture behind the name is
/// dropped where it is asked to be. A line without a tab, or without one of both, gives
/// nothing.
pub proof fn tab_lines_are_read(name: Seq<char>, arch: Seq<char>, version: Seq<char>, strip: bool)
    requires
        name.len() > 0,
        version.len() > 0,
        text::trim(name) == name,
        text::trim(version) == version,
        !name.contains('\t') && !name.contains(':'),
        !arch.contains('\t'),
    ensures
        tab_entry(name + seq!['\t'] + version, strip) == Some((name, version)),
        tab_entry(name + seq![':'] + arch + seq!['\t'] + version, true) == Some((name, version)),
        tab_entry(name, strip) is None,
{
    reveal_strlit("\t");
    assert("\t"@ =~= seq!['\t']);
    let a = name + seq!['\t'] + version;
    tab_stands_behind(name, version);
    assert(a.contains('\t')) by {
        assert(a[name.len() as int] == '\t');
    }
    assert(a.take(name.len() as int) =~= name);
    assert(a.skip(name.len() as int + 1) =~= version);
    text::plain_is_one_piece(name, ':');
    let full = name + seq![':'] + arch;
    assert(!full.contains('\t')) by {
        if full.contains('\t') {
            let j = choose|j: int| 0 <= j < full.len() && full[j] == '\t';
            if j < name.len() {
                assert(name[j] == '\t');
            } else if j > name.len() {
                assert(arch[j - name.len() - 1] == '\t');
            }
        }
    }
    let b = full + seq!['\t'] + version;
    tab_stands_behind(full, version);
    assert(b.contains('\t')) by {
        assert(b[full.len() as int] == '\t');
    }
    assert(b.take(full.len() as int) =~= full);
    assert(b.skip(full.len() as int + 1) =~= version);
    text::split_of_both(name, arch, ':');
    assert(name.push(':') + arch =~= full);
    text::plain_is_one_piece(name, ':');
}

/// A line of words gives its first two, and one of fewer words nothing.
pub proof fn space_lines_are_read(line: Seq<char>)
    ensures
        text::words(line).len() < 2 ==> space_entry(line, false) is None,
        text::words(line).len() >= 2 && text::words(line)[0].len() > 0 && text::words(line)[1].len()
            > 0 ==> space_entry(line, false) == Some((text::words(line)[0], text::words(line)[1])),
{
}

/// Each line that gives an entry gives it in its place, and each other gives none.
pub proof fn entries_keep_their_order(
    layout: Layout,
    l: Seq<Seq<char>>,
    line: Seq<char>,
    strip: bool,
    e: (Seq<char>, Seq<char>),
    names: Seq<Seq<char>>,
)
    ensures
        entry_in(layout, line, strip) == Some(e) ==> entries_in(layout, l.push(line), strip)
            == entries_in(layout, l, strip).push(e),
        entry_in(layout, line, strip) is None ==> entries_in(layout, l.push(line), strip)
            == entries_in(layout, l, strip),
        entries_in(layout, Seq::empty(), strip).len() == 0,
        entry_in(Layout::Tab, line, strip) == tab_entry(line, strip),
        entry_in(Layout::Space, line, strip) == space_entry(line, strip),
        apk_entry(line, names) == Some(e) ==> apk_entries(l.push(line), names) == apk_entries(
            l,
            names,
        ).push(e),
        apk_entry(line, names) is None ==> apk_entries(l.push(line), names) == apk_entries(
            l,
            names,
        ),
        apk_entries(Seq::empty(), names).len() == 0,
        text::trim(line).len() > 0 ==> full_lines(l.push(line)) == full_lines(l).push(
            text::trim(line),
        ),
        text::trim(line).len() == 0 ==> full_lines(l.push(line)) == full_lines(l),
        full_lines(Seq::empty()).len() == 0,
{
    assert(l.push(line).drop_last() =~= l);
}

/// The longest known name that a line begins with, before a dash, is the name of its
/// package: no known name that fits is longer, and where one fits one is found.
pub proof fn no_longer_name_fits(names: Seq<Seq<char>>, line: Seq<char>, i: int)
    requires
        0 <= i < names.len(),
        text::starts_with(line, names[i] + "-"@),
    ensures
        longest(names, line) matches Some(n) && n.len() >= names[i].len(),
    decreases names.len(),
{
    if i < names.len() - 1 {
        assert(names.drop_last()[i] == names[i]);
        no_longer_name_fits(names.drop_last(), line, i);
    }
}

/// What follows the name and the dash in a line, up to the next space, is the version.
pub proof fn version_follows_the_name(line: Seq<char>, names: Seq<Seq<char>>, name: Seq<char>)
    requires
        longest(names, text::trim(line)) == Some(name),
    ensures
        ({
            let w = text::words(text::trim(line).skip(name.len() as int + 1));
            &&& w.len() == 0 ==> apk_entry(line, names) is None
            &&& w.len() > 0 && text::trim(w[0]).len() > 0 ==> apk_entry(line, names) == Some(
                (name, text::trim(w[0])),
            )
        }),
{
}

proof fn first_dot_app(a: Seq<char>)
    requires
        !text::contains(a, ".app"@),
        forall|j: int| 0 <= j < a.len() ==> !text::occurs_at(a + ".app"@, ".app"@, j),
    ensures
        text::replace(a + ".app"@, ".app"@, ""@) == text::replace(a, ".app"@, ""@),
{
    reveal_strlit(".app");
    reveal_strlit("");
    let e = Seq::<char>::empty();
    assert(a + ".app"@ + e =~= a + ".app"@);
    assert((a + ".app"@).subrange(a.len() as int, (a.len() + ".app"@.len()) as int) =~= ".app"@);
    text::replacing_the_first(a, ".app"@, e, ""@);
    text::replacing_nothing(a, ".app"@, ""@);
    assert(!text::contains(e, ".app"@));
    text::replacing_nothing(e, ".app"@, ""@);
    assert(a + ""@ + e =~= a);
}

/// The ending of an app does not count for the token of a name.
pub proof fn app_ending_does_not_count(a: Seq<char>)
    requires
        !text::contains(a, ".app"@),
        forall|j: int| 0 <= j < a.len() ==> !text::occurs_at(a + ".app"@, ".app"@, j),
    ensures
        token_of(a + ".app"@) == token_of(a),
{
    first_dot_app(a);
}

/// The architecture behind a name is dropped only where it is asked to be.
pub proof fn architectures_are_dropped_on_demand(name: Seq<char>, arch: Seq<char>)
    requires
        !name.contains(':'),
    ensures
        before_colon(name + seq![':'] + arch, true) == name,
        before_colon(name, true) == name,
        before_colon(name + seq![':'] + arch, false) == name + seq![':'] + arch,
{
    text::split_of_both(name, arch, ':');
    assert(name.push(':') + arch =~= name + seq![':'] + arch);
    text::plain_is_one_piece(name, ':');
}

}
