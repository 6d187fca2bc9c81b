//! Search across the Scoop Main bucket, the Chocolatey gallery and the winget-pkgs
//! repository: what counts as a hit, how well it fits, and which of two hits for
//! one package is shown.
use crate::error::{Result, WaxError};
use crate::json::Json;
use crate::order::{dedup_by_key, sort_by_key, str_precedes};
use crate::outside::{lowercased, percent_encode};
use crate::package_spec::Ecosystem;
use crate::table::Table;
use crate::text::{
    after_prefix,
    before_suffix,
    begins,
    chars_of,
    ends,
    has,
    has_char,
    is,
    joined,
    number,
    pieces,
    same_str,
    string_of,
    trimmed,
};
use crate::{error, json, order, outside, table, text};
use vstd::prelude::*;
use vstd::utf8;

verus! {

/// How long a listing of the Scoop bucket is used before it is fetched again.
pub const SCOOP_INDEX_MAX_AGE_SECS: i64 = 86_400;

#[derive(Debug, Clone)]
pub struct RemoteHit {
    pub ecosystem: Ecosystem,
    pub id: String,
    pub blurb: Option<String>,
    pub score: i32,
}

pub struct HitView {
    pub ecosystem: Ecosystem,
    pub id: Seq<char>,
    pub blurb: Option<Seq<char>>,
    pub score: int,
}

impl View for RemoteHit {
    type V = HitView;

    open spec fn view(&self) -> HitView {
        HitView {
            ecosystem: self.ecosystem,
            id: self.id@,
            blurb: text::opt_view(self.blurb),
            score: self.score as int,
        }
    }
}

/// A `RemoteHit` is seen as what it holds.
pub proof fn remote_hit_is_seen_as_it_is(x: RemoteHit)
    ensures
        x@.ecosystem == x.ecosystem,
        x@.id == x.id@,
        x@.blurb == text::opt_view(x.blurb),
        x@.score == x.score as int,
{
}

pub open spec fn hit_views(v: Seq<RemoteHit>) -> Seq<HitView> {
    v.map_values(|h: RemoteHit| h@)
}

// ---------------------------------------------------------------------------
// Scores

/// How well a lowercase name fits a lowercase query.
pub open spec fn fit(name: Seq<char>, query: Seq<char>) -> Option<int> {
    if name == query {
        Some(1000)
    } else if text::starts_with(name, query) {
        Some(900)
    } else if text::contains(name, query) {
        Some(850)
    } else {
        None
    }
}

/// How well a name fits a query, whatever their case.
pub open spec fn score_of(name: Seq<char>, query: Seq<char>) -> Option<int> {
    fit(outside::lowercase(name), outside::lowercase(query))
}

/// How well a name that is lowercase already fits a query that is.
pub fn fit_of(name: &str, query: &str) -> (r: Option<i32>)
    ensures
        match r {
            Some(n) => fit(name@, query@) == Some(n as int),
            None => fit(name@, query@) is None,
        },
{
    let n = chars_of(name);
    if same_str(name, query) {
        Some(1000)
    } else if begins(n.as_slice(), query) {
        Some(900)
    } else {
        let inside = has(n.as_slice(), query);
        if inside {
            Some(850)
        } else {
            None
        }
    }
}

pub fn match_score_token(name: &str, query: &str) -> (r: Option<i32>)
    ensures
        match r {
            Some(n) => score_of(name@, query@) == Some(n as int),
            None => score_of(name@, query@) is None,
        },
{
    let q = lowercased(query);
    let n = lowercased(name);
    fit_of(n.as_str(), q.as_str())
}

/// A name that equals the query fits best, one that begins with it fits better
/// than one that only holds it, and only names that hold it fit at all.
pub proof fn better_fit_scores_higher(a: Seq<char>, b: Seq<char>, query: Seq<char>)
    ensures
        fit(query, query) == Some(1000int),
        fit(a, query) is Some <==> text::contains(a, query),
        fit(a, query) is Some && fit(b, query) is Some && text::starts_with(a, query)
            && !text::starts_with(b, query) ==> fit(a, query)->0 > fit(b, query)->0,
        a != query && fit(a, query) is Some ==> fit(a, query)->0 < 1000,
{
    assert(query.subrange(0, query.len() as int) =~= query);
    assert(a == query || text::starts_with(a, query) ==> text::contains(a, query)) by {
        if a == query {
            assert(text::occurs_at(a, query, 0));
        }
        if text::starts_with(a, query) {
            assert(text::occurs_at(a, query, 0));
        }
    }
    if b == query {
        assert(text::starts_with(b, query));
    }
}

// ---------------------------------------------------------------------------
// The listing of the Scoop bucket

/// A stored listing is still good.
pub fn scoop_index_is_fresh(now_unix: i64, fetched_unix: i64) -> (r: bool)
    requires
        i64::MIN <= now_unix - fetched_unix <= i64::MAX,
    ensures
        r == (now_unix - fetched_unix < SCOOP_INDEX_MAX_AGE_SECS),
{
    now_unix - fetched_unix < SCOOP_INDEX_MAX_AGE_SECS
}

/// The package that a file of the bucket describes.
pub open spec fn bucket_name(path: Seq<char>) -> Option<Seq<char>> {
    match text::strip_prefix(path, "bucket/"@) {
        Some(rest) => match text::strip_suffix(rest, ".json"@) {
            Some(stem) => if stem.contains('/') {
                None
            } else {
                Some(stem)
            },
            None => None,
        },
        None => None,
    }
}

fn bucket_name_of(path: &str) -> (r: Option<String>)
    ensures
        text::opt_view(r) == bucket_name(path@),
{
    let c = chars_of(path);
    match after_prefix(c.as_slice(), "bucket/") {
        Some(rest) => match before_suffix(rest, ".json") {
            Some(stem) => if has_char(stem, '/') {
                None
            } else {
                Some(string_of(stem))
            },
            None => None,
        },
        None => None,
    }
}

/// The packages that the entries of a listing describe.
pub open spec fn bucket_names(items: Seq<Json>) -> Seq<Seq<char>>
    decreases items.len(),
{
    if items.len() == 0 {
        Seq::empty()
    } else {
        let before = bucket_names(items.drop_last());
        match json::text_field(items.last(), "path"@) {
            Some(path) => match bucket_name(path) {
                Some(name) => before.push(name),
                None => before,
            },
            None => before,
        }
    }
}

/// The packages of the bucket, in order and each once, from the listing of the
/// files of its repository.
pub fn scoop_names(listing: &Json) -> (r: Result<Vec<String>>)
    ensures
        match r {
            Ok(v) => json::field(*listing, "tree"@) matches Some(Json::List(items))
                && order::shown_all(v@) == order::dedup(order::sort(bucket_names(items@))),
            Err(e) => !(json::field(*listing, "tree"@) matches Some(Json::List(_)))
                && e@ == error::ErrorView::ParseError("no tree array"@),
        },
{
    match listing.get("tree") {
        Some(Json::List(items)) => {
            let ghost s = items@;
            let mut names: Vec<String> = Vec::new();
            proof {
                assert(order::shown_all(names@) =~= bucket_names(s.take(0)));
            }
            for i in 0..items.len()
                invariant
                    s == items@,
                    order::shown_all(names@) == bucket_names(s.take(i as int)),
            {
                proof {
                    assert(s.take(i + 1).drop_last() =~= s.take(i as int));
                    assert(s.take(i + 1).last() == s[i as int]);
                }
                let ghost before = order::shown_all(names@);
                match items[i].get_str("path") {
                    Some(path) => match bucket_name_of(path.as_str()) {
                        Some(name) => {
                            names.push(name);
                            proof {
                                assert(order::shown_all(names@) =~= before.push(name@));
                            }
                        },
                        None => {},
                    },
                    None => {},
                }
            }
            proof {
                assert(s.take(s.len() as int) =~= s);
            }
            sort_by_key(&mut names);
            dedup_by_key(&mut names);
            Ok(names)
        },
        _ => Err(WaxError::ParseError(String::from_str("no tree array"))),
    }
}

// ---------------------------------------------------------------------------
// Manifests of winget-pkgs

/// Where the piece `p` first stands.
pub open spec fn first_piece(parts: Seq<Seq<char>>, p: Seq<char>) -> Option<int>
    decreases parts.len(),
{
    if parts.len() == 0 {
        None
    } else if parts[0] == p {
        Some(0)
    } else {
        match first_piece(parts.skip(1), p) {
            Some(i) => Some(i + 1),
            None => None,
        }
    }
}

/// A folder that is named after a version: its name begins with a digit.
pub open spec fn version_folder(s: Seq<char>) -> bool {
    s.len() > 0 && text::is_digit(s[0])
}

pub fn looks_like_version_folder(s: &str) -> (r: bool)
    ensures
        r == version_folder(s@),
{
    let c = chars_of(s);
    c.len() > 0 && c[0] >= '0' && c[0] <= '9'
}

/// The package that a manifest describes:
/// `manifests/<letter>/<id part>/../<version>/<file>.yaml`.
pub open spec fn manifest_id(path: Seq<char>) -> Option<Seq<char>> {
    let parts = text::split(path, '/');
    match first_piece(parts, "manifests"@) {
        Some(m) => {
            let tail = parts.skip(m + 2);
            if parts.len() < m + 5 || !text::ends_with(tail.last(), ".yaml"@) || !version_folder(
                tail[tail.len() - 2],
            ) {
                None
            } else {
                Some(text::join(tail.take(tail.len() - 2), seq!['.']))
            }
        },
        None => None,
    }
}

fn piece_place(parts: &Vec<String>, p: &str) -> (r: Option<usize>)
    ensures
        match r {
            Some(i) => first_piece(text::views(parts@), p@) == Some(i as int) && i < parts@.len(),
            None => first_piece(text::views(parts@), p@) is None,
        },
{
    let ghost s = text::views(parts@);
    proof {
        assert(s.skip(0) =~= s);
    }
    for i in 0..parts.len()
        invariant
            s == text::views(parts@),
            first_piece(s, p@) == (match first_piece(s.skip(i as int), p@) {
                Some(k) => Some(k + i),
                None => None,
            }),
    {
        proof {
            assert(s.skip(i as int)[0] == parts@[i as int]@);
            assert(s.skip(i as int).skip(1) =~= s.skip(i + 1));
        }
        if same_str(parts[i].as_str(), p) {
            return Some(i);
        }
    }
    None
}

pub fn package_id_from_winget_manifest_path(path: &str) -> (r: Option<String>)
    ensures
        text::opt_view(r) == manifest_id(path@),
{
    let c = chars_of(path);
    let p = pieces(c.as_slice(), '/');
    let mut parts: Vec<String> = Vec::new();
    for i in 0..p.len()
        invariant
            text::views(parts@) =~= text::slices(p@).take(i as int),
    {
        let ghost before = text::views(parts@);
        let piece = string_of(p[i]);
        let ghost x = piece@;
        parts.push(piece);
        proof {
            assert(text::views(parts@) =~= before.push(x));
        }
    }
    let ghost s = text::split(path@, '/');
    proof {
        assert(text::slices(p@).take(p@.len() as int) =~= s);
    }
    let m: usize = match piece_place(&parts, "manifests") {
        Some(m) => m,
        None => {
            return None;
        },
    };
    let n: usize = parts.len();
    if n - m < 5 {
        return None;
    }
    let ghost tail = s.skip(m + 2);
    proof {
        assert(tail.last() == s[n - 1]);
        assert(tail[tail.len() - 2] == s[n - 2]);
        assert(s[n - 1] == parts@[n - 1]@);
        assert(s[n - 2] == parts@[n - 2]@);
    }
    let file = chars_of(parts[n - 1].as_str());
    let named = ends(file.as_slice(), ".yaml");
    if !named || !looks_like_version_folder(parts[n - 2].as_str()) {
        return None;
    }
    let mut id_parts: Vec<String> = Vec::new();
    for i in m + 2..n - 2
        invariant
            n == parts@.len(),
            s == text::views(parts@),
            m + 5 <= n,
            text::views(id_parts@) =~= s.subrange(m + 2, i as int),
    {
        let ghost before = text::views(id_parts@);
        id_parts.push(parts[i].clone());
        proof {
            assert(text::views(id_parts@) =~= before.push(s[i as int]));
        }
    }
    proof {
        assert(s.subrange(m + 2, n - 2) =~= tail.take(tail.len() - 2));
        reveal_strlit(".");
        assert("."@ =~= seq!['.']);
    }
    Some(joined(&id_parts, "."))
}

/// The address that searches winget-pkgs for manifests.
pub open spec fn winget_search_address(query: Seq<char>, limit: nat) -> Seq<char> {
    "https://api.github.com/search/code?q="@ + outside::percent_encoded(utf8::encode_utf8(query))
        + "+filename:installer.yaml+repo:microsoft/winget-pkgs+path:/manifests/"@ + "&per_page="@
        + text::decimal(limit)
}

pub fn winget_search_url(query: &str, limit: usize) -> (r: String)
    ensures
        r@ == winget_search_address(query@, limit as nat),
{
    let mut r = String::from_str("https://api.github.com/search/code?q=");
    r.append(percent_encode(query).as_str());
    r.append("+filename:installer.yaml+repo:microsoft/winget-pkgs+path:/manifests/");
    r.append("&per_page=");
    r.append(number(limit as u128).as_str());
    r
}

/// What a search finds is taken in order until `limit` hits are there; a manifest
/// whose name does not fit the query still counts for something.
pub open spec fn winget_found(
    paths: Seq<Seq<char>>,
    query: Seq<char>,
    limit: int,
) -> (Seq<HitView>, bool)
    decreases paths.len(),
{
    if paths.len() == 0 {
        (Seq::empty(), false)
    } else {
        let (hits, full) = winget_found(paths.drop_last(), query, limit);
        if full {
            (hits, true)
        } else {
            let more = match manifest_id(paths.last()) {
                Some(id) => hits.push(
                    HitView {
                        ecosystem: Ecosystem::Winget,
                        id,
                        blurb: Some(paths.last()),
                        score: match score_of(id, query) {
                            Some(n) => n,
                            None => 400,
                        },
                    },
                ),
                None => hits,
            };
            (more, more.len() >= limit)
        }
    }
}

proof fn full_stays(paths: Seq<Seq<char>>, query: Seq<char>, limit: int, n: int)
    requires
        0 <= n <= paths.len(),
        winget_found(paths.take(n), query, limit).1,
    ensures
        winget_found(paths, query, limit) == winget_found(paths.take(n), query, limit),
    decreases paths.len() - n,
{
    if n < paths.len() {
        assert(paths.take(n + 1).drop_last() =~= paths.take(n));
        full_stays(paths, query, limit, n + 1);
    } else {
        assert(paths.take(n) =~= paths);
    }
}

/// The hits among the manifests that a search of winget-pkgs found.
pub fn winget_hits(paths: &Vec<String>, query: &str, limit: usize) -> (r: Vec<RemoteHit>)
    ensures
        hit_views(r@) == winget_found(text::views(paths@), query@, limit as int).0,
{
    let ghost s = text::views(paths@);
    let mut out: Vec<RemoteHit> = Vec::new();
    proof {
        assert(hit_views(out@) =~= winget_found(s.take(0), query@, limit as int).0);
    }
    for i in 0..paths.len()
        invariant
            s == text::views(paths@),
            hit_views(out@) == winget_found(s.take(i as int), query@, limit as int).0,
            !winget_found(s.take(i as int), query@, limit as int).1,
    {
        proof {
            assert(s.take(i + 1).drop_last() =~= s.take(i as int));
            assert(s.take(i + 1).last() == paths@[i as int]@);
        }
        let ghost before = hit_views(out@);
        match package_id_from_winget_manifest_path(paths[i].as_str()) {
            Some(id) => {
                let score: i32 = match match_score_token(id.as_str(), query) {
                    Some(n) => n,
                    None => 400,
                };
                let hit = RemoteHit {
                    ecosystem: Ecosystem::Winget,
                    id,
                    blurb: Some(paths[i].clone()),
                    score,
                };
                let ghost h = hit@;
                out.push(hit);
                proof {
                    assert(hit_views(out@) =~= before.push(h));
                }
            },
            None => {},
        }
        proof {
            assert(hit_views(out@).len() == out@.len());
        }
        if out.len() >= limit {
            proof {
                full_stays(s, query@, limit as int, i + 1);
            }
            return out;
        }
    }
    proof {
        assert(s.take(s.len() as int) =~= s);
    }
    out
}

// ---------------------------------------------------------------------------
// All catalogues

/// The packages of the Scoop bucket that fit.
pub open spec fn scoop_found(names: Seq<Seq<char>>, query: Seq<char>) -> Seq<HitView>
    decreases names.len(),
{
    if names.len() == 0 {
        Seq::empty()
    } else {
        let before = scoop_found(names.drop_last(), query);
        match score_of(names.last(), query) {
            Some(score) => before.push(
                HitView { ecosystem: Ecosystem::Scoop, id: names.last(), blurb: None, score },
            ),
            None => before,
        }
    }
}

/// What the Chocolatey gallery found; a name that does not fit the query still
/// counts for something.
pub open spec fn choco_found(ids: Seq<Seq<char>>, query: Seq<char>) -> Seq<HitView> {
    ids.map_values(
        |id: Seq<char>|
            HitView {
                ecosystem: Ecosystem::Chocolatey,
                id,
                blurb: None,
                score: match score_of(id, query) {
                    Some(n) => n,
                    None => 700,
                },
            },
    )
}

pub open spec fn list_views(v: Option<Vec<String>>) -> Option<Seq<Seq<char>>> {
    match v {
        Some(l) => Some(text::views(l@)),
        None => None,
    }
}

/// The hits of all catalogues that are searched: Scoop's, Chocolatey's, winget's.
/// A query of white space has none.
pub open spec fn all_found(
    query: Seq<char>,
    scoop: Option<Seq<Seq<char>>>,
    choco: Option<Seq<Seq<char>>>,
    winget: Option<Seq<Seq<char>>>,
) -> Seq<HitView> {
    let q = text::trim(query);
    if q.len() == 0 {
        Seq::empty()
    } else {
        (match scoop {
            Some(names) => scoop_found(names, q),
            None => Seq::empty(),
        }) + (match choco {
            Some(ids) => choco_found(ids, q),
            None => Seq::empty(),
        }) + (match winget {
            Some(paths) => winget_found(paths, q, 15).0,
            None => Seq::empty(),
        })
    }
}

fn scoop_hits(names: &Vec<String>, query: &str) -> (r: Vec<RemoteHit>)
    ensures
        hit_views(r@) == scoop_found(text::views(names@), query@),
{
    let ghost s = text::views(names@);
    let mut out: Vec<RemoteHit> = Vec::new();
    proof {
        assert(hit_views(out@) =~= scoop_found(s.take(0), query@));
    }
    for i in 0..names.len()
        invariant
            s == text::views(names@),
            hit_views(out@) == scoop_found(s.take(i as int), query@),
    {
        proof {
            assert(s.take(i + 1).drop_last() =~= s.take(i as int));
            assert(s.take(i + 1).last() == names@[i as int]@);
        }
        let ghost before = hit_views(out@);
        match match_score_token(names[i].as_str(), query) {
            Some(score) => {
                let hit = RemoteHit {
                    ecosystem: Ecosystem::Scoop,
                    id: names[i].clone(),
                    blurb: None,
                    score,
                };
                let ghost h = hit@;
                out.push(hit);
                proof {
                    assert(hit_views(out@) =~= before.push(h));
                }
            },
            None => {},
        }
    }
    proof {
        assert(s.take(s.len() as int) =~= s);
    }
    out
}

fn choco_hits(ids: &Vec<String>, query: &str) -> (r: Vec<RemoteHit>)
    ensures
        hit_views(r@) == choco_found(text::views(ids@), query@),
{
    let mut out: Vec<RemoteHit> = Vec::new();
    for i in 0..ids.len()
        invariant
            hit_views(out@) =~= choco_found(text::views(ids@), query@).take(i as int),
    {
        let score: i32 = match match_score_token(ids[i].as_str(), query) {
            Some(n) => n,
            None => 700,
        };
        let ghost before = hit_views(out@);
        let hit = RemoteHit { ecosystem: Ecosystem::Chocolatey, id: ids[i].clone(), blurb: None, score };
        let ghost h = hit@;
        out.push(hit);
        proof {
            assert(hit_views(out@) =~= before.push(h));
        }
    }
    out
}

/// The hits for a query. Each catalogue that is searched hands in what it found:
/// the names of the Scoop bucket, the ids of the Chocolatey gallery and the paths
/// of the winget manifests.
pub fn collect_remote_hits(
    query: &str,
    scoop: &Option<Vec<String>>,
    choco: &Option<Vec<String>>,
    winget: &Option<Vec<String>>,
) -> (r: Vec<RemoteHit>)
    ensures
        hit_views(r@) == all_found(query@, list_views(*scoop), list_views(*choco), list_views(*winget)),
{
    let c = chars_of(query);
    let q = string_of(trimmed(c.as_slice()));
    let mut hits: Vec<RemoteHit> = Vec::new();
    proof {
        assert(hit_views(hits@) =~= Seq::<HitView>::empty());
    }
    if q.as_str().is_empty() {
        return hits;
    }
    if let Some(names) = scoop {
        let mut found = scoop_hits(names, q.as_str());
        hits.append(&mut found);
    }
    if let Some(ids) = choco {
        let mut found = choco_hits(ids, q.as_str());
        hits.append(&mut found);
    }
    if let Some(paths) = winget {
        let mut found = winget_hits(paths, q.as_str(), 15);
        hits.append(&mut found);
    }
    proof {
        assert(hit_views(hits@) =~= all_found(
            query@,
            list_views(*scoop),
            list_views(*choco),
            list_views(*winget),
        ));
    }
    hits
}

// ---------------------------------------------------------------------------
// One hit for each package

/// `new` is shown in the place of `old`: it comes from a faster ecosystem, or from
/// one as fast with a higher score.
pub open spec fn preferred(new: HitView, old: HitView) -> bool {
    new.ecosystem.rank() < old.ecosystem.rank() || (new.ecosystem.rank() == old.ecosystem.rank()
        && new.score > old.score)
}

/// The hit that is kept for each lowercase id.
pub open spec fn kept(hits: Seq<HitView>) -> Map<Seq<char>, HitView>
    decreases hits.len(),
{
    if hits.len() == 0 {
        Map::empty()
    } else {
        let before = kept(hits.drop_last());
        let key = outside::lowercase(hits.last().id);
        if !before.contains_key(key) || preferred(hits.last(), before[key]) {
            before.insert(key, hits.last())
        } else {
            before
        }
    }
}

/// The order in which hits are shown: by falling score, then the faster ecosystem,
/// then the id.
pub open spec fn shown_before(a: HitView, b: HitView) -> bool {
    ||| a.score > b.score
    ||| a.score == b.score && a.ecosystem.rank() < b.ecosystem.rank()
    ||| a.score == b.score && a.ecosystem.rank() == b.ecosystem.rank() && order::less(a.id, b.id)
}

/// No hit comes after one that is shown later.
pub open spec fn in_order(s: Seq<HitView>) -> bool {
    forall|i: int, j: int| 0 <= i < j < s.len() ==> !shown_before(#[trigger] s[j], #[trigger] s[i])
}

/// `s` shows the hits of `m`, each once.
pub open spec fn shows(s: Seq<HitView>, m: Map<Seq<char>, HitView>) -> bool {
    &&& forall|i: int|
        0 <= i < s.len() ==> m.contains_key(outside::lowercase((#[trigger] s[i]).id))
            && m[outside::lowercase(s[i].id)] == s[i]
    &&& forall|k: Seq<char>| #[trigger] m.contains_key(k) ==> s.contains(m[k])
    &&& forall|i: int, j: int|
        0 <= i < j < s.len() ==> outside::lowercase((#[trigger] s[i]).id) != outside::lowercase(
            (#[trigger] s[j]).id,
        )
}

pub proof fn shown_before_is_transitive(a: HitView, b: HitView, c: HitView)
    requires
        shown_before(a, b),
        shown_before(b, c),
    ensures
        shown_before(a, c),
{
    if order::less(a.id, b.id) && order::less(b.id, c.id) {
        order::less_is_transitive(a.id, b.id, c.id);
    }
}

/// Of two hits that differ in id, one is shown before the other.
pub proof fn shown_before_is_total(a: HitView, b: HitView)
    ensures
        a.id != b.id ==> shown_before(a, b) || shown_before(b, a),
        !(shown_before(a, b) && shown_before(b, a)),
{
    order::less_is_total(a.id, b.id);
    if order::less(a.id, b.id) && order::less(b.id, a.id) {
        order::less_is_transitive(a.id, b.id, a.id);
        order::less_is_irreflexive(a.id);
    }
}

/// Where no lowercase id comes twice, every hit is kept.
proof fn distinct_are_kept(s: Seq<HitView>)
    requires
        forall|i: int, j: int|
            0 <= i < j < s.len() ==> outside::lowercase((#[trigger] s[i]).id)
                != outside::lowercase((#[trigger] s[j]).id),
    ensures
        forall|i: int|
            0 <= i < s.len() ==> kept(s).contains_key(outside::lowercase((#[trigger] s[i]).id))
                && kept(s)[outside::lowercase(s[i].id)] == s[i],
        forall|k: Seq<char>| #[trigger]
            kept(s).contains_key(k) ==> exists|i: int|
                0 <= i < s.len() && outside::lowercase((#[trigger] s[i]).id) == k,
    decreases s.len(),
{
    if s.len() > 0 {
        let t = s.drop_last();
        assert forall|i: int, j: int| 0 <= i < j < t.len() implies outside::lowercase(
            (#[trigger] t[i]).id,
        ) != outside::lowercase((#[trigger] t[j]).id) by {
            assert(t[i] == s[i] && t[j] == s[j]);
        }
        distinct_are_kept(t);
        let key = outside::lowercase(s.last().id);
        if kept(t).contains_key(key) {
            let i = choose|i: int| 0 <= i < t.len() && outside::lowercase((#[trigger] t[i]).id) == key;
            assert(t[i] == s[i]);
            assert(outside::lowercase(s[i].id) != outside::lowercase(s[s.len() - 1].id));
        }
        assert forall|i: int| 0 <= i < s.len() implies kept(s).contains_key(
            outside::lowercase((#[trigger] s[i]).id),
        ) && kept(s)[outside::lowercase(s[i].id)] == s[i] by {
            if i < t.len() {
                assert(t[i] == s[i]);
                assert(outside::lowercase(s[i].id) != outside::lowercase(s[s.len() - 1].id));
            }
        }
        assert forall|k: Seq<char>| #[trigger] kept(s).contains_key(k) implies exists|i: int|
            0 <= i < s.len() && outside::lowercase((#[trigger] s[i]).id) == k by {
            if k == key {
                assert(outside::lowercase(s[s.len() - 1].id) == k);
            } else {
                let i = choose|i: int| 0 <= i < t.len() && outside::lowercase((#[trigger] t[i]).id) == k;
                assert(t[i] == s[i]);
            }
        }
    }
}

/// Every hit is shown before those after it.
spec fn strictly_shown(s: Seq<HitView>) -> bool {
    forall|i: int, j: int| 0 <= i < j < s.len() ==> shown_before(#[trigger] s[i], #[trigger] s[j])
}

proof fn shown_strictly(s: Seq<HitView>, m: Map<Seq<char>, HitView>)
    requires
        in_order(s),
        shows(s, m),
    ensures
        strictly_shown(s),
{
    assert forall|i: int, j: int| 0 <= i < j < s.len() implies shown_before(
        #[trigger] s[i],
        #[trigger] s[j],
    ) by {
        assert(outside::lowercase(s[i].id) != outside::lowercase(s[j].id));
        shown_before_is_total(s[i], s[j]);
        assert(!shown_before(s[j], s[i]));
    }
}

/// There is one order in which the same hits are shown.
proof fn one_order(s: Seq<HitView>, t: Seq<HitView>)
    requires
        strictly_shown(s),
        strictly_shown(t),
        forall|h: HitView| s.contains(h) <==> t.contains(h),
    ensures
        s == t,
    decreases s.len(),
{
    if s.len() == 0 {
        if t.len() > 0 {
            assert(t.contains(t[0]));
            assert(s.contains(t[0]));
        }
        assert(s =~= t);
    } else {
        assert(s.contains(s[0]));
        assert(t.contains(s[0]));
        let j = choose|j: int| 0 <= j < t.len() && t[j] == s[0];
        assert(t.contains(t[0]));
        assert(s.contains(t[0]));
        let i = choose|i: int| 0 <= i < s.len() && s[i] == t[0];
        if j > 0 {
            assert(shown_before(t[0], t[j]));
            if i > 0 {
                assert(shown_before(s[0], s[i]));
            }
            shown_before_is_total(s[0], t[0]);
        }
        assert(s[0] == t[0]);
        let u = s.skip(1);
        let w = t.skip(1);
        assert forall|a: int, b: int| 0 <= a < b < u.len() implies shown_before(
            #[trigger] u[a],
            #[trigger] u[b],
        ) by {
            assert(u[a] == s[a + 1] && u[b] == s[b + 1]);
        }
        assert forall|a: int, b: int| 0 <= a < b < w.len() implies shown_before(
            #[trigger] w[a],
            #[trigger] w[b],
        ) by {
            assert(w[a] == t[a + 1] && w[b] == t[b + 1]);
        }
        assert forall|h: HitView| u.contains(h) <==> w.contains(h) by {
            tails_agree(s, t, h);
            tails_agree(t, s, h);
        }
        one_order(u, w);
        assert(s =~= seq![s[0]] + u);
        assert(t =~= seq![t[0]] + w);
    }
}

proof fn tails_agree(s: Seq<HitView>, t: Seq<HitView>, h: HitView)
    requires
        s.len() > 0,
        t.len() > 0,
        s[0] == t[0],
        strictly_shown(s),
        s.contains(h) ==> t.contains(h),
    ensures
        s.skip(1).contains(h) ==> t.skip(1).contains(h),
{
    if s.skip(1).contains(h) {
        let i = choose|i: int| 0 <= i < s.skip(1).len() && s.skip(1)[i] == h;
        assert(s[i + 1] == h);
        assert(s.contains(h));
        assert(shown_before(s[0], s[i + 1]));
        let j = choose|j: int| 0 <= j < t.len() && t[j] == h;
        if j == 0 {
            shown_before_is_total(h, h);
        } else {
            assert(t.skip(1)[j - 1] == h);
        }
    }
}

/// Deduplicating twice is deduplicating once: of hits that are shown, each once and
/// in order, the same are shown again in the same order.
pub proof fn deduping_is_idempotent(hits: Seq<HitView>, once: Seq<HitView>, twice: Seq<HitView>)
    requires
        in_order(once),
        shows(once, kept(hits)),
        in_order(twice),
        shows(twice, kept(once)),
    ensures
        twice == once,
{
    distinct_are_kept(once);
    shown_strictly(once, kept(hits));
    shown_strictly(twice, kept(once));
    assert forall|h: HitView| once.contains(h) <==> twice.contains(h) by {
        if once.contains(h) {
            let i = choose|i: int| 0 <= i < once.len() && once[i] == h;
            assert(kept(once).contains_key(outside::lowercase(once[i].id)));
        }
        if twice.contains(h) {
            let i = choose|i: int| 0 <= i < twice.len() && twice[i] == h;
            let k = outside::lowercase(twice[i].id);
            assert(kept(once).contains_key(k));
            let j = choose|j: int| 0 <= j < once.len() && outside::lowercase((#[trigger] once[j]).id) == k;
            assert(kept(once)[k] == once[j]);
        }
    }
    one_order(once, twice);
}

fn comes_before(a: &RemoteHit, b: &RemoteHit) -> (r: bool)
    ensures
        r == shown_before(a@, b@),
{
    let ra: u8 = a.ecosystem.speed_rank();
    let rb: u8 = b.ecosystem.speed_rank();
    if a.score != b.score {
        a.score > b.score
    } else if ra != rb {
        ra < rb
    } else {
        str_precedes(a.id.as_str(), b.id.as_str())
    }
}

/// Puts a hit where it belongs.
fn place_hit(v: &mut Vec<RemoteHit>, hit: RemoteHit)
    requires
        in_order(hit_views(old(v)@)),
    ensures
        in_order(hit_views(final(v)@)),
        exists|p: int|
            0 <= p <= old(v)@.len() && hit_views(final(v)@) == #[trigger] hit_views(old(v)@).insert(p, hit@),
{
    let ghost s = hit_views(v@);
    let mut p: usize = 0;
    while p < v.len() && !comes_before(&hit, &v[p])
        invariant
            p <= v@.len(),
            s == hit_views(v@),
            forall|k: int| 0 <= k < p ==> !shown_before(hit@, #[trigger] s[k]),
        decreases v@.len() - p,
    {
        p += 1;
    }
    let ghost h = hit@;
    v.insert(p, hit);
    proof {
        let t = hit_views(v@);
        assert(t =~= s.insert(p as int, h));
        assert forall|i: int, j: int| 0 <= i < j < t.len() implies !shown_before(
            #[trigger] t[j],
            #[trigger] t[i],
        ) by {
            if i == p {
                let b = s[j - 1];
                assert(t[j] == b);
                if shown_before(b, h) {
                    let a = s[p as int];
                    assert(shown_before(h, a));
                    shown_before_is_transitive(b, h, a);
                    if j - 1 > p {
                        assert(!shown_before(s[j - 1], s[p as int]));
                    } else {
                        shown_before_is_total(a, a);
                    }
                }
            } else if j == p {
                assert(t[i] == s[i]);
            } else {
                let i0 = if i < p {
                    i
                } else {
                    i - 1
                };
                let j0 = if j < p {
                    j
                } else {
                    j - 1
                };
                assert(t[i] == s[i0] && t[j] == s[j0]);
            }
        }
    }
}

/// Deduplicates by lowercase id, keeping the hit from the fastest ecosystem and of
/// those the one with the highest score.
pub fn dedupe_remote_by_speed(hits: Vec<RemoteHit>) -> (r: Vec<RemoteHit>)
    ensures
        in_order(hit_views(r@)),
        shows(hit_views(r@), kept(hit_views(hits@))),
{
    let ghost s = hit_views(hits@);
    let mut best: Table<RemoteHit> = Table::new();
    proof {
        assert(table::contents(best) =~= kept(s.take(0)));
    }
    for h in it: hits
        invariant
            s == hit_views(it.seq()),
            best.wf(),
            table::contents(best) == kept(s.take(it.index())),
    {
        let ghost k = it.index();
        let ghost hv = h@;
        let ghost before = table::contents(best);
        proof {
            assert(s.take(k + 1).drop_last() =~= s.take(k));
            assert(s.take(k + 1).last() == h@);
        }
        let key = lowercased(h.id.as_str());
        let replace = match best.get(key.as_str()) {
            None => true,
            Some(prev) => {
                let r_new: u8 = h.ecosystem.speed_rank();
                let r_old: u8 = prev.ecosystem.speed_rank();
                r_new < r_old || (r_new == r_old && h.score > prev.score)
            },
        };
        proof {
            assert(replace == (!before.contains_key(key@) || preferred(hv, before[key@])));
        }
        if replace {
            best.insert(key, h);
            proof {
                assert(table::contents(best) =~= before.insert(key@, hv));
            }
        }
    }
    proof {
        assert(s.take(s.len() as int) =~= s);
    }
    let ghost m = table::contents(best);
    let ghost t = best;
    proof {
        assert forall|i: int| 0 <= i < t.entries@.len() implies m.contains_key(
            (#[trigger] t.entries@[i]).name@,
        ) && m[t.entries@[i].name@] == t.entries@[i].value@ && t.entries@[i].name@
            == outside::lowercase(t.entries@[i].value@.id) by {
            table::entry_is_value(t, i);
            assert(table::named_at(t.entries@, t.entries@[i].name@, i));
            kept_by_key(s, t.entries@[i].name@);
        }
    }
    let mut out: Vec<RemoteHit> = Vec::new();
    for e in it: best.entries
        invariant
            it.seq() == t.entries@,
            t.wf(),
            m == table::contents(t),
            in_order(hit_views(out@)),
            forall|i: int|
                0 <= i < t.entries@.len() ==> m.contains_key((#[trigger] t.entries@[i]).name@)
                    && m[t.entries@[i].name@] == t.entries@[i].value@ && t.entries@[i].name@
                    == outside::lowercase(t.entries@[i].value@.id),
            placed(hit_views(out@), t.entries@, it.index()),
    {
        let ghost k = it.index();
        let ghost before = hit_views(out@);
        let ghost h = e.value@;
        place_hit(&mut out, e.value);
        proof {
            let p = choose|p: int|
                0 <= p <= before.len() && hit_views(out@) == #[trigger] before.insert(p, h);
            placing(before, hit_views(out@), t.entries@, k, p);
        }
    }
    proof {
        let o = hit_views(out@);
        assert forall|i: int| 0 <= i < o.len() implies m.contains_key(
            outside::lowercase((#[trigger] o[i]).id),
        ) && m[outside::lowercase(o[i].id)] == o[i] by {
            let j = choose|j: int| 0 <= j < t.entries@.len() && (#[trigger] t.entries@[j]).value@ == o[i];
            assert(m.contains_key(t.entries@[j].name@));
        }
        assert forall|k: Seq<char>| #[trigger] m.contains_key(k) implies o.contains(m[k]) by {
            assert(t@.contains_key(k));
            let j = choose|j: int| table::named_at(t.entries@, k, j);
            assert(m[t.entries@[j].name@] == t.entries@[j].value@);
            assert(o.contains(t.entries@[j].value@));
        }
    }
    out
}

/// What is kept for a key has that key.
proof fn kept_by_key(hits: Seq<HitView>, k: Seq<char>)
    requires
        kept(hits).contains_key(k),
    ensures
        k == outside::lowercase(kept(hits)[k].id),
        hits.contains(kept(hits)[k]),
    decreases hits.len(),
{
    let before = kept(hits.drop_last());
    let key = outside::lowercase(hits.last().id);
    if kept(hits)[k] == hits.last() && k == key {
        assert(hits[hits.len() - 1] == hits.last());
    } else {
        kept_by_key(hits.drop_last(), k);
        let i = choose|i: int| 0 <= i < hits.drop_last().len() && hits.drop_last()[i] == before[k];
        assert(hits[i] == before[k]);
    }
}

/// `o` holds the values of the first `n` entries, each once.
pub open spec fn placed(o: Seq<HitView>, entries: Seq<table::Entry<RemoteHit>>, n: int) -> bool {
    &&& forall|i: int|
        0 <= i < o.len() ==> exists|j: int|
            0 <= j < n && (#[trigger] entries[j]).value@ == #[trigger] o[i]
    &&& forall|j: int| 0 <= j < n ==> o.contains((#[trigger] entries[j]).value@)
    &&& forall|i: int, j: int|
        0 <= i < j < o.len() ==> outside::lowercase((#[trigger] o[i]).id) != outside::lowercase(
            (#[trigger] o[j]).id,
        )
}

proof fn placing(
    a: Seq<HitView>,
    b: Seq<HitView>,
    entries: Seq<table::Entry<RemoteHit>>,
    n: int,
    p: int,
)
    requires
        0 <= n < entries.len(),
        0 <= p <= a.len(),
        placed(a, entries, n),
        b == a.insert(p, entries[n].value@),
        forall|i: int|
            0 <= i < entries.len() ==> (#[trigger] entries[i]).name@ == outside::lowercase(
                entries[i].value@.id,
            ),
        forall|i: int, j: int|
            0 <= i < j < entries.len() ==> (#[trigger] entries[i]).name@ != (#[trigger] entries[j]).name@,
    ensures
        placed(b, entries, n + 1),
{
    let h = entries[n].value@;
    assert forall|i: int| 0 <= i < b.len() implies exists|j: int|
        0 <= j < n + 1 && (#[trigger] entries[j]).value@ == #[trigger] b[i] by {
        if i == p {
            assert(entries[n].value@ == b[i]);
        } else {
            let i0 = if i < p {
                i
            } else {
                i - 1
            };
            assert(b[i] == a[i0]);
            let j = choose|j: int| 0 <= j < n && (#[trigger] entries[j]).value@ == a[i0];
            assert(entries[j].value@ == b[i]);
        }
    }
    assert forall|j: int| 0 <= j < n + 1 implies b.contains((#[trigger] entries[j]).value@) by {
        if j == n {
            assert(b[p] == h);
        } else {
            let i = choose|i: int| 0 <= i < a.len() && a[i] == entries[j].value@;
            let i1 = if i < p {
                i
            } else {
                i + 1
            };
            assert(b[i1] == a[i]);
        }
    }
    assert forall|i: int| 0 <= i < a.len() implies outside::lowercase((#[trigger] a[i]).id)
        != outside::lowercase(h.id) by {
        let j = choose|j: int| 0 <= j < n && (#[trigger] entries[j]).value@ == a[i];
        assert(entries[j].name@ != entries[n].name@);
    }
    assert forall|i: int, j: int| 0 <= i < j < b.len() implies outside::lowercase(
        (#[trigger] b[i]).id,
    ) != outside::lowercase((#[trigger] b[j]).id) by {
        let i0 = if i < p {
            i
        } else {
            i - 1
        };
        let j0 = if j < p {
            j
        } else {
            j - 1
        };
        if i == p {
            assert(b[j] == a[j0]);
        } else if j == p {
            assert(b[i] == a[i0]);
        } else {
            assert(b[j] == a[j0] && b[i] == a[i0]);
        }
    }
}

/// Every hit is answered by one that is shown for the same lowercase id, was among
/// the hits, and that the hit itself is not preferred to.
pub proof fn best_hit_is_kept(hits: Seq<HitView>, i: int)
    requires
        0 <= i < hits.len(),
    ensures
        kept(hits).contains_key(outside::lowercase(hits[i].id)),
        !preferred(hits[i], kept(hits)[outside::lowercase(hits[i].id)]),
        hits.contains(kept(hits)[outside::lowercase(hits[i].id)]),
        outside::lowercase(kept(hits)[outside::lowercase(hits[i].id)].id) == outside::lowercase(hits[i].id),
    decreases hits.len(),
{
    let k = outside::lowercase(hits[i].id);
    if i < hits.len() - 1 {
        assert(hits.drop_last()[i] == hits[i]);
        best_hit_is_kept(hits.drop_last(), i);
    }
    assert(kept(hits).contains_key(k));
    kept_by_key(hits, k);
}

/// How a hit is installed.
pub open spec fn hint_of(h: HitView) -> Seq<char> {
    "wax install "@ + h.ecosystem.name() + "/"@ + h.id
}

/// The lines that show the hits: the ecosystem, the id and how to install it.
pub fn hit_hint(h: &RemoteHit) -> (r: String)
    ensures
        r@ == hint_of(h@),
{
    let mut r = String::from_str("wax install ");
    r.append(h.ecosystem.label());
    r.append("/");
    r.append(h.id.as_str());
    r
}

// ---------------------------------------------------------------------------
// Laws of what is found

/// The whole name fits best, then a name that begins with what is asked for, then one that
/// only holds it; no other fits.
pub proof fn fits_are_ranked(name: Seq<char>, query: Seq<char>)
    ensures
        fit(query, query) == Some(1000int),
        name != query && text::starts_with(name, query) ==> fit(name, query) == Some(900int),
        !text::starts_with(name, query) && text::contains(name, query) ==> fit(name, query) == Some(
            850int,
        ),
        !text::contains(name, query) ==> fit(name, query) is None,
{
    if name == query {
        assert(name.subrange(0, query.len() as int) =~= query);
        assert(text::starts_with(name, query));
    }
    if text::starts_with(name, query) {
        assert(text::occurs_at(name, query, 0));
    }
}

/// A manifest of the bucket is named by its file; one in a folder below it, or outside of
/// it, is none.
pub proof fn manifests_are_named_by_their_file(name: Seq<char>, path: Seq<char>)
    ensures
        !name.contains('/') ==> bucket_name("bucket/"@ + name + ".json"@) == Some(name),
        name.contains('/') ==> bucket_name("bucket/"@ + name + ".json"@) is None,
        !text::starts_with(path, "bucket/"@) ==> bucket_name(path) is None,
        !text::ends_with(path, ".json"@) ==> bucket_name(path) is None,
{
    let p = "bucket/"@ + (name + ".json"@);
    assert(p =~= "bucket/"@ + name + ".json"@);
    text::stripping_undoes_prefixing("bucket/"@, name + ".json"@);
    text::stripping_undoes_prefixing(name, ".json"@);
    if !text::ends_with(path, ".json"@) && text::strip_prefix(path, "bucket/"@) is Some {
        let rest = text::strip_prefix(path, "bucket/"@)->0;
        if text::ends_with(rest, ".json"@) {
            let n = ".json"@.len() as int;
            assert(path.subrange(path.len() - n, path.len() as int) =~= rest.subrange(
                rest.len() - n,
                rest.len() as int,
            ));
            assert(text::ends_with(path, ".json"@));
        }
    }
}

/// The names of a listing are those of the manifests in it, in their order.
pub proof fn listed_manifests_are_named(items: Seq<Json>, item: Json, path: Seq<char>, name: Seq<char>)
    ensures
        json::text_field(item, "path"@) == Some(path) && bucket_name(path) == Some(name)
            ==> bucket_names(items.push(item)) == bucket_names(items).push(name),
        json::text_field(item, "path"@) == Some(path) && bucket_name(path) is None ==> bucket_names(
            items.push(item),
        ) == bucket_names(items),
        json::text_field(item, "path"@) is None ==> bucket_names(items.push(item)) == bucket_names(
            items,
        ),
        bucket_names(Seq::empty()).len() == 0,
{
    assert(items.push(item).drop_last() =~= items);
}

proof fn first_piece_is_first(before: Seq<Seq<char>>, p: Seq<char>, after: Seq<Seq<char>>)
    requires
        !before.contains(p),
    ensures
        first_piece(before + seq![p] + after, p) == Some(before.len() as int),
        first_piece(before, p) is None,
    decreases before.len(),
{
    let all = before + seq![p] + after;
    if before.len() == 0 {
        assert(all[0] == p);
    } else {
        let t = before.skip(1);
        assert(before[0] != p);
        assert(!t.contains(p)) by {
            if t.contains(p) {
                let j = choose|j: int| 0 <= j < t.len() && t[j] == p;
                assert(before[j + 1] == p);
            }
        }
        first_piece_is_first(t, p, after);
        assert(all[0] == before[0]);
        assert(all.skip(1) =~= t + seq![p] + after);
    }
}

/// A folder of a version begins with a digit.
pub proof fn versions_begin_with_a_digit(s: Seq<char>)
    ensures
        version_folder(s) <==> s.len() > 0 && '0' <= s[0] <= '9',
{
}

/// The path of a manifest of winget gives the package: what stands between the letter and
/// the version, joined by dots.
pub proof fn manifest_paths_give_ids(
    before: Seq<Seq<char>>,
    letter: Seq<char>,
    id: Seq<Seq<char>>,
    version: Seq<char>,
    file: Seq<char>,
)
    requires
        !before.contains("manifests"@),
        id.len() > 0,
        forall|i: int| 0 <= i < before.len() ==> !(#[trigger] before[i]).contains('/'),
        forall|i: int| 0 <= i < id.len() ==> !(#[trigger] id[i]).contains('/'),
        !letter.contains('/') && !version.contains('/') && !file.contains('/'),
    ensures
        ({
            let path = text::join(
                before + seq!["manifests"@] + (seq![letter] + id + seq![version, file]),
                seq!['/'],
            );
            &&& version_folder(version) && text::ends_with(file, ".yaml"@) ==> manifest_id(path)
                == Some(text::join(id, seq!['.']))
            &&& !version_folder(version) ==> manifest_id(path) is None
            &&& !text::ends_with(file, ".yaml"@) ==> manifest_id(path) is None
        }),
{
    let after = seq![letter] + id + seq![version, file];
    let parts = before + seq!["manifests"@] + after;
    reveal_strlit("manifests");
    assert forall|i: int| 0 <= i < parts.len() implies !(#[trigger] parts[i]).contains('/') by {
        if i < before.len() {
            assert(parts[i] == before[i]);
        } else if i > before.len() + 1 && i < before.len() + 2 + id.len() {
            assert(parts[i] == id[i - before.len() - 2]);
        }
    }
    text::joining_is_undone_by_splitting(parts, '/');
    first_piece_is_first(before, "manifests"@, after);
    let m = before.len() as int;
    let tail = parts.skip(m + 2);
    assert(tail =~= id + seq![version, file]);
    assert(tail.last() == file);
    assert(tail[tail.len() - 2] == version);
    assert(tail.take(tail.len() - 2) =~= id);
}

/// Each path of a manifest is a hit, in its order, until there are as many as asked for; its
/// score is that of its package, or that of a poor fit.
pub proof fn winget_hits_are_their_manifests(
    paths: Seq<Seq<char>>,
    path: Seq<char>,
    id: Seq<char>,
    query: Seq<char>,
    limit: int,
)
    ensures
        ({
            let before = winget_found(paths, query, limit);
            let now = winget_found(paths.push(path), query, limit);
            &&& before.1 ==> now == before
            &&& !before.1 && manifest_id(path) is None ==> now.0 == before.0
            &&& !before.1 && manifest_id(path) == Some(id) ==> {
                &&& now.0.len() == before.0.len() + 1 && now.0.drop_last() == before.0
                &&& now.0.last().id == id
                &&& now.0.last().ecosystem == Ecosystem::Winget
                &&& now.0.last().blurb == Some(path)
                &&& score_of(id, query) is Some ==> Some(now.0.last().score) == score_of(id, query)
                &&& score_of(id, query) is None ==> now.0.last().score == 400
            }
            &&& now.1 <==> before.1 || now.0.len() >= limit
        }),
        winget_found(Seq::empty(), query, limit).0.len() == 0,
{
    assert(paths.push(path).drop_last() =~= paths);
    let now = winget_found(paths.push(path), query, limit);
    if !winget_found(paths, query, limit).1 && manifest_id(path) == Some(id) {
        assert(now.0.drop_last() =~= winget_found(paths, query, limit).0);
    }
}

/// Of the names of a bucket those that fit are hits, in their order; every package of the
/// other search is one.
pub proof fn hits_are_what_fits(names: Seq<Seq<char>>, name: Seq<char>, query: Seq<char>, i: int)
    ensures
        score_of(name, query) is None ==> scoop_found(names.push(name), query) == scoop_found(
            names,
            query,
        ),
        score_of(name, query) matches Some(n) ==> {
            let now = scoop_found(names.push(name), query);
            &&& now.len() == scoop_found(names, query).len() + 1
            &&& now.drop_last() == scoop_found(names, query)
            &&& now.last().id == name && now.last().score == n && now.last().blurb is None
            &&& now.last().ecosystem == Ecosystem::Scoop
        },
        scoop_found(Seq::empty(), query).len() == 0,
        choco_found(names, query).len() == names.len(),
        0 <= i < names.len() ==> {
            let h = choco_found(names, query)[i];
            &&& h.id == names[i] && h.blurb is None && h.ecosystem == Ecosystem::Chocolatey
            &&& score_of(names[i], query) is Some ==> Some(h.score) == score_of(names[i], query)
            &&& score_of(names[i], query) is None ==> h.score == 700
        },
        score_of(name, query) == fit(outside::lowercase(name), outside::lowercase(query)),
{
    assert(names.push(name).drop_last() =~= names);
    let now = scoop_found(names.push(name), query);
    if score_of(name, query) is Some {
        assert(now.drop_last() =~= scoop_found(names, query));
    }
}

/// All that was found is shown: of the bucket, of the other search and at most as many as
/// fit on a page of winget. An empty query finds nothing.
pub proof fn all_sources_are_searched(
    query: Seq<char>,
    scoop: Seq<Seq<char>>,
    choco: Seq<Seq<char>>,
    winget: Seq<Seq<char>>,
)
    ensures
        text::trim(query).len() == 0 ==> all_found(query, Some(scoop), Some(choco), Some(winget)).len()
            == 0,
        text::trim(query).len() > 0 ==> ({
            let q = text::trim(query);
            &&& all_found(query, Some(scoop), None, None) == scoop_found(scoop, q)
            &&& all_found(query, None, Some(choco), None) == choco_found(choco, q)
            &&& all_found(query, None, None, Some(winget)) == winget_found(winget, q, 15).0
            &&& all_found(query, None, None, None).len() == 0
            &&& all_found(query, Some(scoop), Some(choco), Some(winget)) == all_found(
                query,
                Some(scoop),
                None,
                None,
            ) + all_found(query, None, Some(choco), None) + all_found(
                query,
                None,
                None,
                Some(winget),
            )
        }),
{
    let q = text::trim(query);
    let e = Seq::<HitView>::empty();
    if q.len() > 0 {
        assert(scoop_found(scoop, q) + e + e =~= scoop_found(scoop, q));
        assert(e + choco_found(choco, q) + e =~= choco_found(choco, q));
        assert(e + e + winget_found(winget, q, 15).0 =~= winget_found(winget, q, 15).0);
    }
}

/// A hit is preferred for the speed of its ecosystem, and only among equals for its score.
pub proof fn speed_is_preferred(a: HitView, b: HitView)
    ensures
        preferred(a, b) ==> !preferred(b, a),
        a.ecosystem.rank() < b.ecosystem.rank() ==> preferred(a, b),
        a.ecosystem == b.ecosystem && a.score > b.score ==> preferred(a, b),
        a.ecosystem == b.ecosystem && a.score == b.score ==> !preferred(a, b),
        a.score > b.score ==> shown_before(a, b),
        a.score == b.score && a.ecosystem.rank() < b.ecosystem.rank() ==> shown_before(a, b),
        a.score == b.score && a.ecosystem == b.ecosystem && order::less(a.id, b.id)
            ==> shown_before(a, b),
{
}

/// The hint of a hit names its package with its ecosystem, so that installing it asks that
/// ecosystem for it.
pub proof fn hints_name_the_package(h: HitView)
    ensures
        text::starts_with(hint_of(h), "wax install "@),
        crate::package_spec::forced(hint_of(h).skip("wax install "@.len() as int)) == Some(
            h.ecosystem,
        ),
        crate::package_spec::bare_name(hint_of(h).skip("wax install "@.len() as int)) == h.id,
{
    let p = "wax install "@;
    let rest = h.ecosystem.name() + "/"@ + h.id;
    assert(hint_of(h) =~= p + rest);
    assert(hint_of(h).subrange(0, p.len() as int) =~= p);
    assert(hint_of(h).skip(p.len() as int) =~= rest);
    crate::package_spec::label_qualifies(h.ecosystem, h.id);
}

/// The search for manifests asks for installers of the one repository, with the query in
/// an encoding that is safe in an address and as many results as are wanted.
pub proof fn searches_ask_for_installers(query: Seq<char>, limit: nat)
    ensures
        winget_search_address(query, limit) == "https://api.github.com/search/code?q="@
            + outside::percent_encoded(utf8::encode_utf8(query))
            + "+filename:installer.yaml+repo:microsoft/winget-pkgs+path:/manifests/"@
            + "&per_page="@ + text::decimal(limit),
{
}

}
