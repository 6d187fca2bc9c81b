//! Updating the package index.
use crate::text;
use crate::text::number;
use crate::timing;
use crate::timing::{elapsed_suffix, Timing};
use vstd::prelude::*;

verus! {

/// What is known of the index that was fetched last.
#[derive(Debug)]
pub struct CacheMetadata {
    pub last_updated: i64,
    pub formula_count: usize,
    pub cask_count: usize,
    pub formulae_etag: Option<String>,
    pub formulae_last_modified: Option<String>,
    pub casks_etag: Option<String>,
    pub casks_last_modified: Option<String>,
}

/// The mathematical content of a `CacheMetadata`.
pub struct MetadataView {
    pub last_updated: int,
    pub formula_count: nat,
    pub cask_count: nat,
    pub formulae_etag: Option<Seq<char>>,
    pub formulae_last_modified: Option<Seq<char>>,
    pub casks_etag: Option<Seq<char>>,
    pub casks_last_modified: Option<Seq<char>>,
}

impl View for CacheMetadata {
    type V = MetadataView;

    open spec fn view(&self) -> MetadataView {
        MetadataView {
            last_updated: self.last_updated as int,
            formula_count: self.formula_count as nat,
            cask_count: self.cask_count as nat,
            formulae_etag: text::opt_view(self.formulae_etag),
            formulae_last_modified: text::opt_view(self.formulae_last_modified),
            casks_etag: text::opt_view(self.casks_etag),
            casks_last_modified: text::opt_view(self.casks_last_modified),
        }
    }
}

/// A `CacheMetadata` is seen as what it holds.
pub proof fn cache_metadata_is_seen_as_it_is(x: CacheMetadata)
    ensures
        x@.last_updated == x.last_updated as int,
        x@.formula_count == x.formula_count as nat,
        x@.cask_count == x.cask_count as nat,
        x@.formulae_etag == text::opt_view(x.formulae_etag),
        x@.formulae_last_modified == text::opt_view(x.formulae_last_modified),
        x@.casks_etag == text::opt_view(x.casks_etag),
        x@.casks_last_modified == text::opt_view(x.casks_last_modified),
{
}

/// What a server answered when it was asked for a list that may have changed.
#[derive(Debug)]
pub struct FetchResult {
    pub not_modified: bool,
    /// How many items came, if any did.
    pub count: Option<usize>,
    pub etag: Option<String>,
    pub last_modified: Option<String>,
}

/// What is done with an answer.
#[derive(Debug, Clone, Copy, PartialEq, Eq, Structural)]
pub enum IndexStep {
    /// The list that came is saved; it has so many items.
    Save(usize),
    /// The list that was fetched before stands.
    Keep,
}

/// What is done with an answer: a list is saved that came because it changed.
pub fn process_fetch(fetch: &FetchResult) -> (r: IndexStep)
    ensures
        r == if fetch.not_modified {
            IndexStep::Keep
        } else {
            match fetch.count {
                Some(n) => IndexStep::Save(n),
                None => IndexStep::Keep,
            }
        },
{
    if fetch.not_modified {
        return IndexStep::Keep;
    }
    match fetch.count {
        Some(n) => IndexStep::Save(n),
        None => IndexStep::Keep,
    }
}

/// A tag that came, or else the one that was known.
pub open spec fn tag_or(new: Option<Seq<char>>, known: Option<Seq<char>>) -> Option<Seq<char>> {
    match new {
        Some(t) => Some(t),
        None => known,
    }
}

fn either(new: &Option<String>, known: Option<String>) -> (r: Option<String>)
    ensures
        text::opt_view(r) == tag_or(text::opt_view(*new), text::opt_view(known)),
{
    match new {
        Some(t) => Some(t.clone()),
        None => known,
    }
}

/// The tags that are known.
pub open spec fn known(m: Option<&CacheMetadata>) -> (
    Option<Seq<char>>,
    Option<Seq<char>>,
    Option<Seq<char>>,
    Option<Seq<char>>,
) {
    match m {
        Some(x) => (
            x@.formulae_etag,
            x@.formulae_last_modified,
            x@.casks_etag,
            x@.casks_last_modified,
        ),
        None => (None, None, None, None),
    }
}

/// What is known of the index now.
pub fn save_new_metadata(
    old_metadata: Option<&CacheMetadata>,
    formula_count: usize,
    cask_count: usize,
    formulae: &FetchResult,
    casks: &FetchResult,
    now: i64,
) -> (r: CacheMetadata)
    ensures
        r@ == (MetadataView {
            last_updated: now as int,
            formula_count: formula_count as nat,
            cask_count: cask_count as nat,
            formulae_etag: tag_or(text::opt_view(formulae.etag), known(old_metadata).0),
            formulae_last_modified: tag_or(
                text::opt_view(formulae.last_modified),
                known(old_metadata).1,
            ),
            casks_etag: tag_or(text::opt_view(casks.etag), known(old_metadata).2),
            casks_last_modified: tag_or(
                text::opt_view(casks.last_modified),
                known(old_metadata).3,
            ),
        }),
{
    let (a, b, c, d) = match old_metadata {
        Some(m) => (
            m.formulae_etag.clone(),
            m.formulae_last_modified.clone(),
            m.casks_etag.clone(),
            m.casks_last_modified.clone(),
        ),
        None => (None, None, None, None),
    };
    CacheMetadata {
        last_updated: now,
        formula_count,
        cask_count,
        formulae_etag: either(&formulae.etag, a),
        formulae_last_modified: either(&formulae.last_modified, b),
        casks_etag: either(&casks.etag, c),
        casks_last_modified: either(&casks.last_modified, d),
    }
}

/// What changed.
pub open spec fn core_status(formulae_not_modified: bool, casks_not_modified: bool) -> Seq<char> {
    if formulae_not_modified && casks_not_modified {
        "up to date"@
    } else if formulae_not_modified {
        "updated casks"@
    } else if casks_not_modified {
        "updated formulae"@
    } else {
        "updated"@
    }
}

/// The last line of an update.
pub fn print_update_status(
    formulae_not_modified: bool,
    casks_not_modified: bool,
    formula_count: usize,
    cask_count: usize,
    tap_count: usize,
    timing: &Timing,
    ms: u128,
) -> (r: String)
    ensures
        r@ == core_status(formulae_not_modified, casks_not_modified) + " · "@ + text::decimal(
            formula_count as nat,
        ) + " formulae, "@ + text::decimal(cask_count as nat) + " casks"@ + (if tap_count > 0 {
            ", "@ + text::decimal(tap_count as nat) + (if tap_count == 1 {
                " tap"@
            } else {
                " taps"@
            })
        } else {
            ""@
        }) + (if timing.show {
            timing::shown_time(ms as nat)
        } else {
            Seq::empty()
        }),
{
    let status = if formulae_not_modified && casks_not_modified {
        "up to date"
    } else if formulae_not_modified {
        "updated casks"
    } else if casks_not_modified {
        "updated formulae"
    } else {
        "updated"
    };
    let mut m = String::from_str(status);
    m.append(" · ");
    m.append(number(formula_count as u128).as_str());
    m.append(" formulae, ");
    m.append(number(cask_count as u128).as_str());
    m.append(" casks");
    if tap_count > 0 {
        let mut t = String::from_str(", ");
        t.append(number(tap_count as u128).as_str());
        if tap_count == 1 {
            t.append(" tap");
        } else {
            t.append(" taps");
        }
        m.append(t.as_str());
    } else {
        m.append("");
    }
    m.append(elapsed_suffix(timing, ms).as_str());
    m
}

// ---------------------------------------------------------------------------
// Laws

/// A new mark replaces a known one; without a new one the known one stays.
pub proof fn new_marks_replace_known(new: Seq<char>, known_one: Option<Seq<char>>)
    ensures
        tag_or(Some(new), known_one) == Some(new),
        tag_or(None, known_one) == known_one,
{
}

/// What is known is what the last metadata says; without any nothing is.
pub proof fn last_metadata_is_known(m: CacheMetadata)
    ensures
        known(Some(&m)).0 == m@.formulae_etag,
        known(Some(&m)).1 == m@.formulae_last_modified,
        known(Some(&m)).2 == m@.casks_etag,
        known(Some(&m)).3 == m@.casks_last_modified,
        known(None).0 is None && known(None).1 is None && known(None).2 is None && known(None).3
            is None,
{
}

/// The status tells which of the two lists changed.
pub proof fn status_tells_what_changed()
    ensures
        core_status(true, true) == "up to date"@,
        core_status(true, false) == "updated casks"@,
        core_status(false, true) == "updated formulae"@,
        core_status(false, false) == "updated"@,
{
}

}
