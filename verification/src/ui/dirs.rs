//! Where wax keeps its files.
use crate::paths;
use crate::error::{Result, WaxError};
use crate::paths::below;
use vstd::prelude::*;

verus! {

/// What is said when there is no home directory.
pub open spec fn no_home() -> Seq<char> {
    "$HOME environment variable is not set. Cannot determine home directory."@
}

/// The result for a place that is known only with a home directory.
pub open spec fn place(r: Result<String>, home: Option<Seq<char>>, path: spec_fn(Seq<char>) -> Seq<char>) -> bool {
    match home {
        Some(h) => r matches Ok(p) && p@ == path(h),
        None => r matches Err(WaxError::InstallError(m)) && m@ == no_home(),
    }
}

pub open spec fn str_view(s: Option<&str>) -> Option<Seq<char>> {
    match s {
        Some(x) => Some(x@),
        None => None,
    }
}

/// The home directory, where `$HOME` is set.
pub fn home_dir(home: Option<&str>) -> (r: Result<String>)
    ensures
        place(r, str_view(home), |h: Seq<char>| h),
{
    match home {
        Some(h) => Ok(String::from_str(h)),
        None => Err(
            WaxError::InstallError(
                String::from_str(
                    "$HOME environment variable is not set. Cannot determine home directory.",
                ),
            ),
        ),
    }
}

/// Central wax data directory: ~/.wax
pub fn wax_dir(home: Option<&str>) -> (r: Result<String>)
    ensures
        place(r, str_view(home), |h: Seq<char>| paths::path_join(h, ".wax"@)),
{
    match home_dir(home) {
        Ok(h) => Ok(below(h.as_str(), ".wax")),
        Err(e) => Err(e),
    }
}

pub fn wax_cache_dir(home: Option<&str>) -> (r: Result<String>)
    ensures
        place(r, str_view(home), |h: Seq<char>| paths::path_join(paths::path_join(h, ".wax"@), "cache"@)),
{
    match wax_dir(home) {
        Ok(d) => Ok(below(d.as_str(), "cache")),
        Err(e) => Err(e),
    }
}

pub fn wax_logs_dir(home: Option<&str>) -> (r: Result<String>)
    ensures
        place(r, str_view(home), |h: Seq<char>| paths::path_join(paths::path_join(h, ".wax"@), "logs"@)),
{
    match wax_dir(home) {
        Ok(d) => Ok(below(d.as_str(), "logs")),
        Err(e) => Err(e),
    }
}

/// A place is below the home of the user; without a home there is none, and the error says
/// why.
pub proof fn places_need_a_home(r: Result<String>, home: Seq<char>, path: spec_fn(Seq<char>) -> Seq<char>)
    ensures
        place(r, Some(home), path) <==> (r matches Ok(p) && p@ == path(home)),
        place(r, None, path) <==> (r matches Err(WaxError::InstallError(m)) && m@
            == "$HOME environment variable is not set. Cannot determine home directory."@),
{
}

}
