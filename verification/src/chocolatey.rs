//! The Chocolatey community gallery: what a search page lists, and which files of
//! a package are portable executables. Packages that need `chocolateyinstall.ps1`
//! are refused.
use crate::cask;
use crate::cask::extension_of;
use crate::error::{ErrorView, Result, WaxError};
use crate::formula_parser;
use crate::formula_parser::{groups_in, matches_of};
use crate::outside::{lowercased, percent_encode};
use crate::paths::{below, name_of};
use crate::scoop;
use crate::scoop::{wax_bin_dir, wax_user_root};
use crate::text::{chars_of, has, lowered, same_str, string_of, trimmed};
use crate::ui::dirs;
use crate::{outside, paths, text};
use vstd::prelude::*;
use vstd::utf8;

verus! {

/// How deep below `tools/` executables are looked for.
pub const MAX_TOOL_DEPTH: u32 = 4;

// ---------------------------------------------------------------------------
// Searching

/// The address of the search page; a query of white space is not searched for.
pub fn search_url(query: &str) -> (r: Option<String>)
    ensures
        text::opt_view(r) == if text::trim(query@).len() == 0 {
            None
        } else {
            Some(
                "https://community.chocolatey.org/packages?q="@ + outside::percent_encoded(
                    utf8::encode_utf8(query@),
                ),
            )
        },
{
    let c = chars_of(query);
    if trimmed(c.as_slice()).len() == 0 {
        return None;
    }
    let mut r = String::from_str("https://community.chocolatey.org/packages?q=");
    r.append(percent_encode(query).as_str());
    Some(r)
}

/// Takes the ids in order, each once, until `limit` of them are there.
pub open spec fn taken(ids: Seq<Seq<char>>, limit: int) -> (Seq<Seq<char>>, bool)
    decreases ids.len(),
{
    if ids.len() == 0 {
        (Seq::empty(), false)
    } else {
        let (out, full) = taken(ids.drop_last(), limit);
        if full {
            (out, true)
        } else {
            let more = if out.contains(ids.last()) {
                out
            } else {
                out.push(ids.last())
            };
            (more, more.len() >= limit)
        }
    }
}

proof fn full_stays(ids: Seq<Seq<char>>, limit: int, n: int)
    requires
        0 <= n <= ids.len(),
        taken(ids.take(n), limit).1,
    ensures
        taken(ids, limit) == taken(ids.take(n), limit),
    decreases ids.len() - n,
{
    if n < ids.len() {
        assert(ids.take(n + 1).drop_last() =~= ids.take(n));
        full_stays(ids, limit, n + 1);
    } else {
        assert(ids.take(n) =~= ids);
    }
}

/// No id is taken twice, each was found, and there are no more than asked for.
pub proof fn taken_are_distinct(ids: Seq<Seq<char>>, limit: int)
    requires
        limit > 0,
    ensures
        taken(ids, limit).0.no_duplicates(),
        taken(ids, limit).0.len() <= limit,
        forall|i: int| 0 <= i < taken(ids, limit).0.len() ==> ids.contains(#[trigger] taken(ids, limit).0[i]),
        !taken(ids, limit).1 ==> taken(ids, limit).0.len() < limit,
        !taken(ids, limit).1 ==> forall|i: int| 0 <= i < ids.len() ==> taken(ids, limit).0.contains(#[trigger] ids[i]),
    decreases ids.len(),
{
    if ids.len() > 0 {
        let before = ids.drop_last();
        taken_are_distinct(before, limit);
        let out = taken(before, limit).0;
        assert forall|i: int| 0 <= i < taken(ids, limit).0.len() implies ids.contains(
            #[trigger] taken(ids, limit).0[i],
        ) by {
            if i < out.len() {
                let k = choose|k: int| 0 <= k < before.len() && before[k] == out[i];
                assert(ids[k] == out[i]);
            } else {
                assert(ids[ids.len() - 1] == ids.last());
            }
        }
        if !taken(ids, limit).1 {
            assert forall|i: int| 0 <= i < ids.len() implies taken(ids, limit).0.contains(
                #[trigger] ids[i],
            ) by {
                if i < before.len() {
                    assert(out.contains(before[i]));
                    let k = choose|k: int| 0 <= k < out.len() && out[k] == before[i];
                    assert(taken(ids, limit).0[k] == ids[i]);
                } else if !out.contains(ids.last()) {
                    assert(taken(ids, limit).0[out.len() as int] == ids.last());
                }
            }
        }
    }
}

/// The first `limit` different ids.
pub fn take_ids(ids: &Vec<String>, limit: usize) -> (r: Vec<String>)
    ensures
        text::views(r@) == taken(text::views(ids@), limit as int).0,
{
    let ghost s = text::views(ids@);
    let mut out: Vec<String> = Vec::new();
    proof {
        assert(text::views(out@) =~= taken(s.take(0), limit as int).0);
    }
    for i in 0..ids.len()
        invariant
            s == text::views(ids@),
            text::views(out@) == taken(s.take(i as int), limit as int).0,
            !taken(s.take(i as int), limit as int).1,
    {
        let ghost before = text::views(out@);
        proof {
            assert(s.take(i + 1).drop_last() =~= s.take(i as int));
            assert(s.take(i + 1).last() == ids@[i as int]@);
        }
        let mut seen = false;
        for j in 0..out.len()
            invariant
                i < ids@.len(),
                before == text::views(out@),
                seen == before.take(j as int).contains(ids@[i as int]@),
        {
            proof {
                assert(before.take(j + 1) =~= before.take(j as int).push(before[j as int]));
                assert(before[j as int] == out@[j as int]@);
                let x = ids@[i as int]@;
                if before.take(j as int).contains(x) {
                    let k = choose|k: int| 0 <= k < j && before.take(j as int)[k] == x;
                    assert(before.take(j + 1)[k] == x);
                }
                if before[j as int] == x {
                    assert(before.take(j + 1)[j as int] == x);
                }
            }
            if same_str(out[j].as_str(), ids[i].as_str()) {
                seen = true;
            }
        }
        proof {
            assert(before.take(before.len() as int) =~= before);
            assert(before.len() == out@.len());
        }
        if !seen {
            out.push(ids[i].clone());
            proof {
                assert(text::views(out@) =~= before.push(s[i as int]));
            }
        }
        proof {
            assert(text::views(out@).len() == out@.len());
        }
        if out.len() >= limit {
            proof {
                full_stays(s, limit as int, i + 1);
            }
            return out;
        }
    }
    proof {
        assert(s.take(s.len() as int) =~= s);
    }
    out
}

/// The pattern of a link to a package on the search page.
pub open spec fn link_pattern() -> Seq<char> {
    "href=\"/packages/([^\"#?]+)"@
}

/// The texts in lowercase.
pub open spec fn in_lowercase(ids: Seq<Seq<char>>) -> Seq<Seq<char>> {
    ids.map_values(|id: Seq<char>| outside::lowercase(id))
}

fn lowercase_ids(ids: &Vec<String>) -> (r: Vec<String>)
    ensures
        text::views(r@) == in_lowercase(text::views(ids@)),
{
    let mut out: Vec<String> = Vec::new();
    for i in 0..ids.len()
        invariant
            text::views(out@) =~= in_lowercase(text::views(ids@)).take(i as int),
    {
        let ghost before = text::views(out@);
        let id = lowercased(ids[i].as_str());
        let ghost x = id@;
        out.push(id);
        proof {
            assert(text::views(out@) =~= before.push(x));
        }
    }
    out
}

/// The packages that a search page links to, by their lowercase ids.
pub fn search_package_ids(html: &str, limit: usize) -> (r: Vec<String>)
    ensures
        text::views(r@) == taken(
            in_lowercase(
                formula_parser::first_groups(
                    formula_parser::matches_or_none(outside::regex_captures(link_pattern(), html@)),
                ),
            ),
            limit as int,
        ).0,
{
    let found = matches_of("href=\"/packages/([^\"#?]+)", html);
    let ids = groups_in(&found);
    take_ids(&lowercase_ids(&ids), limit)
}

// ---------------------------------------------------------------------------
// Installing

/// The address of a package.
pub fn nupkg_url(id: &str) -> (r: String)
    ensures
        r@ == "https://community.chocolatey.org/api/v2/package/"@ + id@,
{
    let mut r = String::from_str("https://community.chocolatey.org/api/v2/package/");
    r.append(id);
    r
}

/// What a directory holds.
#[derive(Debug)]
pub enum FileTree {
    File(String),
    Folder(Vec<FileTree>),
}

/// An executable that is not part of an uninstaller or of Chocolatey itself.
pub open spec fn is_portable(path: Seq<char>) -> bool {
    match paths::file_name(path) {
        Some(name) => {
            let lower = outside::lowercase(name);
            &&& cask::extension(name) matches Some(e) && text::ascii_lower(e) == "exe"@
            &&& !text::contains(lower, "uninstall"@)
            &&& !text::contains(lower, "chocolatey"@)
        },
        None => false,
    }
}

pub fn is_portable_exe(path: &str) -> (r: bool)
    ensures
        r == is_portable(path@),
{
    match name_of(path) {
        Some(name) => {
            let exe = match extension_of(name.as_str()) {
                Some(e) => {
                    let c = chars_of(e.as_str());
                    let l = lowered(c.as_slice());
                    same_str(string_of(l.as_slice()).as_str(), "exe")
                },
                None => false,
            };
            let lower = chars_of(lowercased(name.as_str()).as_str());
            let removes = has(lower.as_slice(), "uninstall");
            let own = has(lower.as_slice(), "chocolatey");
            exe && !removes && !own
        },
        None => false,
    }
}

/// The portable executables of a directory, down to a depth.
pub open spec fn portable_in(items: Seq<FileTree>, depth: int, max_depth: int) -> Seq<Seq<char>>
    decreases max_depth + 1 - depth, items.len(),
{
    if depth > max_depth || items.len() == 0 {
        Seq::empty()
    } else {
        portable_in(items.drop_last(), depth, max_depth) + match items.last() {
            FileTree::File(p) => if is_portable(p@) {
                seq![p@]
            } else {
                Seq::empty()
            },
            FileTree::Folder(v) => portable_in(v@, depth + 1, max_depth),
        }
    }
}

pub fn collect_exe_files(items: &Vec<FileTree>, depth: u32, max_depth: u32) -> (r: Vec<String>)
    requires
        max_depth < u32::MAX,
    ensures
        text::views(r@) == portable_in(items@, depth as int, max_depth as int),
    decreases max_depth + 1 - depth,
{
    let mut out: Vec<String> = Vec::new();
    proof {
        assert(text::views(out@) =~= Seq::<Seq<char>>::empty());
    }
    if depth > max_depth {
        return out;
    }
    let ghost s = items@;
    for i in 0..items.len()
        invariant
            s == items@,
            depth <= max_depth < u32::MAX,
            text::views(out@) == portable_in(s.take(i as int), depth as int, max_depth as int),
    {
        let ghost before = text::views(out@);
        proof {
            assert(s.take(i + 1).drop_last() =~= s.take(i as int));
            assert(s.take(i + 1).last() == s[i as int]);
        }
        match &items[i] {
            FileTree::File(p) => {
                if is_portable_exe(p.as_str()) {
                    out.push(p.clone());
                    proof {
                        assert(text::views(out@) =~= before + seq![p@]);
                    }
                } else {
                    proof {
                        assert(before + Seq::<Seq<char>>::empty() =~= before);
                    }
                }
            },
            FileTree::Folder(v) => {
                let mut inner = collect_exe_files(v, depth + 1, max_depth);
                let ghost more = text::views(inner@);
                out.append(&mut inner);
                proof {
                    assert(text::views(out@) =~= before + more);
                }
            },
        }
    }
    proof {
        assert(s.take(s.len() as int) =~= s);
    }
    out
}

/// Everything that is collected is a portable executable.
pub proof fn collected_are_portable(items: Seq<FileTree>, depth: int, max_depth: int, i: int)
    requires
        0 <= i < portable_in(items, depth, max_depth).len(),
    ensures
        is_portable(portable_in(items, depth, max_depth)[i]),
    decreases max_depth + 1 - depth, items.len(),
{
    let before = portable_in(items.drop_last(), depth, max_depth);
    if i < before.len() {
        collected_are_portable(items.drop_last(), depth, max_depth, i);
    } else {
        match items.last() {
            FileTree::File(p) => {},
            FileTree::Folder(v) => {
                collected_are_portable(v@, depth + 1, max_depth, i - before.len());
            },
        }
    }
}

/// What is said of a package without the directory, and of one without a portable
/// executable.
pub open spec fn no_tools() -> Seq<char> {
    "Chocolatey package has no tools/ directory in .nupkg (wax cannot run install scripts)"@
}

pub open spec fn no_portable() -> Seq<char> {
    "No suitable portable .exe under tools/ (this package likely needs choco.exe + PowerShell)"@
}

/// Portable packages are for Windows.
pub fn check_platform(windows: bool) -> (r: Result<()>)
    ensures
        if windows {
            r is Ok
        } else {
            r matches Err(e) && e@ == ErrorView::PlatformNotSupported(
                "Chocolatey-backed portable install is only supported on Windows"@,
            )
        },
{
    if windows {
        Ok(())
    } else {
        Err(
            WaxError::PlatformNotSupported(
                String::from_str("Chocolatey-backed portable install is only supported on Windows"),
            ),
        )
    }
}

/// Where the files of a package go: the directory of executables, the one that
/// keeps the package, and for each executable its copy.
pub struct PortableInstall {
    pub bin_dir: String,
    pub staging: String,
    pub copies: Vec<(String, String)>,
}

/// What `tools/` of a package leads to.
pub open spec fn portable_plan(
    r: Result<PortableInstall>,
    id: Seq<char>,
    tools: Option<Seq<FileTree>>,
    home: Option<Seq<char>>,
) -> bool {
    match tools {
        None => r matches Err(e) && e@ == ErrorView::InstallError(no_tools()),
        Some(items) => {
            let exes = portable_in(items, 0, MAX_TOOL_DEPTH as int);
            if exes.len() == 0 {
                r matches Err(e) && e@ == ErrorView::InstallError(no_portable())
            } else {
                match home {
                    None => r matches Err(e) && e@ == ErrorView::InstallError(dirs::no_home()),
                    Some(h) => r matches Ok(plan) && {
                        &&& plan.bin_dir@ == scoop::bin_dir(h)
                        &&& plan.staging@ == paths::path_join(
                            paths::path_join(scoop::user_root(h), "choco-apps"@),
                            id,
                        )
                        &&& plan.copies@.len() == exes.len()
                        &&& forall|i: int|
                            0 <= i < exes.len() ==> (#[trigger] plan.copies@[i]).0@ == exes[i]
                                && plan.copies@[i].1@ == paths::path_join(
                                scoop::bin_dir(h),
                                paths::file_name(exes[i])->0,
                            )
                    },
                }
            }
        },
    }
}

/// Plans the installation of a package from what its `tools/` holds.
pub fn install_portable_tools(id: &str, tools: &Option<Vec<FileTree>>, home: Option<&str>) -> (r: Result<
    PortableInstall,
>)
    ensures
        portable_plan(
            r,
            id@,
            match *tools {
                Some(v) => Some(v@),
                None => None,
            },
            dirs::str_view(home),
        ),
{
    let items = match tools {
        Some(v) => v,
        None => {
            return Err(
                WaxError::InstallError(
                    String::from_str(
                        "Chocolatey package has no tools/ directory in .nupkg (wax cannot run install scripts)",
                    ),
                ),
            );
        },
    };
    let exes = collect_exe_files(items, 0, MAX_TOOL_DEPTH);
    let ghost all = portable_in(items@, 0, MAX_TOOL_DEPTH as int);
    proof {
        assert(text::views(exes@).len() == exes@.len());
    }
    if exes.len() == 0 {
        return Err(
            WaxError::InstallError(
                String::from_str(
                    "No suitable portable .exe under tools/ (this package likely needs choco.exe + PowerShell)",
                ),
            ),
        );
    }
    let bin_dir = match wax_bin_dir(home) {
        Ok(d) => d,
        Err(e) => {
            return Err(e);
        },
    };
    let root = match wax_user_root(home) {
        Ok(d) => d,
        Err(e) => {
            return Err(e);
        },
    };
    let staging = below(below(root.as_str(), "choco-apps").as_str(), id);
    let mut copies: Vec<(String, String)> = Vec::new();
    for i in 0..exes.len()
        invariant
            all == text::views(exes@),
            all == portable_in(items@, 0, MAX_TOOL_DEPTH as int),
            copies@.len() == i,
            forall|j: int|
                0 <= j < i ==> (#[trigger] copies@[j]).0@ == all[j] && copies@[j].1@
                    == paths::path_join(bin_dir@, paths::file_name(all[j])->0),
    {
        proof {
            collected_are_portable(items@, 0, MAX_TOOL_DEPTH as int, i as int);
            assert(all[i as int] == exes@[i as int]@);
        }
        match name_of(exes[i].as_str()) {
            Some(name) => {
                copies.push((exes[i].clone(), below(bin_dir.as_str(), name.as_str())));
            },
            None => {
                return Err(WaxError::InstallError(String::from_str("invalid exe path")));
            },
        }
    }
    Ok(PortableInstall { bin_dir, staging, copies })
}

/// What is said when a package is installed.
pub fn installed_text(id: &str, bin_dir: &str) -> (r: String)
    ensures
        r@ == "Installed "@ + id@
            + " from Chocolatey .nupkg (tools/*.exe) — binaries under:\n  "@ + bin_dir@,
{
    let mut r = String::from_str("Installed ");
    r.append(id);
    r.append(" from Chocolatey .nupkg (tools/*.exe) — binaries under:\n  ");
    r.append(bin_dir);
    r
}

// ---------------------------------------------------------------------------
// Laws of what is taken

/// Each id that was not taken yet is taken, in its order, until there are as many as asked
/// for.
pub proof fn ids_are_taken_in_order(ids: Seq<Seq<char>>, id: Seq<char>, limit: int)
    ensures
        taken(ids, limit).1 ==> taken(ids.push(id), limit) == taken(ids, limit),
        !taken(ids, limit).1 && taken(ids, limit).0.contains(id) ==> taken(ids.push(id), limit).0
            == taken(ids, limit).0,
        !taken(ids, limit).1 && !taken(ids, limit).0.contains(id) ==> taken(ids.push(id), limit).0
            == taken(ids, limit).0.push(id),
        taken(ids.push(id), limit).1 <==> taken(ids, limit).1 || taken(ids.push(id), limit).0.len()
            >= limit,
        taken(Seq::empty(), limit).0.len() == 0,
{
    assert(ids.push(id).drop_last() =~= ids);
}

/// Ids are taken in small letters.
pub proof fn ids_are_in_lowercase(ids: Seq<Seq<char>>, i: int)
    ensures
        in_lowercase(ids).len() == ids.len(),
        0 <= i < ids.len() ==> in_lowercase(ids)[i] == outside::lowercase(ids[i]),
        link_pattern() == "href=\"/packages/([^\"#?]+)"@,
{
}

/// A file is portable that has the ending of an executable and is neither an uninstaller nor
/// part of the package manager.
pub proof fn portable_files_are_plain_executables(path: Seq<char>, name: Seq<char>, e: Seq<char>)
    requires
        paths::file_name(path) == Some(name),
    ensures
        cask::extension(name) == Some(e) && text::ascii_lower(e) == "exe"@ && !text::contains(
            outside::lowercase(name),
            "uninstall"@,
        ) && !text::contains(outside::lowercase(name), "chocolatey"@) ==> is_portable(path),
        cask::extension(name) is None ==> !is_portable(path),
        cask::extension(name) == Some(e) && text::ascii_lower(e) != "exe"@ ==> !is_portable(path),
        text::contains(outside::lowercase(name), "uninstall"@) ==> !is_portable(path),
        text::contains(outside::lowercase(name), "chocolatey"@) ==> !is_portable(path),
{
}

/// The portable files of a folder and of the folders in it are collected, in their order,
/// down to the depth that is asked for.
pub proof fn portable_files_are_collected(
    items: Seq<FileTree>,
    p: String,
    inner: Vec<FileTree>,
    depth: int,
    max_depth: int,
)
    ensures
        depth <= max_depth && is_portable(p@) ==> portable_in(
            items.push(FileTree::File(p)),
            depth,
            max_depth,
        ) == portable_in(items, depth, max_depth).push(p@),
        !is_portable(p@) ==> portable_in(items.push(FileTree::File(p)), depth, max_depth)
            == portable_in(items, depth, max_depth),
        depth <= max_depth ==> portable_in(items.push(FileTree::Folder(inner)), depth, max_depth)
            == portable_in(items, depth, max_depth) + portable_in(inner@, depth + 1, max_depth),
        depth > max_depth ==> portable_in(items, depth, max_depth).len() == 0,
        portable_in(Seq::empty(), depth, max_depth).len() == 0,
{
    let f = items.push(FileTree::File(p));
    let g = items.push(FileTree::Folder(inner));
    assert(f.drop_last() =~= items);
    assert(g.drop_last() =~= items);
    let b = portable_in(items, depth, max_depth);
    assert(b + seq![p@] =~= b.push(p@));
    assert(b + Seq::<Seq<char>>::empty() =~= b);
}

/// What cannot be installed is refused with its reason, and what can is copied under the
/// name of its file into the folder for commands.
pub proof fn portable_tools_are_copied(
    r: Result<PortableInstall>,
    id: Seq<char>,
    items: Seq<FileTree>,
    home: Seq<char>,
    i: int,
)
    ensures
        portable_plan(r, id, None, Some(home)) ==> (r matches Err(e) && e@
            == ErrorView::InstallError(
            "Chocolatey package has no tools/ directory in .nupkg (wax cannot run install scripts)"@,
        )),
        portable_plan(r, id, Some(items), Some(home)) && portable_in(
            items,
            0,
            MAX_TOOL_DEPTH as int,
        ).len() == 0 ==> (r matches Err(e) && e@ == ErrorView::InstallError(
            "No suitable portable .exe under tools/ (this package likely needs choco.exe + PowerShell)"@,
        )),
        portable_plan(r, id, Some(items), None) ==> r is Err,
        portable_plan(r, id, Some(items), Some(home)) && 0 <= i < portable_in(
            items,
            0,
            MAX_TOOL_DEPTH as int,
        ).len() ==> (r matches Ok(p) && p.bin_dir@ == scoop::bin_dir(home) && p.staging@
            == paths::path_join(paths::path_join(scoop::user_root(home), "choco-apps"@), id)
            && p.copies@.len() == portable_in(items, 0, MAX_TOOL_DEPTH as int).len()
            && p.copies@[i].0@ == portable_in(items, 0, MAX_TOOL_DEPTH as int)[i]
            && p.copies@[i].1@ == paths::path_join(
            scoop::bin_dir(home),
            paths::file_name(portable_in(items, 0, MAX_TOOL_DEPTH as int)[i])->0,
        )),
{
}

}
