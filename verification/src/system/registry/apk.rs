//! Alpine's package index.
use super::{
    dep_name, dep_name_of, keep_first_seen, package_views, PackageMetadata, PackageView,
};
use crate::{outside, text};
use crate::error::{Result, WaxError};
use crate::outside::{TarItem, TarView, gz_tar_items};
use crate::text::{chars_of, lines_of, parsed_u64, part, pieces_str, replaced, same_str, string_of, trimmed, words_of};
use vstd::prelude::*;

verus! {

pub struct ApkRegistry {
    pub mirror: String,
    pub branch: String,
    pub repos: Vec<String>,
    pub arch: String,
}

/// What Alpine calls an architecture.
pub open spec fn apk_arch(arch: Seq<char>) -> Seq<char> {
    if arch == "x86_64"@ {
        "x86_64"@
    } else if arch == "aarch64"@ {
        "aarch64"@
    } else if arch == "arm"@ {
        "armv7"@
    } else {
        "x86_64"@
    }
}

impl ApkRegistry {
    /// The two repositories of a branch, for a machine of architecture `arch`.
    pub fn new(mirror: &str, branch: &str, arch: &str) -> (r: Self)
        ensures
            r.mirror@ == mirror@,
            r.branch@ == branch@,
            text::views(r.repos@) == seq!["main"@, "community"@],
            r.arch@ == apk_arch(arch@),
    {
        let apk = if same_str(arch, "x86_64") {
            "x86_64"
        } else if same_str(arch, "aarch64") {
            "aarch64"
        } else if same_str(arch, "arm") {
            "armv7"
        } else {
            "x86_64"
        };
        let mut repos: Vec<String> = Vec::new();
        repos.push(String::from_str("main"));
        repos.push(String::from_str("community"));
        proof {
            assert(text::views(repos@) =~= seq!["main"@, "community"@]);
        }
        ApkRegistry {
            mirror: String::from_str(mirror),
            branch: String::from_str(branch),
            repos,
            arch: String::from_str(apk),
        }
    }

    pub fn alpine_default(arch: &str) -> (r: Self)
        ensures
            r.mirror@ == "http://dl-cdn.alpinelinux.org/alpine"@,
            r.branch@ == "v3.19"@,
            text::views(r.repos@) == seq!["main"@, "community"@],
            r.arch@ == apk_arch(arch@),
    {
        Self::new("http://dl-cdn.alpinelinux.org/alpine", "v3.19", arch)
    }

    /// The name of the file that keeps this branch's index.
    pub fn cache_file(&self) -> (r: String)
        ensures
            r@ == "apk-"@ + text::replace(self.branch@, seq!['/'], seq!['-']) + ".json"@,
    {
        let slash: Vec<char> = vec!['/'];
        let dash: Vec<char> = vec!['-'];
        let branch = chars_of(self.branch.as_str());
        proof {
            assert(slash@ =~= seq!['/']);
            assert(dash@ =~= seq!['-']);
        }
        let safe = replaced(branch.as_slice(), slash.as_slice(), dash.as_slice());
        let mut name = String::from_str("apk-");
        name.append(string_of(safe.as_slice()).as_str());
        name.append(".json");
        name
    }

    pub fn index_url(&self, repo: &str) -> (r: String)
        ensures
            r@ == self.mirror@ + "/"@ + self.branch@ + "/"@ + repo@ + "/APKINDEX.tar.gz"@,
    {
        let mut url = self.mirror.clone();
        url.append("/");
        url.append(self.branch.as_str());
        url.append("/");
        url.append(repo);
        url.append("/APKINDEX.tar.gz");
        url
    }

    /// The packages in a fetched `APKINDEX.tar.gz` of `repo`.
    pub fn read_index(&self, repo: &str, bytes: &[u8]) -> (r: Result<Vec<PackageMetadata>>)
        ensures
            match index_text(outside::gz_tar_entries(bytes@)) {
                Ok(Some(text)) => r matches Ok(p) && package_views(p@) == apk_packages(
                    text,
                    self.source(repo@),
                ),
                Ok(None) => r matches Ok(p) && p@.len() == 0,
                Err(m) => r matches Err(WaxError::InstallError(e)) && e@ == m,
            },
    {
        let items = gz_tar_items(bytes);
        match find_index(&items) {
            Err(e) => Err(e),
            Ok(None) => Ok(Vec::new()),
            Ok(Some(text)) => Ok(
                parse_apkindex(
                    text.as_str(),
                    self.mirror.as_str(),
                    self.branch.as_str(),
                    repo,
                    self.arch.as_str(),
                ),
            ),
        }
    }

    /// Where the packages of `repo` lie.
    pub open spec fn source(&self, repo: Seq<char>) -> Seq<char> {
        self.mirror@ + "/"@ + self.branch@ + "/"@ + repo + "/"@ + self.arch@ + "/"@
    }

    /// The index made of what the repositories gave, in their order.
    pub fn merge(&self, fetched: Vec<PackageMetadata>) -> (r: super::PackageIndex)
        ensures
            package_views(r.packages@) == super::first_seen(package_views(fetched@)),
    {
        super::PackageIndex { packages: keep_first_seen(fetched) }
    }
}

/// The text of the first entry called `APKINDEX`, unless an entry before it, or
/// that entry itself, cannot be read.
pub open spec fn index_text(items: Seq<TarView>) -> std::result::Result<
    Option<Seq<char>>,
    Seq<char>,
>
    decreases items.len(),
{
    if items.len() == 0 {
        Ok(None)
    } else {
        match items[0] {
            TarView::BadEntry(m) => Err("Failed to read tar entry: "@ + m),
            TarView::BadPath(m) => Err("Failed to get entry path: "@ + m),
            TarView::File { path, text } => if path == "APKINDEX"@ {
                match text {
                    Ok(t) => Ok(Some(t)),
                    Err(m) => Err("Failed to read APKINDEX: "@ + m),
                }
            } else {
                index_text(items.skip(1))
            },
        }
    }
}

fn failed(prefix: &str, m: &str) -> (r: WaxError)
    ensures
        r matches WaxError::InstallError(t) && t@ == prefix@ + m@,
{
    let mut t = String::from_str(prefix);
    t.append(m);
    WaxError::InstallError(t)
}

/// The text of the `APKINDEX` among the entries of an archive.
pub fn find_index(items: &Vec<TarItem>) -> (r: Result<Option<String>>)
    ensures
        match index_text(outside::tar_views(items@)) {
            Ok(Some(text)) => r matches Ok(Some(t)) && t@ == text,
            Ok(None) => r matches Ok(None),
            Err(m) => r matches Err(WaxError::InstallError(e)) && e@ == m,
        },
{
    let ghost v = outside::tar_views(items@);
    proof {
        assert(v.skip(0) =~= v);
    }
    for i in 0..items.len()
        invariant
            v == outside::tar_views(items@),
            index_text(v) == index_text(v.skip(i as int)),
    {
        proof {
            assert(v.skip(i as int)[0] == items@[i as int]@);
            assert(v.skip(i as int).skip(1) =~= v.skip(i + 1));
        }
        match &items[i] {
            TarItem::BadEntry(m) => {
                return Err(failed("Failed to read tar entry: ", m.as_str()));
            },
            TarItem::BadPath(m) => {
                return Err(failed("Failed to get entry path: ", m.as_str()));
            },
            TarItem::File { path, text } => {
                if same_str(path.as_str(), "APKINDEX") {
                    return match text {
                        Ok(t) => Ok(Some(t.clone())),
                        Err(m) => Err(failed("Failed to read APKINDEX: ", m.as_str())),
                    };
                }
            },
        }
    }
    Ok(None)
}

/// A line that holds a field: a key of one ASCII character and a colon.
pub open spec fn is_field(line: Seq<char>) -> bool {
    line.len() >= 2 && (line[0] as u32) < 128 && line[1] == ':'
}

/// The names in a list of dependencies, without those of conflicting packages.
pub open spec fn needed(deps: Seq<Seq<char>>) -> Seq<Seq<char>>
    decreases deps.len(),
{
    if deps.len() == 0 {
        Seq::empty()
    } else {
        let n = dep_name(deps.last());
        if n.len() > 0 && n[0] != '!' {
            needed(deps.drop_last()).push(n)
        } else {
            needed(deps.drop_last())
        }
    }
}

/// The names in a list of what a package provides.
pub open spec fn provided(names: Seq<Seq<char>>) -> Seq<Seq<char>>
    decreases names.len(),
{
    if names.len() == 0 {
        Seq::empty()
    } else {
        let n = dep_name(names.last());
        if n.len() > 0 {
            provided(names.drop_last()).push(n)
        } else {
            provided(names.drop_last())
        }
    }
}

/// A package of which nothing is known.
pub open spec fn blank() -> PackageView {
    PackageView {
        name: Seq::empty(),
        version: Seq::empty(),
        description: Seq::empty(),
        download_url: Seq::empty(),
        sha256: None,
        installed_size: 0,
        depends: Seq::empty(),
        provides: Seq::empty(),
    }
}

/// What a line of a stanza says of the package.
pub open spec fn on_line(p: PackageView, line: Seq<char>) -> PackageView {
    let value = text::trim(line.skip(2));
    if !is_field(line) {
        p
    } else if line[0] == 'P' {
        PackageView { name: value, ..p }
    } else if line[0] == 'V' {
        PackageView { version: value, ..p }
    } else if line[0] == 'T' {
        PackageView { description: value, ..p }
    } else if line[0] == 'I' {
        PackageView {
            installed_size: match text::parse_number(value, u64::MAX as nat) {
                Some(n) => n,
                None => 0,
            },
            ..p
        }
    } else if line[0] == 'D' {
        PackageView { depends: p.depends + needed(text::words(value)), ..p }
    } else if line[0] == 'p' {
        PackageView { provides: p.provides + provided(text::words(value)), ..p }
    } else {
        p
    }
}

/// What the lines of a stanza say of the package.
pub open spec fn on_lines(l: Seq<Seq<char>>) -> PackageView
    decreases l.len(),
{
    if l.len() == 0 {
        blank()
    } else {
        on_line(on_lines(l.drop_last()), l.last())
    }
}

/// The packages that the stanzas describe; `source` is the address they lie
/// under. A stanza without a name or a version describes none.
pub open spec fn stanza_packages(stanzas: Seq<Seq<char>>, source: Seq<char>) -> Seq<PackageView>
    decreases stanzas.len(),
{
    if stanzas.len() == 0 {
        Seq::empty()
    } else {
        let before = stanza_packages(stanzas.drop_last(), source);
        let p = on_lines(text::lines(text::trim(stanzas.last())));
        if p.name.len() > 0 && p.version.len() > 0 {
            before.push(
                PackageView {
                    download_url: source + p.name + "-"@ + p.version + ".apk"@,
                    ..p
                },
            )
        } else {
            before
        }
    }
}

/// The packages of an index: its stanzas stand between empty lines.
pub open spec fn apk_packages(content: Seq<char>, source: Seq<char>) -> Seq<PackageView> {
    stanza_packages(text::split_str(content, "\n\n"@), source)
}

pub(crate) fn blank_package() -> (r: PackageMetadata)
    ensures
        r@ == blank(),
{
    let r = PackageMetadata {
        name: String::new(),
        version: String::new(),
        description: String::new(),
        download_url: String::new(),
        sha256: None,
        installed_size: 0,
        depends: Vec::new(),
        provides: Vec::new(),
    };
    proof {
        assert(r@.depends =~= Seq::<Seq<char>>::empty());
        assert(r@.provides =~= Seq::<Seq<char>>::empty());
    }
    r
}

fn read_line(p: &mut PackageMetadata, line: &[char])
    ensures
        final(p)@ == on_line(old(p)@, line@),
{
    if line.len() < 2 || line[0] as u32 >= 128 || line[1] != ':' {
        return;
    }
    let rest = part(line, 2, line.len());
    let value = trimmed(rest);
    proof {
        assert(rest@ =~= line@.skip(2));
    }
    let key = line[0];
    let ghost before = p@;
    if key == 'P' {
        p.name = string_of(value);
    } else if key == 'V' {
        p.version = string_of(value);
    } else if key == 'T' {
        p.description = string_of(value);
    } else if key == 'I' {
        p.installed_size = match parsed_u64(value, u64::MAX) {
            Some(n) => n,
            None => 0,
        };
    } else if key == 'D' {
        let w = words_of(value);
        let ghost s = text::slices(w@);
        proof {
            assert(before.depends + needed(s.take(0)) =~= before.depends);
        }
        for i in 0..w.len()
            invariant
                s == text::slices(w@),
                p@ == (PackageView {
                    depends: before.depends + needed(s.take(i as int)),
                    ..before
                }),
        {
            let ghost so_far = p@.depends;
            proof {
                assert(s.take(i + 1).drop_last() =~= s.take(i as int));
                assert(s.take(i + 1).last() == w@[i as int]@);
            }
            let n = dep_name_of(w[i]);
            if n.len() > 0 && n[0] != '!' {
                p.depends.push(string_of(n));
                proof {
                    assert(p@.depends =~= so_far.push(n@));
                    assert(before.depends + needed(s.take(i as int)).push(n@) =~= so_far.push(n@));
                }
            }
        }
        proof {
            assert(s.take(s.len() as int) =~= s);
        }
    } else if key == 'p' {
        let w = words_of(value);
        let ghost s = text::slices(w@);
        proof {
            assert(before.provides + provided(s.take(0)) =~= before.provides);
        }
        for i in 0..w.len()
            invariant
                s == text::slices(w@),
                p@ == (PackageView {
                    provides: before.provides + provided(s.take(i as int)),
                    ..before
                }),
        {
            let ghost so_far = p@.provides;
            proof {
                assert(s.take(i + 1).drop_last() =~= s.take(i as int));
                assert(s.take(i + 1).last() == w@[i as int]@);
            }
            let n = dep_name_of(w[i]);
            if n.len() > 0 {
                p.provides.push(string_of(n));
                proof {
                    assert(p@.provides =~= so_far.push(n@));
                    assert(before.provides + provided(s.take(i as int)).push(n@) =~= so_far.push(
                        n@,
                    ));
                }
            }
        }
        proof {
            assert(s.take(s.len() as int) =~= s);
        }
    }
}

fn read_stanza(stanza: &[char]) -> (r: PackageMetadata)
    ensures
        r@ == on_lines(text::lines(stanza@)),
{
    let l = lines_of(stanza);
    let ghost s = text::slices(l@);
    let mut p = blank_package();
    for i in 0..l.len()
        invariant
            s == text::slices(l@),
            p@ == on_lines(s.take(i as int)),
    {
        proof {
            assert(s.take(i + 1).drop_last() =~= s.take(i as int));
            assert(s.take(i + 1).last() == l@[i as int]@);
        }
        read_line(&mut p, l[i]);
    }
    proof {
        assert(s.take(s.len() as int) =~= s);
    }
    p
}

/// The packages that an `APKINDEX` describes.
pub fn parse_apkindex(
    content: &str,
    mirror: &str,
    branch: &str,
    repo: &str,
    arch: &str,
) -> (r: Vec<PackageMetadata>)
    ensures
        package_views(r@) == apk_packages(
            content@,
            mirror@ + "/"@ + branch@ + "/"@ + repo@ + "/"@ + arch@ + "/"@,
        ),
{
    let mut source = String::from_str(mirror);
    source.append("/");
    source.append(branch);
    source.append("/");
    source.append(repo);
    source.append("/");
    source.append(arch);
    source.append("/");
    let c = chars_of(content);
    proof {
        reveal_strlit("\n\n");
    }
    let stanzas = pieces_str(c.as_slice(), "\n\n");
    let ghost s = text::slices(stanzas@);
    let mut packages: Vec<PackageMetadata> = Vec::new();
    proof {
        assert(package_views(packages@) =~= Seq::<PackageView>::empty());
    }
    for i in 0..stanzas.len()
        invariant
            s == text::slices(stanzas@),
            package_views(packages@) == stanza_packages(s.take(i as int), source@),
    {
        let ghost before = package_views(packages@);
        proof {
            assert(s.take(i + 1).drop_last() =~= s.take(i as int));
            assert(s.take(i + 1).last() == stanzas@[i as int]@);
        }
        let mut p = read_stanza(trimmed(stanzas[i]));
        if !p.name.as_str().is_empty() && !p.version.as_str().is_empty() {
            let mut url = source.clone();
            url.append(p.name.as_str());
            url.append("-");
            url.append(p.version.as_str());
            url.append(".apk");
            p.download_url = url;
            packages.push(p);
            proof {
                assert(package_views(packages@) =~= before.push(p@));
            }
        }
    }
    proof {
        assert(s.take(s.len() as int) =~= s);
    }
    packages
}

// ---------------------------------------------------------------------------
// Laws

/// Each line of a stanza gives the part of the package that its letter stands for,
/// and leaves every other part as it is.
pub proof fn lines_give_their_part(l: Seq<Seq<char>>, v: Seq<char>)
    ensures
        on_lines(l.push("P:"@ + v)) == (PackageView { name: text::trim(v), ..on_lines(l) }),
        on_lines(l.push("V:"@ + v)) == (PackageView { version: text::trim(v), ..on_lines(l) }),
        on_lines(l.push("T:"@ + v)) == (PackageView { description: text::trim(v), ..on_lines(l) }),
        on_lines(l.push("D:"@ + v)) == (PackageView {
            depends: on_lines(l).depends + needed(text::words(text::trim(v))),
            ..on_lines(l)
        }),
        on_lines(l.push("p:"@ + v)) == (PackageView {
            provides: on_lines(l).provides + provided(text::words(text::trim(v))),
            ..on_lines(l)
        }),
{
    reveal_strlit("P:");
    reveal_strlit("V:");
    reveal_strlit("T:");
    reveal_strlit("D:");
    reveal_strlit("p:");
    assert(("P:"@ + v).skip(2) =~= v && ("V:"@ + v).skip(2) =~= v && ("T:"@ + v).skip(2) =~= v);
    assert(("D:"@ + v).skip(2) =~= v && ("p:"@ + v).skip(2) =~= v);
    assert(l.push("P:"@ + v).drop_last() =~= l);
    assert(l.push("V:"@ + v).drop_last() =~= l);
    assert(l.push("T:"@ + v).drop_last() =~= l);
    assert(l.push("D:"@ + v).drop_last() =~= l);
    assert(l.push("p:"@ + v).drop_last() =~= l);
    assert(("P:"@ + v)[0] == 'P' && ("V:"@ + v)[0] == 'V' && ("T:"@ + v)[0] == 'T');
    assert(("D:"@ + v)[0] == 'D' && ("p:"@ + v)[0] == 'p');
    assert(("P:"@ + v)[1] == ':' && ("V:"@ + v)[1] == ':' && ("T:"@ + v)[1] == ':');
    assert(("D:"@ + v)[1] == ':' && ("p:"@ + v)[1] == ':');
}

/// The size of a package is read as a number; what is none counts for nothing.
pub proof fn sizes_are_read_back(l: Seq<Seq<char>>, size: nat, v: Seq<char>)
    ensures
        size <= u64::MAX ==> on_lines(l.push("I:"@ + text::decimal(size))) == (PackageView {
            installed_size: size,
            ..on_lines(l)
        }),
        text::parse_number(text::trim(v), u64::MAX as nat) is None ==> on_lines(l.push("I:"@ + v))
            == (PackageView { installed_size: 0, ..on_lines(l) }),
{
    reveal_strlit("I:");
    let d = text::decimal(size);
    text::decimal_is_number(size);
    text::numbers_are_read_back(size, u64::MAX as nat);
    let none = Seq::<char>::empty();
    assert(text::is_number(d));
    assert(text::is_digit(d[0]) && text::is_digit(d[d.len() - 1]));
    text::trimming_keeps_the_middle(none, d, none);
    assert(("I:"@ + d).skip(2) =~= d);
    assert(("I:"@ + v).skip(2) =~= v);
    assert(l.push("I:"@ + d).drop_last() =~= l);
    assert(l.push("I:"@ + v).drop_last() =~= l);
    assert(("I:"@ + d)[0] == 'I' && ("I:"@ + d)[1] == ':');
    assert(("I:"@ + v)[0] == 'I' && ("I:"@ + v)[1] == ':');
}

/// A line of any other kind changes nothing.
pub proof fn other_lines_change_nothing(l: Seq<Seq<char>>, line: Seq<char>)
    requires
        line.len() < 2 || line[1] != ':' || !seq!['P', 'V', 'T', 'I', 'D', 'p'].contains(line[0]),
    ensures
        on_lines(l.push(line)) == on_lines(l),
{
    assert(l.push(line).drop_last() =~= l);
    let k = seq!['P', 'V', 'T', 'I', 'D', 'p'];
    assert(k[0] == 'P' && k[1] == 'V' && k[2] == 'T' && k[3] == 'I' && k[4] == 'D' && k[5] == 'p');
}

/// A dependency is named, unless it is one that must not be there; a name that is
/// provided always is. Both keep their order.
pub proof fn conflicts_are_no_dependencies(deps: Seq<Seq<char>>, d: Seq<char>)
    ensures
        dep_name(d).len() > 0 && dep_name(d)[0] != '!' ==> needed(deps.push(d)) == needed(deps).push(
            dep_name(d),
        ),
        dep_name(d).len() == 0 || dep_name(d)[0] == '!' ==> needed(deps.push(d)) == needed(deps),
        dep_name(d).len() > 0 ==> provided(deps.push(d)) == provided(deps).push(dep_name(d)),
        dep_name(d).len() == 0 ==> provided(deps.push(d)) == provided(deps),
        needed(Seq::empty()) == Seq::<Seq<char>>::empty(),
        provided(Seq::empty()) == Seq::<Seq<char>>::empty(),
{
    assert(deps.push(d).drop_last() =~= deps);
}

/// A stanza is a package where it has a name and a version, and its file stands in the
/// source under both; the packages keep the order of the stanzas.
pub proof fn stanzas_are_packages(stanzas: Seq<Seq<char>>, stanza: Seq<char>, source: Seq<char>)
    ensures
        ({
            let p = on_lines(text::lines(text::trim(stanza)));
            let before = stanza_packages(stanzas, source);
            let now = stanza_packages(stanzas.push(stanza), source);
            &&& p.name.len() == 0 || p.version.len() == 0 ==> now == before
            &&& p.name.len() > 0 && p.version.len() > 0 ==> now == before.push(
                PackageView {
                    name: p.name,
                    version: p.version,
                    description: p.description,
                    download_url: source + p.name + "-"@ + p.version + ".apk"@,
                    sha256: None,
                    installed_size: p.installed_size,
                    depends: p.depends,
                    provides: p.provides,
                },
            )
        }),
{
    assert(stanzas.push(stanza).drop_last() =~= stanzas);
    no_checksum(text::lines(text::trim(stanza)));
}

proof fn no_checksum(l: Seq<Seq<char>>)
    ensures
        on_lines(l).sha256 is None,
    decreases l.len(),
{
    if l.len() > 0 {
        no_checksum(l.drop_last());
    }
}

/// An empty line parts the stanzas of an index.
pub proof fn empty_lines_part_stanzas(a: Seq<char>, b: Seq<char>, source: Seq<char>)
    ensures
        text::first_at(a + "\n\n"@ + b, "\n\n"@, a.len() as int) ==> apk_packages(
            a + "\n\n"@ + b,
            source,
        ) == stanza_packages(seq![a] + text::split_str(b, "\n\n"@), source),
        !text::contains(a, "\n\n"@) ==> apk_packages(a, source) == stanza_packages(seq![a], source),
{
    reveal_strlit("\n\n");
    text::splitting_at_the_first(a, "\n\n"@, b);
}

/// The index is the first file of its name in the archive, whatever stands before it;
/// without one there is none.
pub proof fn index_is_found(
    before: Seq<TarView>,
    content: Seq<char>,
    rest: Seq<TarView>,
)
    requires
        forall|i: int|
            0 <= i < before.len() ==> (#[trigger] before[i] matches TarView::File { path, .. }
                && path != "APKINDEX"@),
    ensures
        index_text(before) == Ok::<Option<Seq<char>>, Seq<char>>(None),
        index_text(
            before + seq![TarView::File { path: "APKINDEX"@, text: Ok(content) }] + rest,
        ) == Ok::<Option<Seq<char>>, Seq<char>>(Some(content)),
    decreases before.len(),
{
    let found = TarView::File { path: "APKINDEX"@, text: Ok(content) };
    let all = before + seq![found] + rest;
    if before.len() == 0 {
        assert(all[0] == found);
    } else {
        let later = before.skip(1);
        assert forall|i: int| 0 <= i < later.len() implies (#[trigger] later[i] matches TarView::File {
            path,
            ..
        } && path != "APKINDEX"@) by {
            assert(later[i] == before[i + 1]);
        }
        index_is_found(later, content, rest);
        assert(all[0] == before[0]);
        assert(all.skip(1) =~= later + seq![found] + rest);
    }
}

/// What Alpine calls an architecture; one that it does not know is taken for the
/// common one.
pub proof fn architectures_are_named(arch: Seq<char>)
    ensures
        arch == "x86_64"@ || arch == "aarch64"@ ==> apk_arch(arch) == arch,
        arch == "arm"@ ==> apk_arch(arch) == "armv7"@,
        arch != "aarch64"@ && arch != "arm"@ ==> apk_arch(arch) == "x86_64"@,
{
    reveal_strlit("arm");
    reveal_strlit("aarch64");
    reveal_strlit("x86_64");
    assert("arm"@.len() == 3 && "aarch64"@.len() == 7 && "x86_64"@.len() == 6);
}

}
