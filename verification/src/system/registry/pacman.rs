//! Arch's package databases.
use super::{
    dep_name, dep_name_of, first_seen, keep_first_seen, package_views, PackageIndex,
    PackageMetadata, PackageView,
};
use crate::{outside, table, text};
use crate::error::{Result, WaxError};
use crate::outside::{TarItem, TarView, gz_tar_items};
use crate::table::Table;
use crate::text::{chars_of, ends, lines_of, parsed_u64, same_str, string_of, trimmed, without_leading, without_trailing};
use vstd::prelude::*;

verus! {

pub struct PacmanRegistry {
    pub mirror: String,
    pub repos: Vec<String>,
    pub arch: String,
}

/// What Arch calls an architecture.
pub open spec fn pacman_arch(arch: Seq<char>) -> Seq<char> {
    if arch == "x86_64"@ {
        "x86_64"@
    } else if arch == "aarch64"@ {
        "aarch64"@
    } else {
        "x86_64"@
    }
}

impl PacmanRegistry {
    pub fn new(mirror: &str, arch: &str) -> (r: Self)
        ensures
            r.mirror@ == mirror@,
            text::views(r.repos@) == seq!["core"@, "extra"@],
            r.arch@ == pacman_arch(arch@),
    {
        let name = if same_str(arch, "x86_64") {
            "x86_64"
        } else if same_str(arch, "aarch64") {
            "aarch64"
        } else {
            "x86_64"
        };
        let mut repos: Vec<String> = Vec::new();
        repos.push(String::from_str("core"));
        repos.push(String::from_str("extra"));
        proof {
            assert(text::views(repos@) =~= seq!["core"@, "extra"@]);
        }
        PacmanRegistry { mirror: String::from_str(mirror), repos, arch: String::from_str(name) }
    }

    pub fn arch_default(arch: &str) -> (r: Self)
        ensures
            r.mirror@ == "https://geo.mirror.pkgbuild.com"@,
            text::views(r.repos@) == seq!["core"@, "extra"@],
            r.arch@ == pacman_arch(arch@),
    {
        Self::new("https://geo.mirror.pkgbuild.com", arch)
    }

    /// The name of the file that keeps the index of `repo`.
    pub fn cache_file(&self, repo: &str) -> (r: String)
        ensures
            r@ == "pacman-"@ + repo@ + ".json"@,
    {
        let mut name = String::from_str("pacman-");
        name.append(repo);
        name.append(".json");
        name
    }

    pub fn index_url(&self, repo: &str) -> (r: String)
        ensures
            r@ == self.mirror@ + "/"@ + repo@ + "/os/"@ + self.arch@ + "/"@ + repo@ + ".db"@,
    {
        let mut url = self.mirror.clone();
        url.append("/");
        url.append(repo);
        url.append("/os/");
        url.append(self.arch.as_str());
        url.append("/");
        url.append(repo);
        url.append(".db");
        url
    }

    /// The index made of what the repositories gave, in their order.
    pub fn merge(&self, fetched: Vec<PackageMetadata>) -> (r: PackageIndex)
        ensures
            package_views(r.packages@) == first_seen(package_views(fetched@)),
    {
        PackageIndex { packages: keep_first_seen(fetched) }
    }
}

// ---------------------------------------------------------------------------
// A description: sections headed by a name between percent signs

/// A description as far as it has been read.
pub struct DescView {
    pub fields: Map<Seq<char>, Seq<Seq<char>>>,
    pub key: Seq<char>,
    pub values: Seq<Seq<char>>,
}

/// A section that is complete counts if it has a name.
pub open spec fn keep(d: DescView) -> Map<Seq<char>, Seq<Seq<char>>> {
    if d.key.len() > 0 {
        d.fields.insert(d.key, d.values)
    } else {
        d.fields
    }
}

pub open spec fn is_heading(line: Seq<char>) -> bool {
    line.len() > 0 && line[0] == '%' && line.last() == '%'
}

pub open spec fn heading(line: Seq<char>) -> Seq<char> {
    text::trim_end_char(text::trim_start_char(line, '%'), '%')
}

/// A heading opens a section, an empty line closes it, and any other line inside
/// one is a value.
pub open spec fn on_line(d: DescView, raw: Seq<char>) -> DescView {
    let line = text::trim(raw);
    if is_heading(line) {
        DescView { fields: keep(d), key: heading(line), values: Seq::empty() }
    } else if line.len() == 0 {
        if d.key.len() > 0 {
            DescView { fields: keep(d), key: Seq::empty(), values: Seq::empty() }
        } else {
            d
        }
    } else if d.key.len() > 0 {
        DescView { values: d.values.push(line), ..d }
    } else {
        d
    }
}

pub open spec fn on_lines(l: Seq<Seq<char>>) -> DescView
    decreases l.len(),
{
    if l.len() == 0 {
        DescView { fields: Map::empty(), key: Seq::empty(), values: Seq::empty() }
    } else {
        on_line(on_lines(l.drop_last()), l.last())
    }
}

/// The sections of a description; of sections with one name the last counts.
pub open spec fn desc_fields(content: Seq<char>) -> Map<Seq<char>, Seq<Seq<char>>> {
    keep(on_lines(text::lines(content)))
}

/// What a table of lists of strings says.
pub open spec fn field_map(t: Table<Vec<String>>) -> Map<Seq<char>, Seq<Seq<char>>> {
    t@.map_values(|v: Vec<String>| text::views(v@))
}

pub fn parse_desc_fields(content: &str) -> (r: Table<Vec<String>>)
    ensures
        r.wf(),
        field_map(r) == desc_fields(content@),
{
    let c = chars_of(content);
    let l = lines_of(c.as_slice());
    let ghost s = text::slices(l@);
    let mut fields: Table<Vec<String>> = Table::new();
    let mut key = String::new();
    let mut values: Vec<String> = Vec::new();
    proof {
        assert(field_map(fields) =~= Map::<Seq<char>, Seq<Seq<char>>>::empty());
        assert(text::views(values@) =~= Seq::<Seq<char>>::empty());
    }
    for i in 0..l.len()
        invariant
            s == text::slices(l@),
            fields.wf(),
            on_lines(s.take(i as int)) == (DescView {
                fields: field_map(fields),
                key: key@,
                values: text::views(values@),
            }),
    {
        proof {
            assert(s.take(i + 1).drop_last() =~= s.take(i as int));
            assert(s.take(i + 1).last() == l@[i as int]@);
        }
        let ghost before_fields = fields;
        let ghost before_values = text::views(values@);
        let line = trimmed(l[i]);
        if line.len() > 0 && line[0] == '%' && line[line.len() - 1] == '%' {
            if !key.as_str().is_empty() {
                fields.insert(key.clone(), values);
                proof {
                    assert(field_map(fields) =~= field_map(before_fields).insert(
                        key@,
                        before_values,
                    ));
                }
            }
            key = string_of(without_trailing(without_leading(line, '%'), '%'));
            values = Vec::new();
            proof {
                assert(text::views(values@) =~= Seq::<Seq<char>>::empty());
            }
        } else if line.len() == 0 {
            if !key.as_str().is_empty() {
                fields.insert(key.clone(), values);
                proof {
                    assert(field_map(fields) =~= field_map(before_fields).insert(
                        key@,
                        before_values,
                    ));
                }
                key = String::new();
                values = Vec::new();
                proof {
                    assert(text::views(values@) =~= Seq::<Seq<char>>::empty());
                }
            }
        } else if !key.as_str().is_empty() {
            values.push(string_of(line));
            proof {
                assert(text::views(values@) =~= before_values.push(line@));
            }
        }
    }
    proof {
        assert(s.take(s.len() as int) =~= s);
    }
    let ghost before_fields = fields;
    let ghost before_values = text::views(values@);
    if !key.as_str().is_empty() {
        fields.insert(key, values);
        proof {
            assert(field_map(fields) =~= field_map(before_fields).insert(key@, before_values));
        }
    }
    fields
}

/// The first value of a section.
pub open spec fn first_value(f: Map<Seq<char>, Seq<Seq<char>>>, key: Seq<char>) -> Option<
    Seq<char>,
> {
    if f.contains_key(key) && f[key].len() > 0 {
        Some(f[key][0])
    } else {
        None
    }
}

pub open spec fn or_empty(s: Option<Seq<char>>) -> Seq<char> {
    match s {
        Some(x) => x,
        None => Seq::empty(),
    }
}

/// The names in a list of dependencies, those that are empty left out.
pub open spec fn dep_names(deps: Seq<Seq<char>>) -> Seq<Seq<char>>
    decreases deps.len(),
{
    if deps.len() == 0 {
        Seq::empty()
    } else {
        let n = dep_name(deps.last());
        if n.len() > 0 {
            dep_names(deps.drop_last()).push(n)
        } else {
            dep_names(deps.drop_last())
        }
    }
}

pub open spec fn section_names(f: Map<Seq<char>, Seq<Seq<char>>>, key: Seq<char>) -> Seq<Seq<char>> {
    if f.contains_key(key) {
        dep_names(f[key])
    } else {
        Seq::empty()
    }
}

/// The package that the sections of a description describe. Without a name or a
/// version there is none.
pub open spec fn described(
    f: Map<Seq<char>, Seq<Seq<char>>>,
    mirror: Seq<char>,
    repo: Seq<char>,
    arch: Seq<char>,
) -> Option<PackageView> {
    match (first_value(f, "NAME"@), first_value(f, "VERSION"@)) {
        (Some(name), Some(version)) => {
            let filename = or_empty(first_value(f, "FILENAME"@));
            let source = mirror + "/"@ + repo + "/os/"@ + arch + "/"@;
            Some(
                PackageView {
                    name,
                    version,
                    description: or_empty(first_value(f, "DESC"@)),
                    download_url: if filename.len() == 0 {
                        source + name + "-"@ + version + "-"@ + arch + ".pkg.tar.zst"@
                    } else {
                        source + filename
                    },
                    sha256: first_value(f, "SHA256SUM"@),
                    installed_size: match first_value(f, "ISIZE"@) {
                        Some(v) => match text::parse_number(v, u64::MAX as nat) {
                            Some(n) => n,
                            None => 0,
                        },
                        None => 0,
                    },
                    depends: section_names(f, "DEPENDS"@),
                    provides: section_names(f, "PROVIDES"@),
                },
            )
        },
        _ => None,
    }
}

fn value_of(fields: &Table<Vec<String>>, key: &str) -> (r: Option<String>)
    requires
        fields.wf(),
    ensures
        text::opt_view(r) == first_value(field_map(*fields), key@),
{
    match fields.get(key) {
        Some(v) => if v.len() > 0 {
            proof {
                assert(text::views(v@)[0] == v@[0]@);
            }
            Some(v[0].clone())
        } else {
            None
        },
        None => None,
    }
}

fn value_or_empty(fields: &Table<Vec<String>>, key: &str) -> (r: String)
    requires
        fields.wf(),
    ensures
        r@ == or_empty(first_value(field_map(*fields), key@)),
{
    match value_of(fields, key) {
        Some(v) => v,
        None => String::new(),
    }
}

fn names_of(fields: &Table<Vec<String>>, key: &str) -> (r: Vec<String>)
    requires
        fields.wf(),
    ensures
        text::views(r@) == section_names(field_map(*fields), key@),
{
    let mut out: Vec<String> = Vec::new();
    proof {
        assert(text::views(out@) =~= Seq::<Seq<char>>::empty());
    }
    match fields.get(key) {
        Some(v) => {
            let ghost s = text::views(v@);
            for i in 0..v.len()
                invariant
                    s == text::views(v@),
                    text::views(out@) == dep_names(s.take(i as int)),
            {
                let ghost before = text::views(out@);
                proof {
                    assert(s.take(i + 1).drop_last() =~= s.take(i as int));
                    assert(s.take(i + 1).last() == v@[i as int]@);
                }
                let c = chars_of(v[i].as_str());
                let n = dep_name_of(c.as_slice());
                if n.len() > 0 {
                    out.push(string_of(n));
                    proof {
                        assert(text::views(out@) =~= before.push(n@));
                    }
                }
            }
            proof {
                assert(s.take(s.len() as int) =~= s);
            }
        },
        None => {},
    }
    out
}

/// The package that a description describes.
pub fn parse_desc(content: &str, mirror: &str, repo: &str, arch: &str) -> (r: Option<
    PackageMetadata,
>)
    ensures
        match described(desc_fields(content@), mirror@, repo@, arch@) {
            Some(p) => r matches Some(q) && q@ == p,
            None => r is None,
        },
{
    let fields = parse_desc_fields(content);
    let name = match value_of(&fields, "NAME") {
        Some(n) => n,
        None => {
            return None;
        },
    };
    let version = match value_of(&fields, "VERSION") {
        Some(n) => n,
        None => {
            return None;
        },
    };
    let filename = value_or_empty(&fields, "FILENAME");
    let mut url = String::from_str(mirror);
    url.append("/");
    url.append(repo);
    url.append("/os/");
    url.append(arch);
    url.append("/");
    if filename.as_str().is_empty() {
        url.append(name.as_str());
        url.append("-");
        url.append(version.as_str());
        url.append("-");
        url.append(arch);
        url.append(".pkg.tar.zst");
    } else {
        url.append(filename.as_str());
    }
    let installed_size: u64 = match value_of(&fields, "ISIZE") {
        Some(v) => match parsed_u64(chars_of(v.as_str()).as_slice(), u64::MAX) {
            Some(n) => n,
            None => 0,
        },
        None => 0,
    };
    Some(
        PackageMetadata {
            name,
            version,
            description: value_or_empty(&fields, "DESC"),
            download_url: url,
            sha256: value_of(&fields, "SHA256SUM"),
            installed_size,
            depends: names_of(&fields, "DEPENDS"),
            provides: names_of(&fields, "PROVIDES"),
        },
    )
}

// ---------------------------------------------------------------------------
// A database: an archive of descriptions

/// The packages that the entries of a database describe, by name, or why they
/// cannot be told.
pub open spec fn db_packages(
    items: Seq<TarView>,
    mirror: Seq<char>,
    repo: Seq<char>,
    arch: Seq<char>,
) -> std::result::Result<Map<Seq<char>, PackageView>, Seq<char>>
    decreases items.len(),
{
    if items.len() == 0 {
        Ok(Map::empty())
    } else {
        match db_packages(items.drop_last(), mirror, repo, arch) {
            Err(m) => Err(m),
            Ok(before) => match items.last() {
                TarView::BadEntry(m) => Err("Failed to read tar entry: "@ + m),
                TarView::BadPath(m) => Err("Bad path: "@ + m),
                TarView::File { path, text } => if !text::ends_with(path, "/desc"@) {
                    Ok(before)
                } else {
                    match text {
                        Err(m) => Err("Failed to read desc: "@ + m),
                        Ok(t) => match described(desc_fields(t), mirror, repo, arch) {
                            Some(p) => Ok(before.insert(p.name, p)),
                            None => Ok(before),
                        },
                    }
                },
            },
        }
    }
}

/// The list holds each package of the map once, and nothing else.
pub open spec fn lists(v: Seq<PackageView>, m: Map<Seq<char>, PackageView>) -> bool {
    &&& forall|i: int| 0 <= i < v.len() ==> m.contains_key((#[trigger] v[i]).name) && m[v[i].name] == v[i]
    &&& forall|i: int, j: int| 0 <= i < j < v.len() ==> (#[trigger] v[i]).name != (#[trigger] v[j]).name
    &&& forall|k: Seq<char>| #[trigger] m.contains_key(k) ==> exists|i: int| 0 <= i < v.len() && (#[trigger] v[i]).name == k
}

/// What a table of packages says.
pub open spec fn package_map(t: Table<PackageMetadata>) -> Map<Seq<char>, PackageView> {
    t@.map_values(|p: PackageMetadata| p@)
}

fn failed(prefix: &str, m: &str) -> (r: WaxError)
    ensures
        r matches WaxError::InstallError(t) && t@ == prefix@ + m@,
{
    let mut t = String::from_str(prefix);
    t.append(m);
    WaxError::InstallError(t)
}

/// An error among the first entries decides.
proof fn errors_stay(items: Seq<TarView>, n: int, mirror: Seq<char>, repo: Seq<char>, arch: Seq<char>)
    requires
        0 <= n <= items.len(),
        db_packages(items.take(n), mirror, repo, arch) is Err,
    ensures
        db_packages(items, mirror, repo, arch) == db_packages(items.take(n), mirror, repo, arch),
    decreases items.len(),
{
    if n < items.len() {
        assert(items.drop_last().take(n) =~= items.take(n));
        errors_stay(items.drop_last(), n, mirror, repo, arch);
    } else {
        assert(items.take(n) =~= items);
    }
}

/// The packages in a database. The order in which they are listed is open.
pub fn parse_pacman_db(bytes: &[u8], mirror: &str, repo: &str, arch: &str) -> (r: Result<
    Vec<PackageMetadata>,
>)
    ensures
        match db_packages(outside::gz_tar_entries(bytes@), mirror@, repo@, arch@) {
            Ok(m) => r matches Ok(p) && lists(package_views(p@), m),
            Err(e) => r matches Err(WaxError::InstallError(t)) && t@ == e,
        },
{
    let items = gz_tar_items(bytes);
    packages_in(&items, mirror, repo, arch)
}

/// The packages that the entries of a database describe.
pub fn packages_in(items: &Vec<TarItem>, mirror: &str, repo: &str, arch: &str) -> (r: Result<
    Vec<PackageMetadata>,
>)
    ensures
        match db_packages(outside::tar_views(items@), mirror@, repo@, arch@) {
            Ok(m) => r matches Ok(p) && lists(package_views(p@), m),
            Err(e) => r matches Err(WaxError::InstallError(t)) && t@ == e,
        },
{
    let ghost v = outside::tar_views(items@);
    let mut packages: Table<PackageMetadata> = Table::new();
    proof {
        assert(package_map(packages) =~= Map::<Seq<char>, PackageView>::empty());
    }
    for i in 0..items.len()
        invariant
            v == outside::tar_views(items@),
            packages.wf(),
            forall|k: Seq<char>| #[trigger] packages@.contains_key(k) ==> packages@[k].name@ == k,
            db_packages(v.take(i as int), mirror@, repo@, arch@)
                == Ok::<Map<Seq<char>, PackageView>, Seq<char>>(package_map(packages)),
    {
        let ghost before = packages;
        proof {
            assert(v.take(i + 1).drop_last() =~= v.take(i as int));
            assert(v.take(i + 1).last() == items@[i as int]@);
            if db_packages(v.take(i + 1), mirror@, repo@, arch@) is Err {
                errors_stay(v, i + 1, mirror@, repo@, arch@);
            }
        }
        match &items[i] {
            TarItem::BadEntry(m) => {
                return Err(failed("Failed to read tar entry: ", m.as_str()));
            },
            TarItem::BadPath(m) => {
                return Err(failed("Bad path: ", m.as_str()));
            },
            TarItem::File { path, text } => {
                let p = chars_of(path.as_str());
                if ends(p.as_slice(), "/desc") {
                    match text {
                        Err(m) => {
                            return Err(failed("Failed to read desc: ", m.as_str()));
                        },
                        Ok(t) => match parse_desc(t.as_str(), mirror, repo, arch) {
                            Some(package) => {
                                let name = package.name.clone();
                                packages.insert(name, package);
                                proof {
                                    assert(package_map(packages) =~= package_map(before).insert(
                                        name@,
                                        package@,
                                    ));
                                }
                            },
                            None => {},
                        },
                    }
                }
            },
        }
    }
    proof {
        assert(v.take(v.len() as int) =~= v);
    }
    Ok(values(packages))
}

/// The packages of a table, in its order.
fn values(packages: Table<PackageMetadata>) -> (r: Vec<PackageMetadata>)
    requires
        packages.wf(),
        forall|k: Seq<char>| #[trigger] packages@.contains_key(k) ==> packages@[k].name@ == k,
    ensures
        lists(package_views(r@), package_map(packages)),
{
    let mut out: Vec<PackageMetadata> = Vec::new();
    let ghost all = packages.entries@;
    for e in it: packages.entries
        invariant
            it.seq() == all,
            out@.len() == it.index(),
            forall|j: int| 0 <= j < out@.len() ==> #[trigger] out@[j] == all[j].value,
    {
        out.push(e.value);
    }
    proof {
        let v = package_views(out@);
        let m = package_map(packages);
        assert forall|i: int| 0 <= i < v.len() implies m.contains_key((#[trigger] v[i]).name)
            && m[v[i].name] == v[i] && v[i].name == all[i].name@ by {
            table::entry_is_value(packages, i);
            assert(out@[i] == all[i].value);
        }
        assert forall|i: int, j: int| 0 <= i < j < v.len() implies (#[trigger] v[i]).name
            != (#[trigger] v[j]).name by {
            assert(v[i].name == all[i].name@ && v[j].name == all[j].name@);
        }
        assert forall|k: Seq<char>| #[trigger] m.contains_key(k) implies exists|i: int|
            0 <= i < v.len() && (#[trigger] v[i]).name == k by {
            assert(packages@.contains_key(k));
            let i = choose|i: int| table::named_at(packages.entries@, k, i);
            assert(v[i].name == k);
        }
    }
    out
}

// ---------------------------------------------------------------------------
// Laws

/// A section of a description as it is written.
pub struct Section {
    pub key: Seq<char>,
    pub values: Seq<Seq<char>>,
}

/// A section: its name between percent signs, its values, and an empty line.
pub open spec fn section_lines(s: Section) -> Seq<Seq<char>> {
    seq![seq!['%'] + s.key + seq!['%']] + s.values + seq![Seq::empty()]
}

pub open spec fn sections_lines(d: Seq<Section>) -> Seq<Seq<char>>
    decreases d.len(),
{
    if d.len() == 0 {
        Seq::empty()
    } else {
        sections_lines(d.drop_last()) + section_lines(d.last())
    }
}

/// A description as it is written.
pub open spec fn written_desc(d: Seq<Section>) -> Seq<char> {
    text::written(sections_lines(d))
}

/// A value: one line, not empty, without white space around it, that is not between
/// percent signs.
pub open spec fn is_value(v: Seq<char>) -> bool {
    &&& v.len() > 0
    &&& !text::is_space(v[0])
    &&& !text::is_space(v.last())
    &&& !v.contains('\n')
    &&& !(v[0] == '%' && v.last() == '%')
}

/// A section that can be written: it has a name, and values.
pub open spec fn is_section(s: Section) -> bool {
    &&& s.key.len() > 0
    &&& !s.key.contains('%')
    &&& !s.key.contains('\n')
    &&& forall|i: int| 0 <= i < s.values.len() ==> is_value(#[trigger] s.values[i])
}

pub open spec fn are_sections(d: Seq<Section>) -> bool {
    forall|i: int| 0 <= i < d.len() ==> is_section(#[trigger] d[i])
}

/// The values are those of the one section of this name.
pub open spec fn has_one(d: Seq<Section>, key: Seq<char>, values: Seq<Seq<char>>) -> bool {
    exists|k: int| 0 <= k < d.len() && is_only(d, key, values, k)
}

pub open spec fn is_only(d: Seq<Section>, key: Seq<char>, values: Seq<Seq<char>>, k: int) -> bool {
    &&& d[k].key == key
    &&& d[k].values == values
    &&& forall|j: int| 0 <= j < d.len() && j != k ==> (#[trigger] d[j]).key != key
}

/// No section has this name.
pub open spec fn has_none(d: Seq<Section>, key: Seq<char>) -> bool {
    forall|j: int| 0 <= j < d.len() ==> (#[trigger] d[j]).key != key
}

proof fn lines_of_section(s: Section)
    requires
        is_section(s),
    ensures
        forall|i: int|
            0 <= i < section_lines(s).len() ==> text::is_line(#[trigger] section_lines(s)[i]),
{
    let l = section_lines(s);
    text::seen_characters_are_no_space('%');
    assert forall|i: int| 0 <= i < l.len() implies text::is_line(#[trigger] l[i]) by {
        if i == 0 {
            let h = seq!['%'] + s.key + seq!['%'];
            assert(l[0] == h);
            assert(h.last() == '%');
            if h.contains('\n') {
                let k = choose|k: int| 0 <= k < h.len() && h[k] == '\n';
                assert(s.key[k - 1] == '\n');
            }
        } else if i <= s.values.len() {
            assert(l[i] == s.values[i - 1]);
            assert(is_value(s.values[i - 1]));
        }
    }
}

proof fn lines_of_sections(d: Seq<Section>)
    requires
        are_sections(d),
    ensures
        forall|i: int|
            0 <= i < sections_lines(d).len() ==> text::is_line(#[trigger] sections_lines(d)[i]),
    decreases d.len(),
{
    if d.len() > 0 {
        let before = d.drop_last();
        assert forall|i: int| 0 <= i < before.len() implies is_section(#[trigger] before[i]) by {
            assert(before[i] == d[i]);
        }
        lines_of_sections(before);
        assert(is_section(d[d.len() - 1]));
        lines_of_section(d.last());
        assert forall|i: int| 0 <= i < sections_lines(d).len() implies text::is_line(
            #[trigger] sections_lines(d)[i],
        ) by {
            let n = sections_lines(before).len();
            if i < n {
                assert(sections_lines(d)[i] == sections_lines(before)[i]);
            } else {
                assert(sections_lines(d)[i] == section_lines(d.last())[i - n]);
            }
        }
    }
}

/// What is read of a heading and some values, after a description whose last section
/// is complete.
proof fn values_are_collected(l: Seq<Seq<char>>, s: Section, n: int)
    requires
        is_section(s),
        on_lines(l).key.len() == 0,
        0 <= n <= s.values.len(),
    ensures
        on_lines(l + seq![seq!['%'] + s.key + seq!['%']] + s.values.take(n)) == (DescView {
            fields: on_lines(l).fields,
            key: s.key,
            values: s.values.take(n),
        }),
    decreases n,
{
    let h = seq!['%'] + s.key + seq!['%'];
    let all = l + seq![h] + s.values.take(n);
    text::seen_characters_are_no_space('%');
    if n == 0 {
        assert(all =~= l.push(h));
        assert(all.drop_last() =~= l);
        let none = Seq::<char>::empty();
        text::trimming_keeps_the_middle(none, h, none);
        heading_is_key(s.key);
        assert(s.values.take(0) =~= Seq::<Seq<char>>::empty());
    } else {
        values_are_collected(l, s, n - 1);
        let v = s.values[n - 1];
        assert(is_value(v));
        assert(all.drop_last() =~= l + seq![h] + s.values.take(n - 1));
        assert(all.last() == v);
        let none = Seq::<char>::empty();
        text::trimming_keeps_the_middle(none, v, none);
        assert(none + v + none =~= v);
        assert(s.values.take(n - 1).push(v) =~= s.values.take(n));
    }
}

proof fn heading_is_key(key: Seq<char>)
    requires
        key.len() > 0,
        !key.contains('%'),
    ensures
        is_heading(seq!['%'] + key + seq!['%']),
        heading(seq!['%'] + key + seq!['%']) == key,
{
    let h = seq!['%'] + key + seq!['%'];
    assert(key[0] != '%' && key[key.len() - 1] != '%');
    assert(h[0] == '%' && h.last() == '%');
    let rest = key + seq!['%'];
    assert(h.skip(1) =~= rest);
    assert(rest[0] == key[0]);
    assert(text::trim_start_char(rest, '%') == rest);
    assert(text::trim_start_char(h, '%') == rest);
    assert(rest.last() == '%');
    assert(rest.drop_last() =~= key);
    assert(text::trim_end_char(key, '%') == key);
}

proof fn sections_are_kept(d: Seq<Section>, key: Seq<char>, values: Seq<Seq<char>>)
    requires
        are_sections(d),
    ensures
        on_lines(sections_lines(d)).key.len() == 0,
        has_one(d, key, values) ==> on_lines(sections_lines(d)).fields.contains_key(key)
            && on_lines(sections_lines(d)).fields[key] == values,
        has_none(d, key) ==> !on_lines(sections_lines(d)).fields.contains_key(key),
    decreases d.len(),
{
    if d.len() > 0 {
        let before = d.drop_last();
        let last = d.len() - 1;
        assert forall|i: int| 0 <= i < before.len() implies is_section(#[trigger] before[i]) by {
            assert(before[i] == d[i]);
        }
        assert(is_section(d[last]));
        let s = d.last();
        let l = sections_lines(before);
        sections_are_kept(before, key, values);
        values_are_collected(l, s, s.values.len() as int);
        assert(s.values.take(s.values.len() as int) =~= s.values);
        let h = seq!['%'] + s.key + seq!['%'];
        let all = sections_lines(d);
        let none = Seq::<char>::empty();
        assert(all =~= (l + seq![h] + s.values).push(none));
        assert(all.drop_last() =~= l + seq![h] + s.values);
        assert(all.last() == none);
        assert(text::trim(none) =~= none);
        assert(on_lines(all).fields == on_lines(l).fields.insert(s.key, s.values));
        if has_one(d, key, values) {
            let k = choose|k: int| 0 <= k < d.len() && is_only(d, key, values, k);
            if k < last {
                assert(d[last].key != key);
                assert(before[k] == d[k]);
                assert forall|j: int| 0 <= j < before.len() && j != k implies (
                #[trigger] before[j]).key != key by {
                    assert(before[j] == d[j]);
                }
                assert(is_only(before, key, values, k));
                assert(has_one(before, key, values));
            }
        }
        if has_none(d, key) {
            assert(d[last].key != key);
            assert forall|j: int| 0 <= j < before.len() implies (#[trigger] before[j]).key
                != key by {
                assert(before[j] == d[j]);
            }
        }
    }
}

/// What was written in a section is read from it, whatever other sections there are;
/// and nothing is read from a section that is not there.
pub proof fn sections_are_read_back(d: Seq<Section>, key: Seq<char>, values: Seq<Seq<char>>)
    requires
        are_sections(d),
    ensures
        has_one(d, key, values) ==> desc_fields(written_desc(d)).contains_key(key) && desc_fields(
            written_desc(d),
        )[key] == values,
        has_none(d, key) ==> !desc_fields(written_desc(d)).contains_key(key),
{
    lines_of_sections(d);
    text::lines_are_read_back(sections_lines(d));
    sections_are_kept(d, key, values);
}

/// The names of dependencies are kept in their order, those that are empty left out.
pub proof fn named_dependencies_are_kept(deps: Seq<Seq<char>>, more: Seq<Seq<char>>, dep: Seq<char>)
    ensures
        dep_names(deps + more) == dep_names(deps) + dep_names(more),
        dep_name(dep).len() > 0 ==> dep_names(seq![dep]) == seq![dep_name(dep)],
        dep_name(dep).len() == 0 ==> dep_names(seq![dep]) == Seq::<Seq<char>>::empty(),
    decreases more.len(),
{
    let one = seq![dep];
    assert(one.drop_last() =~= Seq::<Seq<char>>::empty());
    assert(dep_names(Seq::<Seq<char>>::empty()) =~= Seq::<Seq<char>>::empty());
    assert(one.last() == dep);
    if dep_name(dep).len() > 0 {
        assert(dep_names(one) =~= seq![dep_name(dep)]);
    }
    if more.len() == 0 {
        assert(deps + more =~= deps);
        assert(dep_names(deps) + dep_names(more) =~= dep_names(deps));
    } else {
        assert((deps + more).drop_last() =~= deps + more.drop_last());
        assert((deps + more).last() == more.last());
        named_dependencies_are_kept(deps, more.drop_last(), dep);
        assert(dep_names(deps + more) =~= dep_names(deps) + dep_names(more));
    }
}

/// A package is read back from its description: from the section of each of its
/// parts, whatever other sections there are.
pub proof fn packages_are_read_back(
    d: Seq<Section>,
    mirror: Seq<char>,
    repo: Seq<char>,
    arch: Seq<char>,
    name: Seq<char>,
    version: Seq<char>,
    description: Seq<char>,
    filename: Seq<char>,
    sha256: Seq<char>,
    size: nat,
    depends: Seq<Seq<char>>,
    provides: Seq<Seq<char>>,
)
    requires
        are_sections(d),
        size <= u64::MAX,
        has_one(d, "NAME"@, seq![name]),
        has_one(d, "VERSION"@, seq![version]),
        has_one(d, "DESC"@, seq![description]),
        has_one(d, "FILENAME"@, seq![filename]),
        has_one(d, "SHA256SUM"@, seq![sha256]),
        has_one(d, "ISIZE"@, seq![text::decimal(size)]),
        has_one(d, "DEPENDS"@, depends),
        has_one(d, "PROVIDES"@, provides),
    ensures
        described(desc_fields(written_desc(d)), mirror, repo, arch) == Some(
            PackageView {
                name,
                version,
                description,
                download_url: mirror + "/"@ + repo + "/os/"@ + arch + "/"@ + filename,
                sha256: Some(sha256),
                installed_size: size,
                depends: dep_names(depends),
                provides: dep_names(provides),
            },
        ),
{
    sections_are_read_back(d, "NAME"@, seq![name]);
    sections_are_read_back(d, "VERSION"@, seq![version]);
    sections_are_read_back(d, "DESC"@, seq![description]);
    sections_are_read_back(d, "FILENAME"@, seq![filename]);
    sections_are_read_back(d, "SHA256SUM"@, seq![sha256]);
    sections_are_read_back(d, "ISIZE"@, seq![text::decimal(size)]);
    sections_are_read_back(d, "DEPENDS"@, depends);
    sections_are_read_back(d, "PROVIDES"@, provides);
    text::numbers_are_read_back(size, u64::MAX as nat);
    let k = choose|k: int|
        0 <= k < d.len() && is_only(d, "FILENAME"@, seq![filename], k);
    assert(is_section(d[k]));
    assert(is_value(d[k].values[0]));
    assert(filename.len() > 0);
}

/// A description needs a name and a version, and nothing else: what is not in it is
/// empty, and the file is then named by the package.
pub proof fn little_is_needed(
    d: Seq<Section>,
    mirror: Seq<char>,
    repo: Seq<char>,
    arch: Seq<char>,
    name: Seq<char>,
    version: Seq<char>,
)
    requires
        are_sections(d),
    ensures
        has_none(d, "NAME"@) || has_none(d, "VERSION"@) ==> described(
            desc_fields(written_desc(d)),
            mirror,
            repo,
            arch,
        ) is None,
        has_one(d, "NAME"@, seq![name]) && has_one(d, "VERSION"@, seq![version]) ==> (described(
            desc_fields(written_desc(d)),
            mirror,
            repo,
            arch,
        ) matches Some(p) && {
            &&& p.name == name
            &&& p.version == version
            &&& has_none(d, "DESC"@) ==> p.description.len() == 0
            &&& has_none(d, "FILENAME"@) ==> p.download_url == mirror + "/"@ + repo + "/os"@ + "/"@
                + arch + "/"@ + name + "-"@ + version + "-"@ + arch + ".pkg.tar.zst"@
            &&& has_none(d, "SHA256SUM"@) ==> p.sha256 is None
            &&& has_none(d, "ISIZE"@) ==> p.installed_size == 0
            &&& has_none(d, "DEPENDS"@) ==> p.depends.len() == 0
            &&& has_none(d, "PROVIDES"@) ==> p.provides.len() == 0
        }),
{
    sections_are_read_back(d, "NAME"@, seq![name]);
    sections_are_read_back(d, "VERSION"@, seq![version]);
    sections_are_read_back(d, "DESC"@, seq![]);
    sections_are_read_back(d, "FILENAME"@, seq![]);
    sections_are_read_back(d, "SHA256SUM"@, seq![]);
    sections_are_read_back(d, "ISIZE"@, seq![]);
    sections_are_read_back(d, "DEPENDS"@, seq![]);
    sections_are_read_back(d, "PROVIDES"@, seq![]);
    reveal_strlit("/os/");
    reveal_strlit("/os");
    reveal_strlit("/");
    assert("/os"@ + "/"@ =~= "/os/"@);
    assert(mirror + "/"@ + repo + "/os"@ + "/"@ + arch =~= mirror + "/"@ + repo + "/os/"@ + arch);
}

/// An architecture that Arch does not know is taken for the common one.
pub proof fn architectures_keep_their_names(arch: Seq<char>)
    ensures
        arch == "x86_64"@ || arch == "aarch64"@ ==> pacman_arch(arch) == arch,
        arch != "aarch64"@ ==> pacman_arch(arch) == "x86_64"@,
{
}

/// A package is in a database exactly when an entry whose path ends in `/desc`
/// describes it; the last that describes a name counts.
pub proof fn databases_hold_what_is_described(
    items: Seq<TarView>,
    path: Seq<char>,
    content: Seq<char>,
    mirror: Seq<char>,
    repo: Seq<char>,
    arch: Seq<char>,
    p: PackageView,
)
    requires
        db_packages(items, mirror, repo, arch) is Ok,
    ensures
        ({
            let more = items.push(TarView::File { path, text: Ok(content) });
            let before = db_packages(items, mirror, repo, arch)->Ok_0;
            &&& !text::ends_with(path, "/desc"@) ==> db_packages(more, mirror, repo, arch) == Ok::<
                Map<Seq<char>, PackageView>,
                Seq<char>,
            >(before)
            &&& text::ends_with(path, "/desc"@) && described(desc_fields(content), mirror, repo, arch)
                == Some(p) ==> db_packages(more, mirror, repo, arch) == Ok::<
                Map<Seq<char>, PackageView>,
                Seq<char>,
            >(before.insert(p.name, p))
            &&& described(desc_fields(content), mirror, repo, arch) is None ==> db_packages(
                more,
                mirror,
                repo,
                arch,
            ) == Ok::<Map<Seq<char>, PackageView>, Seq<char>>(before)
        }),
{
    let more = items.push(TarView::File { path, text: Ok(content) });
    assert(more.drop_last() =~= items);
}

/// A database with an entry that cannot be read is refused, whatever follows; so is
/// one with a description that cannot be read.
pub proof fn unreadable_databases_are_refused(
    items: Seq<TarView>,
    n: int,
    m: Seq<char>,
    mirror: Seq<char>,
    repo: Seq<char>,
    arch: Seq<char>,
)
    requires
        0 <= n < items.len(),
        items[n] == TarView::BadEntry(m) || items[n] == TarView::BadPath(m) || (items[n] matches TarView::File {
            path,
            text,
        } && text is Err && text::ends_with(path, "/desc"@)),
    ensures
        db_packages(items, mirror, repo, arch) is Err,
{
    let first = items.take(n + 1);
    assert(first.last() == items[n]);
    errors_stay(items, n + 1, mirror, repo, arch);
}

}
