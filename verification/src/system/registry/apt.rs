//! The package index of Debian and its relatives.
use super::apk::{blank, blank_package};
use super::{
    dep_name, dep_name_of, first_seen, keep_first_seen, package_views, PackageIndex,
    PackageMetadata, PackageView,
};
use crate::{outside, text};
use crate::error::{Result, WaxError};
use crate::outside::{DecodeFault, FaultView, gunzip_text};
use crate::text::{chars_of, find, lines_of, parsed_u64, part, pieces, pieces_str, put, same_str, string_of, trimmed, trimmed_start};
use vstd::prelude::*;

verus! {

pub struct AptRegistry {
    pub mirror: String,
    pub suite: String,
    pub components: Vec<String>,
    pub arch: String,
}

/// What Debian calls an architecture.
pub open spec fn deb_arch(arch: Seq<char>) -> Seq<char> {
    if arch == "x86_64"@ {
        "amd64"@
    } else if arch == "aarch64"@ {
        "arm64"@
    } else if arch == "arm"@ {
        "armhf"@
    } else {
        "amd64"@
    }
}

impl AptRegistry {
    /// Two components of a suite, for a machine of architecture `arch`.
    pub fn new(mirror: &str, suite: &str, arch: &str) -> (r: Self)
        ensures
            r.mirror@ == mirror@,
            r.suite@ == suite@,
            text::views(r.components@) == seq!["main"@, "universe"@],
            r.arch@ == deb_arch(arch@),
    {
        let deb = if same_str(arch, "x86_64") {
            "amd64"
        } else if same_str(arch, "aarch64") {
            "arm64"
        } else if same_str(arch, "arm") {
            "armhf"
        } else {
            "amd64"
        };
        let mut components: Vec<String> = Vec::new();
        components.push(String::from_str("main"));
        components.push(String::from_str("universe"));
        proof {
            assert(text::views(components@) =~= seq!["main"@, "universe"@]);
        }
        AptRegistry {
            mirror: String::from_str(mirror),
            suite: String::from_str(suite),
            components,
            arch: String::from_str(deb),
        }
    }

    pub fn ubuntu_default(arch: &str) -> (r: Self)
        ensures
            r.mirror@ == "http://archive.ubuntu.com/ubuntu"@,
            r.suite@ == "jammy"@,
            text::views(r.components@) == seq!["main"@, "universe"@],
            r.arch@ == deb_arch(arch@),
    {
        Self::new("http://archive.ubuntu.com/ubuntu", "jammy", arch)
    }

    pub fn debian_default(arch: &str) -> (r: Self)
        ensures
            r.mirror@ == "http://deb.debian.org/debian"@,
            r.suite@ == "bookworm"@,
            text::views(r.components@) == seq!["main"@, "universe"@],
            r.arch@ == deb_arch(arch@),
    {
        Self::new("http://deb.debian.org/debian", "bookworm", arch)
    }

    /// The name of the file that keeps this suite's index.
    pub fn cache_file(&self) -> (r: String)
        ensures
            r@ == "apt-"@ + self.suite@ + ".json"@,
    {
        let mut name = String::from_str("apt-");
        name.append(self.suite.as_str());
        name.append(".json");
        name
    }

    pub fn index_url(&self, component: &str) -> (r: String)
        ensures
            r@ == self.mirror@ + "/dists/"@ + self.suite@ + "/"@ + component@ + "/binary-"@
                + self.arch@ + "/Packages.gz"@,
    {
        let mut url = self.mirror.clone();
        url.append("/dists/");
        url.append(self.suite.as_str());
        url.append("/");
        url.append(component);
        url.append("/binary-");
        url.append(self.arch.as_str());
        url.append("/Packages.gz");
        url
    }

    /// The packages in a fetched `Packages.gz`.
    pub fn read_index(&self, bytes: &[u8]) -> (r: Result<Vec<PackageMetadata>>)
        ensures
            match outside::gzip_text(bytes@) {
                Ok(text) => r matches Ok(p) && package_views(p@) == apt_packages(
                    text,
                    self.mirror@,
                ),
                Err(FaultView::Start(m)) => r matches Err(WaxError::InstallError(e)) && e@
                    == "Failed to decompress APT Packages.gz: "@ + m,
                Err(FaultView::Read(m)) => r matches Err(WaxError::InstallError(e)) && e@
                    == "Failed to decompress APT Packages.gz: "@ + m,
            },
    {
        match gunzip_text(bytes) {
            Ok(text) => Ok(parse_packages_file(text.as_str(), self.mirror.as_str())),
            Err(DecodeFault::Start(m)) => {
                let mut t = String::from_str("Failed to decompress APT Packages.gz: ");
                t.append(m.as_str());
                Err(WaxError::InstallError(t))
            },
            Err(DecodeFault::Read(m)) => {
                let mut t = String::from_str("Failed to decompress APT Packages.gz: ");
                t.append(m.as_str());
                Err(WaxError::InstallError(t))
            },
        }
    }

    /// The index made of what the components gave, in their order.
    pub fn merge(&self, fetched: Vec<PackageMetadata>) -> (r: PackageIndex)
        ensures
            package_views(r.packages@) == first_seen(package_views(fetched@)),
    {
        PackageIndex { packages: keep_first_seen(fetched) }
    }
}

/// The first of the alternatives that a dependency offers.
pub open spec fn first_alternative(dep: Seq<char>) -> Seq<char> {
    text::trim(text::split(text::trim(dep), '|')[0])
}

/// The names that the entries of a `Depends` field ask for.
pub open spec fn depended(entries: Seq<Seq<char>>) -> Seq<Seq<char>>
    decreases entries.len(),
{
    if entries.len() == 0 {
        Seq::empty()
    } else {
        let first = first_alternative(entries.last());
        if first.len() > 0 {
            depended(entries.drop_last()).push(dep_name(first))
        } else {
            depended(entries.drop_last())
        }
    }
}

/// The names in the entries of a `Provides` field.
pub open spec fn provided(entries: Seq<Seq<char>>) -> Seq<Seq<char>>
    decreases entries.len(),
{
    if entries.len() == 0 {
        Seq::empty()
    } else {
        let n = dep_name(text::trim(entries.last()));
        if n.len() > 0 {
            provided(entries.drop_last()).push(n)
        } else {
            provided(entries.drop_last())
        }
    }
}

/// The first line of `s`, or `s` if it has none.
pub open spec fn first_line(s: Seq<char>) -> Seq<char> {
    if text::lines(s).len() > 0 {
        text::lines(s)[0]
    } else {
        s
    }
}

/// The kibibytes that a size field gives, in bytes.
pub open spec fn size_in_bytes(value: Seq<char>) -> nat {
    match text::parse_number(value, u64::MAX as nat) {
        Some(n) => (n * 1024) % 0x1_0000_0000_0000_0000,
        None => 0,
    }
}

/// A package as far as its stanza has been read.
pub struct StanzaView {
    pub package: PackageView,
    pub filename: Seq<char>,
    pub key: Seq<char>,
    pub value: Seq<char>,
}

/// What a field says of the package.
pub open spec fn on_field(s: StanzaView) -> StanzaView {
    let v = text::trim(s.value);
    let p = s.package;
    if s.key == "Package"@ {
        StanzaView { package: PackageView { name: v, ..p }, ..s }
    } else if s.key == "Version"@ {
        StanzaView { package: PackageView { version: v, ..p }, ..s }
    } else if s.key == "Description"@ {
        StanzaView { package: PackageView { description: first_line(v), ..p }, ..s }
    } else if s.key == "Filename"@ {
        StanzaView { filename: v, ..s }
    } else if s.key == "SHA256"@ {
        StanzaView { package: PackageView { sha256: Some(v), ..p }, ..s }
    } else if s.key == "Installed-Size"@ {
        StanzaView { package: PackageView { installed_size: size_in_bytes(v), ..p }, ..s }
    } else if s.key == "Depends"@ {
        StanzaView {
            package: PackageView { depends: p.depends + depended(text::split(v, ',')), ..p },
            ..s
        }
    } else if s.key == "Provides"@ {
        StanzaView {
            package: PackageView { provides: p.provides + provided(text::split(v, ',')), ..p },
            ..s
        }
    } else {
        s
    }
}

/// A field that is complete counts if it has a key.
pub open spec fn flush(s: StanzaView) -> StanzaView {
    if s.key.len() > 0 {
        on_field(s)
    } else {
        s
    }
}

/// An indented line continues the field that stands open; a line with a colon
/// opens a new one; any other line is skipped.
pub open spec fn on_line(s: StanzaView, line: Seq<char>) -> StanzaView {
    if line.len() > 0 && (line[0] == ' ' || line[0] == '\t') {
        StanzaView { value: s.value.push('\n') + text::trim_start(line), ..s }
    } else if text::contains(line, seq![':']) {
        let colon = text::position(line, seq![':']);
        StanzaView {
            key: text::trim(line.take(colon)),
            value: text::trim(line.skip(colon + 1)),
            ..flush(s)
        }
    } else {
        s
    }
}

pub open spec fn on_lines(l: Seq<Seq<char>>) -> StanzaView
    decreases l.len(),
{
    if l.len() == 0 {
        StanzaView {
            package: blank(),
            filename: Seq::empty(),
            key: Seq::empty(),
            value: Seq::empty(),
        }
    } else {
        on_line(on_lines(l.drop_last()), l.last())
    }
}

/// The packages that the stanzas describe. A stanza without a name, a version or
/// a file describes none.
pub open spec fn stanza_packages(stanzas: Seq<Seq<char>>, mirror: Seq<char>) -> Seq<PackageView>
    decreases stanzas.len(),
{
    if stanzas.len() == 0 {
        Seq::empty()
    } else {
        let before = stanza_packages(stanzas.drop_last(), mirror);
        let s = flush(on_lines(text::lines(text::trim(stanzas.last()))));
        if s.package.name.len() > 0 && s.package.version.len() > 0 && s.filename.len() > 0 {
            before.push(
                PackageView { download_url: mirror + "/"@ + s.filename, ..s.package },
            )
        } else {
            before
        }
    }
}

/// The packages of an index: its stanzas stand between empty lines.
pub open spec fn apt_packages(content: Seq<char>, mirror: Seq<char>) -> Seq<PackageView> {
    stanza_packages(text::split_str(content, "\n\n"@), mirror)
}

struct Stanza {
    package: PackageMetadata,
    filename: String,
    key: Vec<char>,
    value: Vec<char>,
}

impl View for Stanza {
    type V = StanzaView;

    closed spec fn view(&self) -> StanzaView {
        StanzaView {
            package: self.package@,
            filename: self.filename@,
            key: self.key@,
            value: self.value@,
        }
    }
}

/// A `Stanza` is seen as what it holds.
proof fn stanza_is_seen_as_it_is(x: Stanza)
    ensures
        x@.package == x.package@,
        x@.filename == x.filename@,
        x@.key == x.key@,
        x@.value == x.value@,
{
}

fn is_key(s: &Stanza, key: &str) -> (r: bool)
    ensures
        r == (s@.key == key@),
{
    crate::text::is(s.key.as_slice(), key)
}

fn flush_field(s: &mut Stanza)
    ensures
        final(s)@ == flush(old(s)@),
{
    if s.key.len() == 0 {
        return;
    }
    let raw = s.value.clone();
    proof {
        assert(raw@ =~= s.value@);
    }
    let v = trimmed(raw.as_slice());
    let ghost before = s@;
    if is_key(s, "Package") {
        s.package.name = string_of(v);
    } else if is_key(s, "Version") {
        s.package.version = string_of(v);
    } else if is_key(s, "Description") {
        let l = lines_of(v);
        proof {
            assert(text::slices(l@).len() == l@.len());
        }
        if l.len() > 0 {
            proof {
                assert(text::slices(l@)[0] == l@[0]@);
            }
            s.package.description = string_of(l[0]);
        } else {
            s.package.description = string_of(v);
        }
    } else if is_key(s, "Filename") {
        s.filename = string_of(v);
    } else if is_key(s, "SHA256") {
        s.package.sha256 = Some(string_of(v));
    } else if is_key(s, "Installed-Size") {
        s.package.installed_size =
        match parsed_u64(v, u64::MAX) {
            Some(n) => n.wrapping_mul(1024),
            None => 0,
        };
    } else if is_key(s, "Depends") {
        add_depends(&mut s.package, v);
    } else if is_key(s, "Provides") {
        add_provides(&mut s.package, v);
    }
}

fn add_depends(p: &mut PackageMetadata, v: &[char])
    ensures
        final(p)@ == (PackageView {
            depends: old(p)@.depends + depended(text::split(v@, ',')),
            ..old(p)@
        }),
{
    let entries = pieces(v, ',');
    let ghost s = text::slices(entries@);
    let ghost before = p@;
    proof {
        assert(before.depends + depended(s.take(0)) =~= before.depends);
    }
    for i in 0..entries.len()
        invariant
            s == text::slices(entries@),
            p@ == (PackageView {
                depends: before.depends + depended(s.take(i as int)),
                ..before
            }),
    {
        let ghost so_far = p@.depends;
        proof {
            assert(s.take(i + 1).drop_last() =~= s.take(i as int));
            assert(s.take(i + 1).last() == entries@[i as int]@);
        }
        let alternatives = pieces(trimmed(entries[i]), '|');
        proof {
            assert(text::slices(alternatives@)[0] == alternatives@[0]@);
        }
        let first = trimmed(alternatives[0]);
        if first.len() > 0 {
            let n = dep_name_of(first);
            p.depends.push(string_of(n));
            proof {
                assert(p@.depends =~= so_far.push(n@));
                assert(before.depends + depended(s.take(i as int)).push(n@) =~= so_far.push(n@));
            }
        }
    }
    proof {
        assert(s.take(s.len() as int) =~= s);
    }
}

fn add_provides(p: &mut PackageMetadata, v: &[char])
    ensures
        final(p)@ == (PackageView {
            provides: old(p)@.provides + provided(text::split(v@, ',')),
            ..old(p)@
        }),
{
    let entries = pieces(v, ',');
    let ghost s = text::slices(entries@);
    let ghost before = p@;
    proof {
        assert(before.provides + provided(s.take(0)) =~= before.provides);
    }
    for i in 0..entries.len()
        invariant
            s == text::slices(entries@),
            p@ == (PackageView {
                provides: before.provides + provided(s.take(i as int)),
                ..before
            }),
    {
        let ghost so_far = p@.provides;
        proof {
            assert(s.take(i + 1).drop_last() =~= s.take(i as int));
            assert(s.take(i + 1).last() == entries@[i as int]@);
        }
        let n = dep_name_of(trimmed(entries[i]));
        if n.len() > 0 {
            p.provides.push(string_of(n));
            proof {
                assert(p@.provides =~= so_far.push(n@));
                assert(before.provides + provided(s.take(i as int)).push(n@) =~= so_far.push(n@));
            }
        }
    }
    proof {
        assert(s.take(s.len() as int) =~= s);
    }
}

fn read_line(s: &mut Stanza, line: &[char])
    ensures
        final(s)@ == on_line(old(s)@, line@),
{
    if line.len() > 0 && (line[0] == ' ' || line[0] == '\t') {
        s.value.push('\n');
        put(&mut s.value, trimmed_start(line));
        return;
    }
    let colon: Vec<char> = vec![':'];
    proof {
        assert(colon@ =~= seq![':']);
    }
    let n: usize = line.len();
    match find(line, colon.as_slice()) {
        Some(i) => {
            proof {
                text::position_is(line@, seq![':'], i as int);
            }
            let head = part(line, 0, i);
            let tail = part(line, i + 1, n);
            proof {
                assert(head@ =~= line@.take(i as int));
                assert(tail@ =~= line@.skip(i + 1));
            }
            flush_field(s);
            s.key = crate::text::owned(trimmed(head));
            s.value = crate::text::owned(trimmed(tail));
        },
        None => {},
    }
}

fn read_stanza(stanza: &[char]) -> (r: Stanza)
    ensures
        r@ == flush(on_lines(text::lines(stanza@))),
{
    let l = lines_of(stanza);
    let ghost v = text::slices(l@);
    let mut s = Stanza {
        package: blank_package(),
        filename: String::new(),
        key: Vec::new(),
        value: Vec::new(),
    };
    for i in 0..l.len()
        invariant
            v == text::slices(l@),
            s@ == on_lines(v.take(i as int)),
    {
        proof {
            assert(v.take(i + 1).drop_last() =~= v.take(i as int));
            assert(v.take(i + 1).last() == l@[i as int]@);
        }
        read_line(&mut s, l[i]);
    }
    proof {
        assert(v.take(v.len() as int) =~= v);
    }
    flush_field(&mut s);
    s
}

/// The packages that a `Packages` file describes; their files lie under `mirror`.
pub fn parse_packages_file(content: &str, mirror: &str) -> (r: Vec<PackageMetadata>)
    ensures
        package_views(r@) == apt_packages(content@, mirror@),
{
    let c = chars_of(content);
    proof {
        reveal_strlit("\n\n");
    }
    let stanzas = pieces_str(c.as_slice(), "\n\n");
    let ghost s = text::slices(stanzas@);
    let mut packages: Vec<PackageMetadata> = Vec::new();
    proof {
        assert(package_views(packages@) =~= Seq::<PackageView>::empty());
    }
    for i in 0..stanzas.len()
        invariant
            s == text::slices(stanzas@),
            package_views(packages@) == stanza_packages(s.take(i as int), mirror@),
    {
        let ghost before = package_views(packages@);
        proof {
            assert(s.take(i + 1).drop_last() =~= s.take(i as int));
            assert(s.take(i + 1).last() == stanzas@[i as int]@);
        }
        let read = read_stanza(trimmed(stanzas[i]));
        let mut p = read.package;
        if !p.name.as_str().is_empty() && !p.version.as_str().is_empty()
            && !read.filename.as_str().is_empty() {
            let mut url = String::from_str(mirror);
            url.append("/");
            url.append(read.filename.as_str());
            p.download_url = url;
            packages.push(p);
            proof {
                assert(package_views(packages@) =~= before.push(p@));
            }
        }
    }
    proof {
        assert(s.take(s.len() as int) =~= s);
    }
    packages
}

// ---------------------------------------------------------------------------
// Laws

/// A field that a line of its own gives, after the lines before it.
pub open spec fn after_field(l: Seq<Seq<char>>, key: Seq<char>, v: Seq<char>) -> StanzaView {
    flush(on_lines(l.push(key + ":"@ + v)))
}

proof fn field_is_read(l: Seq<Seq<char>>, key: Seq<char>, v: Seq<char>)
    requires
        key.len() > 0,
        !key.contains(':'),
        text::trim(key) == key,
        key[0] != ' ',
        key[0] != '\t',
    ensures
        on_lines(l.push(key + ":"@ + v)) == (StanzaView {
            key,
            value: text::trim(v),
            ..flush(on_lines(l))
        }),
{
    let line = key + ":"@ + v;
    reveal_strlit(":");
    assert(":"@ =~= seq![':']);
    assert(l.push(line).drop_last() =~= l);
    assert(line[0] == key[0]);
    assert forall|j: int| 0 <= j < key.len() implies !text::occurs_at(key + seq![':'] + v, seq![':'], j) by {
        if text::occurs_at(key + seq![':'] + v, seq![':'], j) {
            assert(line.subrange(j, j + 1)[0] == key[j]);
            assert(key.contains(key[j]));
        }
    }
    text::position_of_first(key, seq![':'], v);
}

/// Each field of a stanza gives the part of the package that it is named for, and
/// leaves every other part as it is.
pub proof fn fields_give_their_part(l: Seq<Seq<char>>, v: Seq<char>)
    ensures
        ({
            let before = flush(on_lines(l));
            let p = before.package;
            let t = text::trim(v);
            &&& after_field(l, "Package"@, v).package == (PackageView { name: t, ..p })
            &&& after_field(l, "Version"@, v).package == (PackageView { version: t, ..p })
            &&& after_field(l, "SHA256"@, v).package == (PackageView { sha256: Some(t), ..p })
            &&& after_field(l, "Description"@, v).package == (PackageView {
                description: first_line(t),
                ..p
            })
            &&& after_field(l, "Installed-Size"@, v).package == (PackageView {
                installed_size: size_in_bytes(t),
                ..p
            })
            &&& after_field(l, "Depends"@, v).package == (PackageView {
                depends: p.depends + depended(text::split(t, ',')),
                ..p
            })
            &&& after_field(l, "Provides"@, v).package == (PackageView {
                provides: p.provides + provided(text::split(t, ',')),
                ..p
            })
            &&& after_field(l, "Filename"@, v).filename == t
            &&& after_field(l, "Filename"@, v).package == p
            &&& after_field(l, "Package"@, v).filename == before.filename
            &&& after_field(l, "Version"@, v).filename == before.filename
            &&& after_field(l, "SHA256"@, v).filename == before.filename
            &&& after_field(l, "Description"@, v).filename == before.filename
            &&& after_field(l, "Installed-Size"@, v).filename == before.filename
            &&& after_field(l, "Depends"@, v).filename == before.filename
            &&& after_field(l, "Provides"@, v).filename == before.filename
        }),
{
    keys_are_plain();
    keys_differ();
    field_is_put(l, "Package"@, v);
    field_is_put(l, "Version"@, v);
    field_is_put(l, "SHA256"@, v);
    field_is_put(l, "Description"@, v);
    field_is_put(l, "Installed-Size"@, v);
    field_is_put(l, "Depends"@, v);
    field_is_put(l, "Provides"@, v);
    field_is_put(l, "Filename"@, v);
    text::trimming_is_idempotent(v);
}

proof fn field_is_put(l: Seq<Seq<char>>, key: Seq<char>, v: Seq<char>)
    requires
        is_plain_key(key),
    ensures
        after_field(l, key, v) == on_field(
            StanzaView { key, value: text::trim(v), ..flush(on_lines(l)) },
        ),
{
    plain_key(key);
    field_is_read(l, key, v);
}

spec fn is_plain_key(key: Seq<char>) -> bool {
    key.len() > 0 && forall|i: int|
        0 <= i < key.len() ==> '!' <= #[trigger] key[i] <= '~' && key[i] != ':'
}

proof fn keys_are_plain()
    ensures
        is_plain_key("Package"@) && is_plain_key("Version"@) && is_plain_key("SHA256"@),
        is_plain_key("Description"@) && is_plain_key("Installed-Size"@),
        is_plain_key("Depends"@) && is_plain_key("Provides"@) && is_plain_key("Filename"@),
{
    reveal_strlit("Package");
    reveal_strlit("Version");
    reveal_strlit("SHA256");
    reveal_strlit("Description");
    reveal_strlit("Installed-Size");
    reveal_strlit("Depends");
    reveal_strlit("Provides");
    reveal_strlit("Filename");
}

/// No two of the fields go by one name.
proof fn keys_differ()
    ensures
        "Package"@ != "Version"@ && "Package"@ != "Depends"@ && "Version"@ != "Depends"@,
        "Package"@.len() == 7 && "Version"@.len() == 7 && "Depends"@.len() == 7,
        "Provides"@ != "Filename"@ && "Provides"@.len() == 8 && "Filename"@.len() == 8,
        "SHA256"@.len() == 6 && "Description"@.len() == 11 && "Installed-Size"@.len() == 14,
{
    reveal_strlit("Package");
    reveal_strlit("Version");
    reveal_strlit("SHA256");
    reveal_strlit("Description");
    reveal_strlit("Installed-Size");
    reveal_strlit("Depends");
    reveal_strlit("Provides");
    reveal_strlit("Filename");
    assert("Package"@[0] == 'P' && "Version"@[0] == 'V' && "Depends"@[0] == 'D');
    assert("Provides"@[0] == 'P' && "Filename"@[0] == 'F');
}

proof fn plain_key(key: Seq<char>)
    requires
        key.len() > 0,
        forall|i: int| 0 <= i < key.len() ==> '!' <= #[trigger] key[i] <= '~' && key[i] != ':',
    ensures
        !key.contains(':'),
        text::trim(key) == key,
        key[0] != ' ' && key[0] != '\t',
{
    let none = Seq::<char>::empty();
    text::seen_characters_are_no_space(key[0]);
    text::seen_characters_are_no_space(key[key.len() - 1]);
    text::trimming_keeps_the_middle(none, key, none);
}

/// A field of any other name changes nothing, and neither does a line without one.
pub proof fn other_fields_change_nothing(l: Seq<Seq<char>>, key: Seq<char>, v: Seq<char>, line: Seq<char>)
    requires
        key.len() > 0,
        forall|i: int| 0 <= i < key.len() ==> '!' <= #[trigger] key[i] <= '~' && key[i] != ':',
        key != "Package"@ && key != "Version"@ && key != "SHA256"@ && key != "Description"@ && key
            != "Installed-Size"@ && key != "Depends"@ && key != "Provides"@ && key != "Filename"@,
        line.len() > 0 ==> line[0] != ' ' && line[0] != '\t',
        !line.contains(':'),
    ensures
        after_field(l, key, v).package == flush(on_lines(l)).package,
        after_field(l, key, v).filename == flush(on_lines(l)).filename,
        on_lines(l.push(line)) == on_lines(l),
{
    plain_key(key);
    field_is_read(l, key, v);
    assert(l.push(line).drop_last() =~= l);
    if text::contains(line, seq![':']) {
        let j = choose|j: int| text::occurs_at(line, seq![':'], j);
        assert(line.subrange(j, j + 1)[0] == line[j]);
        assert(line.contains(line[j]));
    }
}

/// A line that begins with a blank or a tab goes on with the value of the field before
/// it, without the white space that it begins with.
pub proof fn values_go_on(l: Seq<Seq<char>>, line: Seq<char>)
    requires
        line.len() > 0,
        line[0] == ' ' || line[0] == '\t',
    ensures
        on_lines(l.push(line)) == (StanzaView {
            value: on_lines(l).value + seq!['\n'] + text::trim_start(line),
            ..on_lines(l)
        }),
{
    assert(l.push(line).drop_last() =~= l);
    assert(on_lines(l).value.push('\n') =~= on_lines(l).value + seq!['\n']);
}

/// Of alternatives the first counts; a dependency without any is taken as it is.
pub proof fn first_alternative_counts(a: Seq<char>, b: Seq<char>)
    requires
        a.len() > 0,
        !text::is_space(a[0]),
        !a.contains('|'),
        b.len() > 0,
        !text::is_space(b.last()),
    ensures
        first_alternative(a + "|"@ + b) == text::trim(a),
        first_alternative(a) == text::trim(a),
{
    reveal_strlit("|");
    let s = a + "|"@ + b;
    let none = Seq::<char>::empty();
    assert(s[0] == a[0] && s.last() == b.last());
    text::trimming_keeps_the_middle(none, s, none);
    assert(s =~= a.push('|') + b);
    text::split_of_both(a, b, '|');
    text::plain_is_one_piece(a, '|');
    assert(text::split(s, '|')[0] == a);
    text::trimming_is_idempotent(a);
    assert(!text::trim(a).contains('|')) by {
        trimmed_holds_no_more(a, '|');
    }
    text::plain_is_one_piece(text::trim(a), '|');
}

proof fn trimmed_holds_no_more(s: Seq<char>, c: char)
    requires
        !s.contains(c),
    ensures
        !text::trim(s).contains(c),
{
    start_holds_no_more(s, c);
    end_holds_no_more(text::trim_start(s), c);
}

proof fn start_holds_no_more(s: Seq<char>, c: char)
    requires
        !s.contains(c),
    ensures
        !text::trim_start(s).contains(c),
    decreases s.len(),
{
    if s.len() > 0 && text::is_space(s[0]) {
        assert forall|i: int| 0 <= i < s.skip(1).len() implies s.skip(1)[i] != c by {
            assert(s[i + 1] != c);
        }
        start_holds_no_more(s.skip(1), c);
    }
}

proof fn end_holds_no_more(s: Seq<char>, c: char)
    requires
        !s.contains(c),
    ensures
        !text::trim_end(s).contains(c),
    decreases s.len(),
{
    if s.len() > 0 && text::is_space(s.last()) {
        assert forall|i: int| 0 <= i < s.drop_last().len() implies s.drop_last()[i] != c by {
            assert(s[i] != c);
        }
        end_holds_no_more(s.drop_last(), c);
    }
}

/// Each dependency that is not blank is named, by its first alternative, and so is
/// each name that is provided; both keep their order.
pub proof fn dependencies_are_named(entries: Seq<Seq<char>>, e: Seq<char>)
    ensures
        first_alternative(e).len() > 0 ==> depended(entries.push(e)) == depended(entries).push(
            dep_name(first_alternative(e)),
        ),
        first_alternative(e).len() == 0 ==> depended(entries.push(e)) == depended(entries),
        dep_name(text::trim(e)).len() > 0 ==> provided(entries.push(e)) == provided(entries).push(
            dep_name(text::trim(e)),
        ),
        dep_name(text::trim(e)).len() == 0 ==> provided(entries.push(e)) == provided(entries),
        depended(Seq::empty()) == Seq::<Seq<char>>::empty(),
        provided(Seq::empty()) == Seq::<Seq<char>>::empty(),
{
    assert(entries.push(e).drop_last() =~= entries);
}

/// A size is given in units of 1024 bytes; what is no number counts for nothing.
pub proof fn sizes_are_in_kibibytes(n: nat, v: Seq<char>)
    ensures
        n * 1024 <= u64::MAX ==> size_in_bytes(text::decimal(n)) == n * 1024,
        text::parse_number(v, u64::MAX as nat) is None ==> size_in_bytes(v) == 0,
{
    text::numbers_are_read_back(n, u64::MAX as nat);
    if n * 1024 <= u64::MAX {
        assert(n <= u64::MAX);
        vstd::arithmetic::div_mod::lemma_small_mod(n * 1024, 0x1_0000_0000_0000_0000);
    }
}

/// The description of a package is the first line of what is said of it.
pub proof fn first_line_describes(l: Seq<Seq<char>>)
    requires
        l.len() > 0,
        forall|i: int| 0 <= i < l.len() ==> text::is_line(#[trigger] l[i]),
    ensures
        first_line(text::written(l)) == l[0],
{
    text::first_line_is_first(l);
}

/// A stanza is a package where it has a name, a version and a file, which stands below
/// the mirror; the packages keep the order of the stanzas.
pub proof fn stanzas_are_packages(stanzas: Seq<Seq<char>>, stanza: Seq<char>, mirror: Seq<char>)
    ensures
        ({
            let s = flush(on_lines(text::lines(text::trim(stanza))));
            let p = s.package;
            let before = stanza_packages(stanzas, mirror);
            let now = stanza_packages(stanzas.push(stanza), mirror);
            &&& p.name.len() == 0 || p.version.len() == 0 || s.filename.len() == 0 ==> now == before
            &&& p.name.len() > 0 && p.version.len() > 0 && s.filename.len() > 0 ==> now
                == before.push(
                PackageView {
                    name: p.name,
                    version: p.version,
                    description: p.description,
                    download_url: mirror + "/"@ + s.filename,
                    sha256: p.sha256,
                    installed_size: p.installed_size,
                    depends: p.depends,
                    provides: p.provides,
                },
            )
        }),
{
    assert(stanzas.push(stanza).drop_last() =~= stanzas);
}

/// An empty line parts the stanzas of an index.
pub proof fn empty_lines_part_stanzas(a: Seq<char>, b: Seq<char>, mirror: Seq<char>)
    ensures
        text::first_at(a + "\n\n"@ + b, "\n\n"@, a.len() as int) ==> apt_packages(
            a + "\n\n"@ + b,
            mirror,
        ) == stanza_packages(seq![a] + text::split_str(b, "\n\n"@), mirror),
        !text::contains(a, "\n\n"@) ==> apt_packages(a, mirror) == stanza_packages(seq![a], mirror),
{
    reveal_strlit("\n\n");
    text::splitting_at_the_first(a, "\n\n"@, b);
}

/// What Debian calls an architecture; one that it does not know is taken for the
/// common one.
pub proof fn architectures_are_named(arch: Seq<char>)
    ensures
        arch == "aarch64"@ ==> deb_arch(arch) == "arm64"@,
        arch == "arm"@ ==> deb_arch(arch) == "armhf"@,
        arch != "aarch64"@ && arch != "arm"@ ==> deb_arch(arch) == "amd64"@,
{
    reveal_strlit("arm");
    reveal_strlit("aarch64");
    reveal_strlit("x86_64");
    assert("arm"@.len() == 3 && "aarch64"@.len() == 7 && "x86_64"@.len() == 6);
}

}
