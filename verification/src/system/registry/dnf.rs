//! Repositories of RPM packages.
use super::{package_views, PackageMetadata, PackageView};
use crate::{outside, text};
use crate::error::{Result, WaxError};
use crate::outside::{DecodeFault, FaultView, XmlEvent, XmlView, alphanumeric, gunzip_text, unzstd_text, utf8_text, xml_events};
use crate::text::{begins, chars_of, ends, lines_of, parsed_u64, same_str, string_of, without_leading, without_trailing};
use vstd::prelude::*;
use vstd::utf8::{decode_utf8, valid_utf8};

verus! {

pub struct DnfRegistry {
    pub baseurl: String,
}

/// The characters of an address with everything but letters and numbers made a dash.
pub open spec fn dashed(s: Seq<char>) -> Seq<char> {
    Seq::new(
        s.len(),
        |i: int|
            if outside::char_is_alphanumeric(s[i]) {
                s[i]
            } else {
                '-'
            },
    )
}

/// The last `n` characters of `s`, or all of it.
pub open spec fn last_chars(s: Seq<char>, n: int) -> Seq<char> {
    if s.len() > n {
        s.skip(s.len() - n)
    } else {
        s
    }
}

impl DnfRegistry {
    /// A repository at `baseurl`, whose closing slashes do not count.
    pub fn new(baseurl: &str) -> (r: Self)
        ensures
            r.baseurl@ == text::trim_end_char(baseurl@, '/'),
    {
        let c = chars_of(baseurl);
        DnfRegistry { baseurl: string_of(without_trailing(c.as_slice(), '/')) }
    }

    pub fn fedora_default() -> (r: Self)
        ensures
            r.baseurl@ == text::trim_end_char(
                "https://dl.fedoraproject.org/pub/fedora/linux/releases/39/Everything/x86_64/os/"@,
                '/',
            ),
    {
        Self::new("https://dl.fedoraproject.org/pub/fedora/linux/releases/39/Everything/x86_64/os/")
    }

    /// The name of the file that keeps this repository's index.
    pub fn cache_file(&self) -> (r: String)
        ensures
            r@ == "dnf-"@ + last_chars(dashed(self.baseurl@), 40) + ".json"@,
    {
        let c = chars_of(self.baseurl.as_str());
        let mut safe: Vec<char> = Vec::new();
        for i in 0..c.len()
            invariant
                c@ == self.baseurl@,
                safe@ == dashed(c@).take(i as int),
        {
            if alphanumeric(c[i]) {
                safe.push(c[i]);
            } else {
                safe.push('-');
            }
            proof {
                assert(safe@ =~= dashed(c@).take(i + 1));
            }
        }
        proof {
            assert(dashed(c@).take(c@.len() as int) =~= dashed(c@));
        }
        let from: usize = if safe.len() > 40 {
            safe.len() - 40
        } else {
            0
        };
        let tail = crate::text::part(safe.as_slice(), from, safe.len());
        proof {
            assert(tail@ =~= last_chars(safe@, 40));
        }
        let mut name = String::from_str("dnf-");
        name.append(string_of(tail).as_str());
        name.append(".json");
        name
    }

    pub fn repomd_url(&self) -> (r: String)
        ensures
            r@ == self.baseurl@ + "/repodata/repomd.xml"@,
    {
        let mut url = self.baseurl.clone();
        url.append("/repodata/repomd.xml");
        url
    }

    pub fn primary_url(&self, location: &str) -> (r: String)
        ensures
            r@ == self.baseurl@ + "/"@ + location@,
    {
        let mut url = self.baseurl.clone();
        url.append("/");
        url.append(location);
        url
    }

    /// The packages of a primary index that was fetched from `location`.
    pub fn read_primary(&self, location: &str, bytes: &[u8]) -> (r: Result<Vec<PackageMetadata>>)
        ensures
            match primary_text(location@, bytes@) {
                Ok(xml) => r matches Ok(p) && package_views(p@) == primary_packages(
                    outside::xml_event_list(xml),
                    self.baseurl@,
                ),
                Err(m) => r matches Err(WaxError::InstallError(e)) && e@ == m,
            },
    {
        match decode_primary(location, bytes) {
            Ok(xml) => Ok(parse_primary_xml(xml.as_str(), self.baseurl.as_str())),
            Err(e) => Err(e),
        }
    }
}

/// What the bytes fetched from `location` hold, or the message for bytes that
/// hold no text. The ending of the location tells how they are compressed.
pub open spec fn primary_text(location: Seq<char>, bytes: Seq<u8>) -> std::result::Result<
    Seq<char>,
    Seq<char>,
> {
    if text::ends_with(location, ".gz"@) {
        match outside::gzip_text(bytes) {
            Ok(text) => Ok(text),
            Err(FaultView::Start(m)) => Err("Failed to decompress primary.xml.gz: "@ + m),
            Err(FaultView::Read(m)) => Err("Failed to decompress primary.xml.gz: "@ + m),
        }
    } else if text::ends_with(location, ".zst"@) {
        match outside::zstd_text(bytes) {
            Ok(text) => Ok(text),
            Err(FaultView::Start(m)) => Err("Failed to create zstd decoder: "@ + m),
            Err(FaultView::Read(m)) => Err("Failed to decompress primary.xml.zst: "@ + m),
        }
    } else if valid_utf8(bytes) {
        Ok(decode_utf8(bytes))
    } else {
        Err("primary.xml is not valid UTF-8: "@ + outside::utf8_fault(bytes))
    }
}

fn fault(prefix: &str, m: &str) -> (r: WaxError)
    ensures
        r matches WaxError::InstallError(t) && t@ == prefix@ + m@,
{
    let mut t = String::from_str(prefix);
    t.append(m);
    WaxError::InstallError(t)
}

/// The text of a primary index that was fetched from `location`.
pub fn decode_primary(location: &str, bytes: &[u8]) -> (r: Result<String>)
    ensures
        match primary_text(location@, bytes@) {
            Ok(text) => r matches Ok(t) && t@ == text,
            Err(m) => r matches Err(WaxError::InstallError(e)) && e@ == m,
        },
{
    let l = chars_of(location);
    if ends(l.as_slice(), ".gz") {
        match gunzip_text(bytes) {
            Ok(text) => Ok(text),
            Err(DecodeFault::Start(m)) => Err(
                fault("Failed to decompress primary.xml.gz: ", m.as_str()),
            ),
            Err(DecodeFault::Read(m)) => Err(
                fault("Failed to decompress primary.xml.gz: ", m.as_str()),
            ),
        }
    } else if ends(l.as_slice(), ".zst") {
        match unzstd_text(bytes) {
            Ok(text) => Ok(text),
            Err(DecodeFault::Start(m)) => Err(
                fault("Failed to create zstd decoder: ", m.as_str()),
            ),
            Err(DecodeFault::Read(m)) => Err(
                fault("Failed to decompress primary.xml.zst: ", m.as_str()),
            ),
        }
    } else {
        match utf8_text(bytes) {
            Ok(text) => Ok(text),
            Err(m) => Err(fault("primary.xml is not valid UTF-8: ", m.as_str())),
        }
    }
}

// ---------------------------------------------------------------------------
// Attributes

type Attrs = Seq<(Seq<char>, Seq<char>)>;

/// Some attribute is called `key` and has the value `value`.
pub open spec fn has_attr(attrs: Attrs, key: Seq<char>, value: Seq<char>) -> bool {
    attrs.contains((key, value))
}

/// The value of the last attribute called `key`.
pub open spec fn last_attr(attrs: Attrs, key: Seq<char>) -> Option<Seq<char>>
    decreases attrs.len(),
{
    if attrs.len() == 0 {
        None
    } else if attrs.last().0 == key {
        Some(attrs.last().1)
    } else {
        last_attr(attrs.drop_last(), key)
    }
}

/// The value of the first attribute called `key`.
pub open spec fn first_attr(attrs: Attrs, key: Seq<char>) -> Option<Seq<char>>
    decreases attrs.len(),
{
    if attrs.len() == 0 {
        None
    } else if attrs[0].0 == key {
        Some(attrs[0].1)
    } else {
        first_attr(attrs.skip(1), key)
    }
}

/// The dependencies that an entry names: no leading slashes, and nothing that
/// only the package manager itself provides.
pub open spec fn entry_names(attrs: Attrs) -> Seq<Seq<char>>
    decreases attrs.len(),
{
    if attrs.len() == 0 {
        Seq::empty()
    } else {
        let before = entry_names(attrs.drop_last());
        let dep = text::trim_start_char(attrs.last().1, '/');
        if attrs.last().0 == "name"@ && !text::starts_with(dep, "rpmlib("@) {
            before.push(dep)
        } else {
            before
        }
    }
}

fn attr_is(attrs: &Vec<(String, String)>, key: &str, value: &str) -> (r: bool)
    ensures
        r == has_attr(outside::pair_views(attrs@), key@, value@),
{
    let ghost p = outside::pair_views(attrs@);
    for i in 0..attrs.len()
        invariant
            p == outside::pair_views(attrs@),
            forall|j: int| 0 <= j < i ==> p[j] != (key@, value@),
    {
        if same_str(attrs[i].0.as_str(), key) && same_str(attrs[i].1.as_str(), value) {
            proof {
                assert(p[i as int] == (key@, value@));
            }
            return true;
        }
        proof {
            assert(p[i as int] == (attrs@[i as int].0@, attrs@[i as int].1@));
        }
    }
    false
}

fn attr_last(attrs: &Vec<(String, String)>, key: &str) -> (r: Option<String>)
    ensures
        text::opt_view(r) == last_attr(outside::pair_views(attrs@), key@),
{
    let ghost p = outside::pair_views(attrs@);
    let mut n: usize = attrs.len();
    proof {
        assert(p.take(n as int) =~= p);
    }
    while n > 0
        invariant
            n <= attrs@.len(),
            p == outside::pair_views(attrs@),
            last_attr(p, key@) == last_attr(p.take(n as int), key@),
        decreases n,
    {
        proof {
            assert(p.take(n as int).last() == (attrs@[n - 1].0@, attrs@[n - 1].1@));
            assert(p.take(n as int).drop_last() =~= p.take(n - 1));
        }
        if same_str(attrs[n - 1].0.as_str(), key) {
            return Some(attrs[n - 1].1.clone());
        }
        n -= 1;
    }
    None
}

fn attr_first(attrs: &Vec<(String, String)>, key: &str) -> (r: Option<String>)
    ensures
        text::opt_view(r) == first_attr(outside::pair_views(attrs@), key@),
{
    let ghost p = outside::pair_views(attrs@);
    proof {
        assert(p.skip(0) =~= p);
    }
    for i in 0..attrs.len()
        invariant
            p == outside::pair_views(attrs@),
            first_attr(p, key@) == first_attr(p.skip(i as int), key@),
    {
        proof {
            assert(p.skip(i as int)[0] == (attrs@[i as int].0@, attrs@[i as int].1@));
            assert(p.skip(i as int).skip(1) =~= p.skip(i + 1));
        }
        if same_str(attrs[i].0.as_str(), key) {
            return Some(attrs[i].1.clone());
        }
    }
    None
}

// ---------------------------------------------------------------------------
// The list of a repository's files

/// The address of the primary index among the events of a `repomd.xml`:
/// `in_primary` tells whether the enclosing `data` element is the primary one.
pub open spec fn primary_location(events: Seq<XmlView>, in_primary: bool) -> Option<Seq<char>>
    decreases events.len(),
{
    if events.len() == 0 {
        None
    } else {
        match events[0] {
            XmlView::Open { name, attrs } => {
                let primary = if name == "data"@ {
                    has_attr(attrs, "type"@, "primary"@)
                } else {
                    in_primary
                };
                if primary && name == "location"@ && first_attr(attrs, "href"@) is Some {
                    first_attr(attrs, "href"@)
                } else {
                    primary_location(events.skip(1), primary)
                }
            },
            XmlView::Close { name } => primary_location(
                events.skip(1),
                in_primary && name != "data"@,
            ),
            _ => primary_location(events.skip(1), in_primary),
        }
    }
}

pub fn find_primary_location(repomd_xml: &str) -> (r: Option<String>)
    ensures
        text::opt_view(r) == primary_location(outside::xml_event_list(repomd_xml@), false),
{
    let events = xml_events(repomd_xml);
    find_location_in(&events)
}

/// The address of the primary index among the events of a `repomd.xml`.
pub fn find_location_in(events: &Vec<XmlEvent>) -> (r: Option<String>)
    ensures
        text::opt_view(r) == primary_location(outside::event_views(events@), false),
{
    let ghost v = outside::event_views(events@);
    let mut in_primary: bool = false;
    proof {
        assert(v.skip(0) =~= v);
    }
    for i in 0..events.len()
        invariant
            v == outside::event_views(events@),
            primary_location(v, false) == primary_location(v.skip(i as int), in_primary),
    {
        proof {
            assert(v.skip(i as int)[0] == events@[i as int]@);
            assert(v.skip(i as int).skip(1) =~= v.skip(i + 1));
        }
        match &events[i] {
            XmlEvent::Open { name, attrs } => {
                if same_str(name.as_str(), "data") {
                    in_primary = attr_is(attrs, "type", "primary");
                }
                if in_primary && same_str(name.as_str(), "location") {
                    let href = attr_first(attrs, "href");
                    if href.is_some() {
                        return href;
                    }
                }
            },
            XmlEvent::Close { name } => {
                if same_str(name.as_str(), "data") {
                    in_primary = false;
                }
            },
            _ => {},
        }
    }
    None
}

// ---------------------------------------------------------------------------
// The primary index

/// What has been read of a primary index.
pub struct PrimaryView {
    pub packages: Seq<PackageView>,
    pub in_package: bool,
    pub in_requires: bool,
    pub tag: Seq<char>,
    pub name: Seq<char>,
    pub version: Seq<char>,
    pub description: Seq<char>,
    pub href: Seq<char>,
    pub sha256: Option<Seq<char>>,
    pub checksum_is_sha256: bool,
    pub installed_size: nat,
    pub depends: Seq<Seq<char>>,
}

/// A version with its release, when it has one.
pub open spec fn full_version(attrs: Attrs) -> Seq<char> {
    let ver = or_empty(last_attr(attrs, "ver"@));
    let rel = or_empty(last_attr(attrs, "rel"@));
    if rel.len() > 0 {
        ver + "-"@ + rel
    } else {
        ver
    }
}

pub open spec fn or_empty(s: Option<Seq<char>>) -> Seq<char> {
    match s {
        Some(x) => x,
        None => Seq::empty(),
    }
}

/// The first line of `s`, or nothing.
pub open spec fn first_line(s: Seq<char>) -> Seq<char> {
    if text::lines(s).len() > 0 {
        text::lines(s)[0]
    } else {
        Seq::empty()
    }
}

/// A start tag adds what its attributes say; any other tag inside a package
/// names the text that follows.
pub open spec fn on_open(s: PrimaryView, name: Seq<char>, attrs: Attrs) -> PrimaryView {
    if name == "package"@ {
        if has_attr(attrs, "type"@, "rpm"@) {
            PrimaryView {
                in_package: true,
                name: Seq::empty(),
                version: Seq::empty(),
                description: Seq::empty(),
                href: Seq::empty(),
                sha256: None,
                installed_size: 0,
                depends: Seq::empty(),
                ..s
            }
        } else {
            s
        }
    } else if name == "version"@ && s.in_package {
        PrimaryView { version: full_version(attrs), ..s }
    } else if name == "location"@ && s.in_package {
        match last_attr(attrs, "href"@) {
            Some(href) => PrimaryView { href, ..s },
            None => s,
        }
    } else if name == "checksum"@ && s.in_package {
        if has_attr(attrs, "type"@, "sha256"@) {
            PrimaryView { checksum_is_sha256: true, tag: "checksum"@, ..s }
        } else {
            PrimaryView { checksum_is_sha256: false, ..s }
        }
    } else if name == "size"@ && s.in_package {
        match last_attr(attrs, "installed"@) {
            Some(size) => PrimaryView {
                installed_size: match text::parse_number(size, u64::MAX as nat) {
                    Some(n) => n,
                    None => 0,
                },
                ..s
            },
            None => s,
        }
    } else if name == "requires"@ {
        PrimaryView { in_requires: true, ..s }
    } else if name == "entry"@ && s.in_package && s.in_requires {
        PrimaryView { depends: s.depends + entry_names(attrs), ..s }
    } else if s.in_package {
        PrimaryView { tag: name, ..s }
    } else {
        s
    }
}

/// Text inside a package belongs to the tag that stands open. The summary goes
/// before the description, of which only the first line counts.
pub open spec fn on_text(s: PrimaryView, text: Seq<char>) -> PrimaryView {
    if !s.in_package {
        s
    } else if s.tag == "name"@ {
        PrimaryView { name: text, ..s }
    } else if s.tag == "summary"@ {
        if s.description.len() == 0 {
            PrimaryView { description: text, ..s }
        } else {
            s
        }
    } else if s.tag == "description"@ {
        if s.description.len() == 0 {
            PrimaryView { description: first_line(text), ..s }
        } else {
            s
        }
    } else if s.tag == "checksum"@ && s.checksum_is_sha256 {
        PrimaryView { sha256: Some(text), ..s }
    } else {
        s
    }
}

/// The end of a package adds it to the index if it has a name, a version and a
/// location.
pub open spec fn on_close(s: PrimaryView, name: Seq<char>, baseurl: Seq<char>) -> PrimaryView {
    if name == "package"@ && s.in_package {
        PrimaryView {
            packages: if s.name.len() > 0 && s.version.len() > 0 && s.href.len() > 0 {
                s.packages.push(
                    PackageView {
                        name: s.name,
                        version: s.version,
                        description: s.description,
                        download_url: baseurl + "/"@ + s.href,
                        sha256: s.sha256,
                        installed_size: s.installed_size,
                        depends: s.depends,
                        provides: Seq::empty(),
                    },
                )
            } else {
                s.packages
            },
            in_package: false,
            tag: Seq::empty(),
            checksum_is_sha256: false,
            ..s
        }
    } else if name == "requires"@ {
        PrimaryView { in_requires: false, ..s }
    } else {
        PrimaryView { tag: Seq::empty(), ..s }
    }
}

pub open spec fn on_event(s: PrimaryView, event: XmlView, baseurl: Seq<char>) -> PrimaryView {
    match event {
        XmlView::Open { name, attrs } => on_open(s, name, attrs),
        XmlView::Text { text } => on_text(s, text),
        XmlView::Close { name } => on_close(s, name, baseurl),
        XmlView::Other => s,
    }
}

/// What has been read before the first event.
pub open spec fn nothing_read() -> PrimaryView {
    PrimaryView {
        packages: Seq::empty(),
        in_package: false,
        in_requires: false,
        tag: Seq::empty(),
        name: Seq::empty(),
        version: Seq::empty(),
        description: Seq::empty(),
        href: Seq::empty(),
        sha256: None,
        checksum_is_sha256: false,
        installed_size: 0,
        depends: Seq::empty(),
    }
}

/// What has been read after the given events.
pub open spec fn read_events(events: Seq<XmlView>, baseurl: Seq<char>) -> PrimaryView
    decreases events.len(),
{
    if events.len() == 0 {
        nothing_read()
    } else {
        on_event(read_events(events.drop_last(), baseurl), events.last(), baseurl)
    }
}

/// The packages of a primary index.
pub open spec fn primary_packages(events: Seq<XmlView>, baseurl: Seq<char>) -> Seq<PackageView> {
    read_events(events, baseurl).packages
}

struct Primary {
    packages: Vec<PackageMetadata>,
    in_package: bool,
    in_requires: bool,
    tag: String,
    name: String,
    version: String,
    description: String,
    href: String,
    sha256: Option<String>,
    checksum_is_sha256: bool,
    installed_size: u64,
    depends: Vec<String>,
}

impl View for Primary {
    type V = PrimaryView;

    closed spec fn view(&self) -> PrimaryView {
        PrimaryView {
            packages: package_views(self.packages@),
            in_package: self.in_package,
            in_requires: self.in_requires,
            tag: self.tag@,
            name: self.name@,
            version: self.version@,
            description: self.description@,
            href: self.href@,
            sha256: text::opt_view(self.sha256),
            checksum_is_sha256: self.checksum_is_sha256,
            installed_size: self.installed_size as nat,
            depends: text::views(self.depends@),
        }
    }
}

/// A `Primary` is seen as what it holds.
proof fn primary_is_seen_as_it_is(x: Primary)
    ensures
        x@.packages == package_views(x.packages@),
        x@.in_package == x.in_package,
        x@.in_requires == x.in_requires,
        x@.tag == x.tag@,
        x@.name == x.name@,
        x@.version == x.version@,
        x@.description == x.description@,
        x@.href == x.href@,
        x@.sha256 == text::opt_view(x.sha256),
        x@.checksum_is_sha256 == x.checksum_is_sha256,
        x@.installed_size == x.installed_size as nat,
        x@.depends == text::views(x.depends@),
{
}

impl Primary {
    fn new() -> (r: Self)
        ensures
            r@ == nothing_read(),
    {
        let r = Primary {
            packages: Vec::new(),
            in_package: false,
            in_requires: false,
            tag: String::new(),
            name: String::new(),
            version: String::new(),
            description: String::new(),
            href: String::new(),
            sha256: None,
            checksum_is_sha256: false,
            installed_size: 0,
            depends: Vec::new(),
        };
        proof {
            assert(r@.packages =~= Seq::<PackageView>::empty());
            assert(r@.depends =~= Seq::<Seq<char>>::empty());
        }
        r
    }

    fn open(&mut self, name: &String, attrs: &Vec<(String, String)>)
        ensures
            final(self)@ == on_open(old(self)@, name@, outside::pair_views(attrs@)),
    {
        let ghost before = self@;
        if same_str(name.as_str(), "package") {
            if attr_is(attrs, "type", "rpm") {
                self.in_package = true;
                self.name = String::new();
                self.version = String::new();
                self.description = String::new();
                self.href = String::new();
                self.sha256 = None;
                self.installed_size = 0;
                self.depends = Vec::new();
                proof {
                    assert(self@.depends =~= Seq::<Seq<char>>::empty());
                }
            }
        } else if same_str(name.as_str(), "version") && self.in_package {
            let mut ver = or_nothing(attr_last(attrs, "ver"));
            let rel = or_nothing(attr_last(attrs, "rel"));
            if !rel.as_str().is_empty() {
                ver.append("-");
                ver.append(rel.as_str());
            }
            self.version = ver;
        } else if same_str(name.as_str(), "location") && self.in_package {
            match attr_last(attrs, "href") {
                Some(href) => {
                    self.href = href;
                },
                None => {},
            }
        } else if same_str(name.as_str(), "checksum") && self.in_package {
            self.checksum_is_sha256 = attr_is(attrs, "type", "sha256");
            if self.checksum_is_sha256 {
                self.tag = String::from_str("checksum");
            }
        } else if same_str(name.as_str(), "size") && self.in_package {
            match attr_last(attrs, "installed") {
                Some(size) => {
                    self.installed_size =
                    match parsed_u64(chars_of(size.as_str()).as_slice(), u64::MAX) {
                        Some(n) => n,
                        None => 0,
                    };
                },
                None => {},
            }
        } else if same_str(name.as_str(), "requires") {
            self.in_requires = true;
        } else if same_str(name.as_str(), "entry") && self.in_package && self.in_requires {
            self.add_entries(attrs);
        } else if self.in_package {
            self.tag = name.clone();
        }
    }

    fn add_entries(&mut self, attrs: &Vec<(String, String)>)
        ensures
            final(self)@ == (PrimaryView {
                depends: old(self)@.depends + entry_names(outside::pair_views(attrs@)),
                ..old(self)@
            }),
    {
        let ghost before = self@;
        let ghost p = outside::pair_views(attrs@);
        proof {
            assert(before.depends + entry_names(p.take(0)) =~= before.depends);
        }
        for i in 0..attrs.len()
            invariant
                p == outside::pair_views(attrs@),
                self@ == (PrimaryView {
                    depends: before.depends + entry_names(p.take(i as int)),
                    ..before
                }),
        {
            let ghost so_far = self@.depends;
            proof {
                assert(p.take(i + 1).drop_last() =~= p.take(i as int));
                assert(p.take(i + 1).last() == (attrs@[i as int].0@, attrs@[i as int].1@));
            }
            let value = chars_of(attrs[i].1.as_str());
            let dep = without_leading(value.as_slice(), '/');
            if same_str(attrs[i].0.as_str(), "name") && !begins(dep, "rpmlib(") {
                self.depends.push(string_of(dep));
                proof {
                    assert(self@.depends =~= so_far.push(dep@));
                    assert(before.depends + entry_names(p.take(i as int)).push(dep@)
                        =~= so_far.push(dep@));
                }
            }
        }
        proof {
            assert(p.take(p.len() as int) =~= p);
        }
    }

    fn text(&mut self, text: &String)
        ensures
            final(self)@ == on_text(old(self)@, text@),
    {
        if !self.in_package {
            return;
        }
        if same_str(self.tag.as_str(), "name") {
            self.name = text.clone();
        } else if same_str(self.tag.as_str(), "summary") {
            if self.description.as_str().is_empty() {
                self.description = text.clone();
            }
        } else if same_str(self.tag.as_str(), "description") {
            if self.description.as_str().is_empty() {
                let c = chars_of(text.as_str());
                let l = lines_of(c.as_slice());
                proof {
                    assert(text::slices(l@).len() == l@.len());
                }
                self.description = if l.len() > 0 {
                    proof {
                        assert(text::slices(l@)[0] == l@[0]@);
                    }
                    string_of(l[0])
                } else {
                    String::new()
                };
            }
        } else if same_str(self.tag.as_str(), "checksum") && self.checksum_is_sha256 {
            self.sha256 = Some(text.clone());
        }
    }

    fn close(&mut self, name: &String, baseurl: &str)
        ensures
            final(self)@ == on_close(old(self)@, name@, baseurl@),
    {
        let ghost before = self@;
        if same_str(name.as_str(), "package") && self.in_package {
            if !self.name.as_str().is_empty() && !self.version.as_str().is_empty()
                && !self.href.as_str().is_empty() {
                let mut download_url = String::from_str(baseurl);
                download_url.append("/");
                download_url.append(self.href.as_str());
                let p = PackageMetadata {
                    name: self.name.clone(),
                    version: self.version.clone(),
                    description: self.description.clone(),
                    download_url,
                    sha256: self.sha256.clone(),
                    installed_size: self.installed_size,
                    depends: crate::text::copied(&self.depends),
                    provides: Vec::new(),
                };
                proof {
                    assert(p@.provides =~= Seq::<Seq<char>>::empty());
                }
                self.packages.push(p);
                proof {
                    assert(self@.packages =~= before.packages.push(p@));
                }
            }
            self.in_package = false;
            self.tag = String::new();
            self.checksum_is_sha256 = false;
        } else if same_str(name.as_str(), "requires") {
            self.in_requires = false;
        } else {
            self.tag = String::new();
        }
    }
}

fn or_nothing(s: Option<String>) -> (r: String)
    ensures
        r@ == or_empty(text::opt_view(s)),
{
    match s {
        Some(x) => x,
        None => String::new(),
    }
}

/// The packages of a primary index whose files lie under `baseurl`.
pub fn parse_primary_xml(xml: &str, baseurl: &str) -> (r: Vec<PackageMetadata>)
    ensures
        package_views(r@) == primary_packages(outside::xml_event_list(xml@), baseurl@),
{
    let events = xml_events(xml);
    parse_primary_events(&events, baseurl)
}

/// The packages of a primary index, from the events of its document.
pub fn parse_primary_events(events: &Vec<XmlEvent>, baseurl: &str) -> (r: Vec<PackageMetadata>)
    ensures
        package_views(r@) == primary_packages(outside::event_views(events@), baseurl@),
{
    let ghost v = outside::event_views(events@);
    let mut state = Primary::new();
    for i in 0..events.len()
        invariant
            v == outside::event_views(events@),
            state@ == read_events(v.take(i as int), baseurl@),
    {
        proof {
            assert(v.take(i + 1).drop_last() =~= v.take(i as int));
            assert(v.take(i + 1).last() == events@[i as int]@);
        }
        match &events[i] {
            XmlEvent::Open { name, attrs } => state.open(name, attrs),
            XmlEvent::Text { text } => state.text(text),
            XmlEvent::Close { name } => state.close(name, baseurl),
            XmlEvent::Other => {},
        }
    }
    proof {
        assert(v.take(v.len() as int) =~= v);
    }
    state.packages
}

// ---------------------------------------------------------------------------
// Laws

/// No two of the elements go by one name.
proof fn elements_differ()
    ensures
        "package"@.len() == 7 && "package"@[0] == 'p',
        "version"@.len() == 7 && "version"@[0] == 'v',
        "summary"@.len() == 7 && "summary"@[0] == 's',
        "location"@.len() == 8 && "location"@[0] == 'l',
        "checksum"@.len() == 8 && "checksum"@[0] == 'c',
        "requires"@.len() == 8 && "requires"@[0] == 'r',
        "size"@.len() == 4 && "size"@[0] == 's',
        "name"@.len() == 4 && "name"@[0] == 'n',
        "data"@.len() == 4 && "data"@[0] == 'd',
        "entry"@.len() == 5,
        "description"@.len() == 11,
{
    reveal_strlit("package");
    reveal_strlit("version");
    reveal_strlit("summary");
    reveal_strlit("location");
    reveal_strlit("checksum");
    reveal_strlit("requires");
    reveal_strlit("size");
    reveal_strlit("name");
    reveal_strlit("data");
    reveal_strlit("entry");
    reveal_strlit("description");
}

proof fn reading_one_more(e: Seq<XmlView>, x: XmlView, baseurl: Seq<char>)
    ensures
        read_events(e.push(x), baseurl) == on_event(read_events(e, baseurl), x, baseurl),
{
    assert(e.push(x).drop_last() =~= e);
}

/// What is read after the text of an element inside a package.
pub open spec fn after_text(
    e: Seq<XmlView>,
    name: Seq<char>,
    attrs: Attrs,
    text: Seq<char>,
    baseurl: Seq<char>,
) -> PrimaryView {
    read_events(e.push(XmlView::Open { name, attrs }).push(XmlView::Text { text }), baseurl)
}

/// What is read after an element that opens.
pub open spec fn after_open(e: Seq<XmlView>, name: Seq<char>, attrs: Attrs, baseurl: Seq<char>) -> PrimaryView {
    read_events(e.push(XmlView::Open { name, attrs }), baseurl)
}

/// A package begins with nothing known of it; an element that is no package of rpm
/// begins none.
pub proof fn packages_begin_empty(e: Seq<XmlView>, attrs: Attrs, baseurl: Seq<char>)
    ensures
        attrs.contains(("type"@, "rpm"@)) ==> ({
            let s = after_open(e, "package"@, attrs, baseurl);
            &&& s.in_package
            &&& s.name.len() == 0 && s.version.len() == 0 && s.description.len() == 0
            &&& s.href.len() == 0 && s.sha256 is None && s.installed_size == 0
            &&& s.depends.len() == 0
            &&& s.packages == read_events(e, baseurl).packages
        }),
        !attrs.contains(("type"@, "rpm"@)) ==> after_open(e, "package"@, attrs, baseurl)
            == read_events(e, baseurl),
{
    reading_one_more(e, XmlView::Open { name: "package"@, attrs }, baseurl);
}

/// Inside a package, the text of an element gives the part that the element is named
/// for: its name, a summary or a description where there is neither yet, and a
/// checksum of the one kind that is used.
pub proof fn texts_give_their_part(
    e: Seq<XmlView>,
    attrs: Attrs,
    text: Seq<char>,
    baseurl: Seq<char>,
)
    requires
        read_events(e, baseurl).in_package,
    ensures
        ({
            let s = read_events(e, baseurl);
            &&& after_text(e, "name"@, attrs, text, baseurl).name == text
            &&& s.description.len() == 0 ==> after_text(
                e,
                "summary"@,
                attrs,
                text,
                baseurl,
            ).description == text
            &&& s.description.len() == 0 ==> after_text(
                e,
                "description"@,
                attrs,
                text,
                baseurl,
            ).description == first_line(text)
            &&& s.description.len() > 0 ==> after_text(
                e,
                "summary"@,
                attrs,
                text,
                baseurl,
            ).description == s.description && after_text(
                e,
                "description"@,
                attrs,
                text,
                baseurl,
            ).description == s.description
            &&& attrs.contains(("type"@, "sha256"@)) ==> after_text(
                e,
                "checksum"@,
                attrs,
                text,
                baseurl,
            ).sha256 == Some(text)
            &&& !attrs.contains(("type"@, "sha256"@)) ==> after_text(
                e,
                "checksum"@,
                attrs,
                text,
                baseurl,
            ).sha256 == s.sha256
            &&& after_text(e, "summary"@, attrs, text, baseurl).name == s.name
            &&& after_text(e, "name"@, attrs, text, baseurl).description == s.description
        }),
{
    elements_differ();
    text_is_read(e, "name"@, attrs, text, baseurl);
    text_is_read(e, "summary"@, attrs, text, baseurl);
    text_is_read(e, "description"@, attrs, text, baseurl);
    text_is_read(e, "checksum"@, attrs, text, baseurl);
}

proof fn text_is_read(
    e: Seq<XmlView>,
    name: Seq<char>,
    attrs: Attrs,
    text: Seq<char>,
    baseurl: Seq<char>,
)
    ensures
        after_text(e, name, attrs, text, baseurl) == on_text(
            on_open(read_events(e, baseurl), name, attrs),
            text,
        ),
{
    let o = XmlView::Open { name, attrs };
    reading_one_more(e, o, baseurl);
    reading_one_more(e.push(o), XmlView::Text { text }, baseurl);
}

/// Inside a package, the attributes of an element give the part that the element is
/// named for: the version with its release, the file, the size and the names that are
/// required.
pub proof fn attributes_give_their_part(e: Seq<XmlView>, attrs: Attrs, baseurl: Seq<char>)
    requires
        read_events(e, baseurl).in_package,
    ensures
        ({
            let s = read_events(e, baseurl);
            &&& after_open(e, "version"@, attrs, baseurl) == (PrimaryView {
                version: full_version(attrs),
                ..s
            })
            &&& last_attr(attrs, "href"@) matches Some(href) ==> after_open(
                e,
                "location"@,
                attrs,
                baseurl,
            ) == (PrimaryView { href, ..s })
            &&& last_attr(attrs, "installed"@) matches Some(size) ==> (text::parse_number(
                size,
                u64::MAX as nat,
            ) matches Some(n) ==> after_open(e, "size"@, attrs, baseurl) == (PrimaryView {
                installed_size: n,
                ..s
            }))
            &&& after_open(e, "requires"@, attrs, baseurl) == (PrimaryView { in_requires: true, ..s })
            &&& s.in_requires ==> after_open(e, "entry"@, attrs, baseurl) == (PrimaryView {
                depends: s.depends + entry_names(attrs),
                ..s
            })
            &&& !s.in_requires ==> after_open(e, "entry"@, attrs, baseurl).depends == s.depends
        }),
{
    elements_differ();
    reading_one_more(e, XmlView::Open { name: "version"@, attrs }, baseurl);
    reading_one_more(e, XmlView::Open { name: "location"@, attrs }, baseurl);
    reading_one_more(e, XmlView::Open { name: "size"@, attrs }, baseurl);
    reading_one_more(e, XmlView::Open { name: "requires"@, attrs }, baseurl);
    reading_one_more(e, XmlView::Open { name: "entry"@, attrs }, baseurl);
}

/// Where a package ends it is listed, with what was read of it, if it has a name, a
/// version and a file, which stands below the repository; nothing else lists one.
pub proof fn packages_end_listed(e: Seq<XmlView>, x: XmlView, baseurl: Seq<char>)
    ensures
        ({
            let s = read_events(e, baseurl);
            let now = read_events(e.push(x), baseurl);
            &&& x == (XmlView::Close { name: "package"@ }) && s.in_package ==> !now.in_package
            &&& x == (XmlView::Close { name: "package"@ }) && s.in_package && s.name.len() > 0
                && s.version.len() > 0 && s.href.len() > 0 ==> now.packages == s.packages.push(
                PackageView {
                    name: s.name,
                    version: s.version,
                    description: s.description,
                    download_url: baseurl + "/"@ + s.href,
                    sha256: s.sha256,
                    installed_size: s.installed_size,
                    depends: s.depends,
                    provides: Seq::empty(),
                },
            )
            &&& x != (XmlView::Close { name: "package"@ }) || !s.in_package || s.name.len() == 0
                || s.version.len() == 0 || s.href.len() == 0 ==> now.packages == s.packages
            &&& x == (XmlView::Close { name: "requires"@ }) ==> !now.in_requires
            &&& x == (XmlView::Text { text: s.tag }) && !s.in_package ==> now == s
        }),
{
    elements_differ();
    reading_one_more(e, x, baseurl);
}

/// A version is followed by its release, where it has one.
pub proof fn versions_have_releases(ver: Seq<char>, rel: Seq<char>)
    requires
        rel.len() > 0,
    ensures
        full_version(seq![("ver"@, ver), ("rel"@, rel)]) == ver + "-"@ + rel,
        full_version(seq![("rel"@, rel), ("ver"@, ver)]) == ver + "-"@ + rel,
        full_version(seq![("ver"@, ver)]) == ver,
{
    reveal_strlit("ver");
    reveal_strlit("rel");
    assert("ver"@[0] == 'v' && "rel"@[0] == 'r');
    reveal_with_fuel(last_attr, 3);
    let a = seq![("ver"@, ver), ("rel"@, rel)];
    let b = seq![("rel"@, rel), ("ver"@, ver)];
    let c = seq![("ver"@, ver)];
    assert(a.drop_last() =~= c);
    assert(b.drop_last() =~= seq![("rel"@, rel)]);
    assert(c.drop_last() =~= Seq::empty());
}

/// Of attributes with one name the first, or the last, is the one that counts.
pub proof fn first_and_last_attributes(a: Attrs, key: Seq<char>, value: Seq<char>, b: Attrs)
    requires
        forall|i: int| 0 <= i < b.len() ==> (#[trigger] b[i]).0 != key,
    ensures
        last_attr(a + seq![(key, value)] + b, key) == Some(value),
        first_attr(b + seq![(key, value)] + a, key) == Some(value),
        last_attr(b, key) is None,
        first_attr(b, key) is None,
    decreases b.len(),
{
    let x = a + seq![(key, value)] + b;
    let y = b + seq![(key, value)] + a;
    if b.len() == 0 {
        assert(x.last() == (key, value));
        assert(y[0] == (key, value));
    } else {
        let d = b.drop_last();
        assert forall|i: int| 0 <= i < d.len() implies (#[trigger] d[i]).0 != key by {
            assert(d[i] == b[i]);
        }
        first_and_last_attributes(a, key, value, d);
        assert(x.drop_last() =~= a + seq![(key, value)] + d);
        assert(x.last() == b[b.len() - 1]);
        assert(b.last() == b[b.len() - 1]);
        let t = b.skip(1);
        assert forall|i: int| 0 <= i < t.len() implies (#[trigger] t[i]).0 != key by {
            assert(t[i] == b[i + 1]);
        }
        first_and_last_attributes(a, key, value, t);
        assert(y.skip(1) =~= t + seq![(key, value)] + a);
        assert(y[0] == b[0]);
    }
}

/// A name that is required is a dependency, without the slashes that it begins with,
/// unless it is one that rpm itself provides.
pub proof fn required_names_are_dependencies(attrs: Attrs, key: Seq<char>, value: Seq<char>)
    ensures
        ({
            let dep = text::trim_start_char(value, '/');
            &&& key == "name"@ && !text::starts_with(dep, "rpmlib("@) ==> entry_names(
                attrs.push((key, value)),
            ) == entry_names(attrs).push(dep)
            &&& key != "name"@ || text::starts_with(dep, "rpmlib("@) ==> entry_names(
                attrs.push((key, value)),
            ) == entry_names(attrs)
        }),
        entry_names(Seq::empty()) == Seq::<Seq<char>>::empty(),
{
    assert(attrs.push((key, value)).drop_last() =~= attrs);
}

/// The primary index stands where the first location inside the data of that type
/// says; what stands in other data does not count.
pub proof fn primary_index_is_located(
    before: Seq<XmlView>,
    data: Attrs,
    location: Attrs,
    href: Seq<char>,
    rest: Seq<XmlView>,
    inside: bool,
)
    requires
        data.contains(("type"@, "primary"@)),
        first_attr(location, "href"@) == Some(href),
        forall|i: int|
            0 <= i < before.len() ==> (#[trigger] before[i] matches XmlView::Open { name, attrs } ==> name
                != "location"@),
    ensures
        primary_location(
            before + seq![
                XmlView::Open { name: "data"@, attrs: data },
                XmlView::Open { name: "location"@, attrs: location },
            ] + rest,
            inside,
        ) == Some(href),
    decreases before.len(),
{
    elements_differ();
    let found = seq![
        XmlView::Open { name: "data"@, attrs: data },
        XmlView::Open { name: "location"@, attrs: location },
    ];
    let all = before + found + rest;
    if before.len() == 0 {
        assert(all[0] == found[0]);
        assert(all.skip(1)[0] == found[1]);
        reveal_with_fuel(primary_location, 2);
    } else {
        let later = before.skip(1);
        assert forall|i: int| 0 <= i < later.len() implies (#[trigger] later[i] matches XmlView::Open {
            name,
            attrs,
        } ==> name != "location"@) by {
            assert(later[i] == before[i + 1]);
        }
        assert(all[0] == before[0]);
        assert(all.skip(1) =~= later + found + rest);
        primary_index_is_located(later, data, location, href, rest, true);
        primary_index_is_located(later, data, location, href, rest, false);
    }
}

/// A location outside the data of that type is passed over.
pub proof fn other_locations_are_passed_over(location: Attrs, data: Attrs, rest: Seq<XmlView>)
    requires
        !data.contains(("type"@, "primary"@)),
    ensures
        primary_location(seq![XmlView::Open { name: "location"@, attrs: location }] + rest, false)
            == primary_location(rest, false),
        primary_location(seq![XmlView::Open { name: "data"@, attrs: data }] + rest, true)
            == primary_location(rest, false),
        primary_location(seq![XmlView::Close { name: "data"@ }] + rest, true) == primary_location(
            rest,
            false,
        ),
        primary_location(Seq::empty(), true) is None,
{
    elements_differ();
    let a = seq![XmlView::Open { name: "location"@, attrs: location }] + rest;
    let b = seq![XmlView::Open { name: "data"@, attrs: data }] + rest;
    let c = seq![XmlView::Close { name: "data"@ }] + rest;
    assert(a.skip(1) =~= rest && b.skip(1) =~= rest && c.skip(1) =~= rest);
}

/// An index is read by the ending of its name: with gzip, with zstd, or as it is.
pub proof fn indexes_are_read_by_their_ending(location: Seq<char>, bytes: Seq<u8>)
    ensures
        text::ends_with(location, ".gz"@) ==> (primary_text(location, bytes) is Ok
            <==> outside::gzip_text(bytes) is Ok) && (outside::gzip_text(bytes) matches Ok(t)
            ==> primary_text(location, bytes) == Ok::<Seq<char>, Seq<char>>(t)),
        text::ends_with(location, ".zst"@) && !text::ends_with(location, ".gz"@) ==> (primary_text(
            location,
            bytes,
        ) is Ok <==> outside::zstd_text(bytes) is Ok) && (outside::zstd_text(bytes) matches Ok(t)
            ==> primary_text(location, bytes) == Ok::<Seq<char>, Seq<char>>(t)),
        !text::ends_with(location, ".gz"@) && !text::ends_with(location, ".zst"@) ==> (primary_text(
            location,
            bytes,
        ) is Ok <==> valid_utf8(bytes)) && (valid_utf8(bytes) ==> primary_text(location, bytes)
            == Ok::<Seq<char>, Seq<char>>(decode_utf8(bytes))),
{
}

/// The name of a file that keeps an index holds no character but letters, digits and
/// dashes of the address, and no more than its end.
pub proof fn cache_names_are_plain(s: Seq<char>, n: int, i: int)
    requires
        0 <= n,
        0 <= i < last_chars(dashed(s), n).len(),
    ensures
        last_chars(dashed(s), n).len() == if s.len() > n {
            n
        } else {
            s.len() as int
        },
        ({
            let c = s[s.len() - last_chars(dashed(s), n).len() + i];
            last_chars(dashed(s), n)[i] == if outside::char_is_alphanumeric(c) {
                c
            } else {
                '-'
            }
        }),
{
}

}
