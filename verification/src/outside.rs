//! Calls into other crates and into the parts of the standard library whose
//! behaviour is taken on trust. What each contract claims stands above it.
use quick_xml::events::{BytesStart, Event};
use quick_xml::name::QName;
use sha2::Digest;
use std::io::Read;
use crate::text;
use vstd::prelude::*;
use vstd::utf8;

verus! {

// ---------------------------------------------------------------------------
// XML

/// An event of an XML document, as far as the library reads it.
pub enum XmlEvent {
    /// A start tag or an empty element: its local name and its attributes, each
    /// with its local name and its unescaped value.
    Open { name: String, attrs: Vec<(String, String)> },
    /// An end tag.
    Close { name: String },
    /// Unescaped character data.
    Text { text: String },
    /// Anything else: declarations, comments, processing instructions.
    Other,
}

/// The mathematical content of an `XmlEvent`.
pub enum XmlView {
    Open { name: Seq<char>, attrs: Seq<(Seq<char>, Seq<char>)> },
    Close { name: Seq<char> },
    Text { text: Seq<char> },
    Other,
}

/// The characters of a list of pairs of strings.
pub open spec fn pair_views(v: Seq<(String, String)>) -> Seq<(Seq<char>, Seq<char>)> {
    Seq::new(v.len(), |i: int| (v[i].0@, v[i].1@))
}

impl View for XmlEvent {
    type V = XmlView;

    open spec fn view(&self) -> XmlView {
        match *self {
            XmlEvent::Open { name, attrs } => XmlView::Open {
                name: name@,
                attrs: pair_views(attrs@),
            },
            XmlEvent::Close { name } => XmlView::Close { name: name@ },
            XmlEvent::Text { text } => XmlView::Text { text: text@ },
            XmlEvent::Other => XmlView::Other,
        }
    }
}

/// A `XmlEvent` is seen as what it holds.
pub proof fn xml_event_is_seen_as_it_is(x: XmlEvent)
    ensures
        x matches XmlEvent::Open { name, attrs } ==> x@ == (XmlView::Open {
            name: name@,
            attrs: pair_views(attrs@),
        }),
        x matches XmlEvent::Close { name } ==> x@ == (XmlView::Close { name: name@ }),
        x matches XmlEvent::Text { text } ==> x@ == (XmlView::Text { text: text@ }),
        x is Other ==> x@ == XmlView::Other,
{
}

pub open spec fn event_views(v: Seq<XmlEvent>) -> Seq<XmlView> {
    Seq::new(v.len(), |i: int| v[i]@)
}

/// The events that `quick_xml::Reader` hands out for a document, up to its end
/// or its first error.
pub uninterp spec fn xml_event_list(text: Seq<char>) -> Seq<XmlView>;

/// The reader of the `quick_xml` crate.
#[verifier::external_type_specification]
#[verifier::external_body]
#[verifier::reject_recursive_types(R)]
pub struct ExXmlReader<R>(quick_xml::Reader<R>);

/// The events that a reader has yet to hand out, up to the end of the document or
/// its first error.
pub uninterp spec fn events_left(reader: quick_xml::Reader<&[u8]>) -> Seq<XmlView>;

/// `quick_xml::Reader::from_str`: a reader at the beginning of a document.
#[verifier::external_body]
fn xml_reader(text: &str) -> (r: quick_xml::Reader<&[u8]>)
    ensures
        events_left(r) == xml_event_list(text@),
{
    quick_xml::Reader::from_str(text)
}

/// `quick_xml::Reader::read_event`: the next event, or nothing at the end of
/// the document or at an error. An attribute that does not parse is left out; a
/// value or a text that does not unescape counts as empty.
#[verifier::external_body]
fn next_event(reader: &mut quick_xml::Reader<&[u8]>) -> (r: Option<XmlEvent>)
    ensures
        match r {
            Some(e) => events_left(*old(reader)).len() > 0 && e@ == events_left(*old(reader))[0]
                && events_left(*final(reader)) == events_left(*old(reader)).skip(1),
            None => events_left(*old(reader)).len() == 0,
        },
{
    let name = |q: QName| String::from_utf8_lossy(q.local_name().as_ref()).into_owned();
    let open = |e: BytesStart| XmlEvent::Open { name: name(e.name()), attrs: e.attributes().flatten().map(|a| (name(a.key), a.unescape_value().unwrap_or_default().into_owned())).collect() };
    Some(match reader.read_event().ok()? {
        Event::Start(e) => open(e),
        Event::Empty(e) => open(e),
        Event::End(e) => XmlEvent::Close { name: name(e.name()) },
        Event::Text(e) => XmlEvent::Text { text: e.unescape().unwrap_or_default().into_owned() },
        Event::Eof => return None,
        _ => XmlEvent::Other,
    })
}

/// All events of a document, up to its end or its first error.
pub fn xml_events(text: &str) -> (r: Vec<XmlEvent>)
    ensures
        event_views(r@) == xml_event_list(text@),
{
    let mut reader = xml_reader(text);
    let mut out: Vec<XmlEvent> = Vec::new();
    proof {
        assert(event_views(out@) + events_left(reader) =~= xml_event_list(text@));
    }
    loop
        invariant
            event_views(out@) + events_left(reader) == xml_event_list(text@),
        decreases events_left(reader).len(),
    {
        let ghost before = event_views(out@);
        let ghost left = events_left(reader);
        match next_event(&mut reader) {
            Some(e) => {
                let ghost x = e@;
                out.push(e);
                proof {
                    assert(event_views(out@) =~= before.push(x));
                    assert(before.push(x) + left.skip(1) =~= before + left);
                }
            },
            None => {
                proof {
                    assert(before + left =~= before);
                }
                return out;
            },
        }
    }
}

// ---------------------------------------------------------------------------
// Compressed and encoded bytes

/// Why compressed bytes could not be turned into text: the decoder could not be
/// set up, or reading from it failed.
#[derive(Debug, Clone)]
pub enum DecodeFault {
    Start(String),
    Read(String),
}

/// The mathematical content of a `DecodeFault`.
pub enum FaultView {
    Start(Seq<char>),
    Read(Seq<char>),
}

impl View for DecodeFault {
    type V = FaultView;

    open spec fn view(&self) -> FaultView {
        match *self {
            DecodeFault::Start(m) => FaultView::Start(m@),
            DecodeFault::Read(m) => FaultView::Read(m@),
        }
    }
}

/// A `DecodeFault` is seen as what it holds.
pub proof fn decode_fault_is_seen_as_it_is(x: DecodeFault)
    ensures
        x matches DecodeFault::Start(m) ==> x@ == (FaultView::Start(m@)),
        x matches DecodeFault::Read(m) ==> x@ == (FaultView::Read(m@)),
{
}

/// The text or the fault that decoding gave.
pub open spec fn decoded(r: Result<String, DecodeFault>) -> Result<Seq<char>, FaultView> {
    match r {
        Ok(s) => Ok(s@),
        Err(f) => Err(f@),
    }
}

/// The text in a gzip stream, as `flate2::read::GzDecoder` reads it.
pub uninterp spec fn gzip_text(bytes: Seq<u8>) -> Result<Seq<char>, FaultView>;

/// `flate2::read::GzDecoder`, read to its end as text. The result depends on the
/// bytes alone.
#[verifier::external_body]
pub(crate) fn gunzip_text(bytes: &[u8]) -> (r: Result<String, DecodeFault>)
    ensures
        decoded(r) == gzip_text(bytes@),
{
    let mut text = String::new();
    let mut decoder = flate2::read::GzDecoder::new(bytes);
    decoder.read_to_string(&mut text).map_err(|e| DecodeFault::Read(e.to_string()))?;
    Ok(text)
}

/// The text in a Zstandard stream, as `zstd::Decoder` reads it.
pub uninterp spec fn zstd_text(bytes: Seq<u8>) -> Result<Seq<char>, FaultView>;

/// `zstd::Decoder`, set up on the bytes and read to its end as text. The result
/// depends on the bytes alone.
#[verifier::external_body]
pub(crate) fn unzstd_text(bytes: &[u8]) -> (r: Result<String, DecodeFault>)
    ensures
        decoded(r) == zstd_text(bytes@),
{
    let mut text = String::new();
    let mut decoder = zstd::Decoder::new(bytes).map_err(|e| DecodeFault::Start(e.to_string()))?;
    decoder.read_to_string(&mut text).map_err(|e| DecodeFault::Read(e.to_string()))?;
    Ok(text)
}

/// What `std::string::FromUtf8Error` says of bytes that are no UTF-8.
pub uninterp spec fn utf8_fault(bytes: Seq<u8>) -> Seq<char>;

/// `String::from_utf8`: the text that the bytes encode, when they are UTF-8.
#[verifier::external_body]
pub(crate) fn utf8_text(bytes: &[u8]) -> (r: Result<String, String>)
    ensures
        match r {
            Ok(s) => utf8::valid_utf8(bytes@) && s@ == utf8::decode_utf8(bytes@),
            Err(m) => !utf8::valid_utf8(bytes@) && m@ == utf8_fault(bytes@),
        },
{
    String::from_utf8(bytes.to_vec()).map_err(|e| e.to_string())
}

/// An entry of a package's archive.
#[derive(Debug)]
pub struct Packed {
    /// Its path, with what is no Unicode replaced.
    pub path: String,
    /// It is a directory.
    pub dir: bool,
    /// It is a symbolic link.
    pub symlink: bool,
    /// Where it leads, when the archive says so, or why that could not be had.
    pub link: Result<Option<String>, String>,
}

/// The mathematical content of a `Packed`.
pub struct PackedView {
    pub path: Seq<char>,
    pub dir: bool,
    pub symlink: bool,
    pub link: Result<Option<Seq<char>>, Seq<char>>,
}

impl View for Packed {
    type V = PackedView;

    open spec fn view(&self) -> PackedView {
        PackedView {
            path: self.path@,
            dir: self.dir,
            symlink: self.symlink,
            link: match self.link {
                Ok(l) => Ok(text::opt_view(l)),
                Err(m) => Err(m@),
            },
        }
    }
}

/// A `Packed` is seen as what it holds.
pub proof fn packed_is_seen_as_it_is(x: Packed)
    ensures
        x@.path == x.path@,
        x@.dir == x.dir,
        x@.symlink == x.symlink,
        x@.link == match x.link { Ok(l) => Ok(text::opt_view(l)), Err(m) => Err(m@), },
{
}

pub open spec fn packed_views(v: Seq<Result<Packed, String>>) -> Seq<Result<PackedView, Seq<char>>> {
    Seq::new(
        v.len(),
        |i: int|
            match v[i] {
                Ok(e) => Ok(e@),
                Err(m) => Err(m@),
            },
    )
}

/// The entries of a gzipped archive, each of them or why it could not be had, as
/// `tar::Archive` hands them out over `flate2::read::GzDecoder`. Their contents are
/// passed over, and what follows the end of the archive is not read.
pub uninterp spec fn gz_packed_entries(bytes: Seq<u8>) -> Seq<Result<PackedView, Seq<char>>>;

/// `tar::Archive::entries` over `flate2::read::GzDecoder`. The result depends on the
/// bytes alone.
#[verifier::external_body]
pub(crate) fn gz_packed(bytes: &[u8]) -> (r: Vec<Result<Packed, String>>)
    ensures
        packed_views(r@) == gz_packed_entries(bytes@),
{
    let mut archive = tar::Archive::new(flate2::read::GzDecoder::new(bytes));
    let entries = archive.entries().into_iter().flatten();
    entries.map(|entry| {
        let file = entry.map_err(|e| e.to_string())?;
        let kind = file.header().entry_type();
        let link = file.link_name().map(|l| l.map(|p| p.to_string_lossy().into_owned()));
        Ok(Packed {
            path: file.path().map_err(|e| e.to_string())?.to_string_lossy().into_owned(),
            dir: kind.is_dir(),
            symlink: kind.is_symlink(),
            link: link.map_err(|e| e.to_string()),
        })
    }).collect()
}

/// The entries of an archive in an xz stream, each of them or why it could not be had, as
/// `tar::Archive` hands them out over `xz2::read::XzDecoder`. Their contents are
/// passed over, and what follows the end of the archive is not read.
pub uninterp spec fn xz_packed_entries(bytes: Seq<u8>) -> Seq<Result<PackedView, Seq<char>>>;

/// `tar::Archive::entries` over `xz2::read::XzDecoder`. The result depends on the
/// bytes alone.
#[verifier::external_body]
pub(crate) fn xz_packed(bytes: &[u8]) -> (r: Vec<Result<Packed, String>>)
    ensures
        packed_views(r@) == xz_packed_entries(bytes@),
{
    let mut archive = tar::Archive::new(xz2::read::XzDecoder::new(bytes));
    let entries = archive.entries().into_iter().flatten();
    entries.map(|entry| {
        let file = entry.map_err(|e| e.to_string())?;
        let kind = file.header().entry_type();
        let link = file.link_name().map(|l| l.map(|p| p.to_string_lossy().into_owned()));
        Ok(Packed {
            path: file.path().map_err(|e| e.to_string())?.to_string_lossy().into_owned(),
            dir: kind.is_dir(),
            symlink: kind.is_symlink(),
            link: link.map_err(|e| e.to_string()),
        })
    }).collect()
}

/// The entries of an archive in a bzip2 stream, each of them or why it could not be had, as
/// `tar::Archive` hands them out over `bzip2::read::BzDecoder`. Their contents are
/// passed over, and what follows the end of the archive is not read.
pub uninterp spec fn bz2_packed_entries(bytes: Seq<u8>) -> Seq<Result<PackedView, Seq<char>>>;

/// `tar::Archive::entries` over `bzip2::read::BzDecoder`. The result depends on the
/// bytes alone.
#[verifier::external_body]
pub(crate) fn bz2_packed(bytes: &[u8]) -> (r: Vec<Result<Packed, String>>)
    ensures
        packed_views(r@) == bz2_packed_entries(bytes@),
{
    let mut archive = tar::Archive::new(bzip2::read::BzDecoder::new(bytes));
    let entries = archive.entries().into_iter().flatten();
    entries.map(|entry| {
        let file = entry.map_err(|e| e.to_string())?;
        let kind = file.header().entry_type();
        let link = file.link_name().map(|l| l.map(|p| p.to_string_lossy().into_owned()));
        Ok(Packed {
            path: file.path().map_err(|e| e.to_string())?.to_string_lossy().into_owned(),
            dir: kind.is_dir(),
            symlink: kind.is_symlink(),
            link: link.map_err(|e| e.to_string()),
        })
    }).collect()
}

/// The entries of an archive without compression, each of them or why it could not be had, as
/// `tar::Archive` hands them out over the bytes. Their contents are
/// passed over, and what follows the end of the archive is not read.
pub uninterp spec fn plain_packed_entries(bytes: Seq<u8>) -> Seq<Result<PackedView, Seq<char>>>;

/// `tar::Archive::entries` over the bytes. The result depends on the
/// bytes alone.
#[verifier::external_body]
pub(crate) fn plain_packed(bytes: &[u8]) -> (r: Vec<Result<Packed, String>>)
    ensures
        packed_views(r@) == plain_packed_entries(bytes@),
{
    let mut archive = tar::Archive::new(bytes);
    let entries = archive.entries().into_iter().flatten();
    entries.map(|entry| {
        let file = entry.map_err(|e| e.to_string())?;
        let kind = file.header().entry_type();
        let link = file.link_name().map(|l| l.map(|p| p.to_string_lossy().into_owned()));
        Ok(Packed {
            path: file.path().map_err(|e| e.to_string())?.to_string_lossy().into_owned(),
            dir: kind.is_dir(),
            symlink: kind.is_symlink(),
            link: link.map_err(|e| e.to_string()),
        })
    }).collect()
}

/// The entries of an archive in a Zstandard stream, each of them or why it could not be had, as
/// `tar::Archive` hands them out over `zstd::Decoder`. Their contents are
/// passed over, and what follows the end of the archive is not read.
/// Setting the decoder up can fail.
pub uninterp spec fn zst_packed_entries(bytes: Seq<u8>) -> Result<Seq<Result<PackedView, Seq<char>>>, Seq<char>>;

/// `tar::Archive::entries` over `zstd::Decoder`. The result depends on the
/// bytes alone.
#[verifier::external_body]
pub(crate) fn zst_packed(bytes: &[u8]) -> (r: Result<Vec<Result<Packed, String>>, String>)
    ensures
        match zst_packed_entries(bytes@) {
            Ok(l) => r matches Ok(v) && packed_views(v@) == l,
            Err(m) => r matches Err(e) && e@ == m,
        },
{
    let mut archive = tar::Archive::new(zstd::Decoder::new(bytes).map_err(|e| e.to_string())?);
    let entries = archive.entries().into_iter().flatten();
    Ok(entries.map(|entry| {
        let file = entry.map_err(|e| e.to_string())?;
        let kind = file.header().entry_type();
        let link = file.link_name().map(|l| l.map(|p| p.to_string_lossy().into_owned()));
        Ok(Packed {
            path: file.path().map_err(|e| e.to_string())?.to_string_lossy().into_owned(),
            dir: kind.is_dir(),
            symlink: kind.is_symlink(),
            link: link.map_err(|e| e.to_string()),
        })
    }).collect())
}

/// An entry of an archive, or why it could not be had.
#[derive(Debug)]
pub enum TarItem {
    /// The entry's path and its content read as text.
    File { path: String, text: Result<String, String> },
    /// The entry could not be read.
    BadEntry(String),
    /// The entry's path could not be read.
    BadPath(String),
}

/// The mathematical content of a `TarItem`.
pub enum TarView {
    File { path: Seq<char>, text: Result<Seq<char>, Seq<char>> },
    BadEntry(Seq<char>),
    BadPath(Seq<char>),
}

impl View for TarItem {
    type V = TarView;

    open spec fn view(&self) -> TarView {
        match *self {
            TarItem::File { path, text } => TarView::File {
                path: path@,
                text: match text {
                    Ok(t) => Ok(t@),
                    Err(m) => Err(m@),
                },
            },
            TarItem::BadEntry(m) => TarView::BadEntry(m@),
            TarItem::BadPath(m) => TarView::BadPath(m@),
        }
    }
}

/// A `TarItem` is seen as what it holds.
pub proof fn tar_item_is_seen_as_it_is(x: TarItem)
    ensures
        x matches TarItem::File { path, text } ==> x@ == (TarView::File {
            path: path@,
            text: match text { Ok(t) => Ok(t@), Err(m) => Err(m@), },
        }),
        x matches TarItem::BadEntry(m) ==> x@ == (TarView::BadEntry(m@)),
        x matches TarItem::BadPath(m) ==> x@ == (TarView::BadPath(m@)),
{
}

pub open spec fn tar_views(v: Seq<TarItem>) -> Seq<TarView> {
    Seq::new(v.len(), |i: int| v[i]@)
}

/// The entries of a gzipped archive, as `tar::Archive` hands them out over a
/// `flate2::read::GzDecoder`, up to the first that cannot be read.
pub uninterp spec fn gz_tar_entries(bytes: Seq<u8>) -> Seq<TarView>;

/// `tar::Archive::entries` over `flate2::read::GzDecoder`. The result depends on
/// the bytes alone.
#[verifier::external_body]
pub(crate) fn gz_tar_items(bytes: &[u8]) -> (r: Vec<TarItem>)
    ensures
        tar_views(r@) == gz_tar_entries(bytes@),
{
    let mut archive = tar::Archive::new(flate2::read::GzDecoder::new(bytes));
    let entries = archive.entries().into_iter().flatten();
    entries.map(|entry| match entry {
        Err(e) => TarItem::BadEntry(e.to_string()),
        Ok(mut file) => match file.path().map(|p| p.to_string_lossy().into_owned()) {
            Err(e) => TarItem::BadPath(e.to_string()),
            Ok(path) => {
                let mut text = String::new();
                let read = file.read_to_string(&mut text).map_err(|e| e.to_string());
                TarItem::File { path, text: read.map(|_| text) }
            },
        },
    }).collect()
}

// ---------------------------------------------------------------------------
// Zip archives

/// An entry of a zip archive.
#[derive(Debug)]
pub struct Zipped {
    pub name: String,
    /// As a path, its name leads nowhere outside.
    pub enclosed: bool,
    /// It is a directory.
    pub dir: bool,
}

/// The mathematical content of a `Zipped`.
pub struct ZippedView {
    pub name: Seq<char>,
    pub enclosed: bool,
    pub dir: bool,
}

impl View for Zipped {
    type V = ZippedView;

    open spec fn view(&self) -> ZippedView {
        ZippedView { name: self.name@, enclosed: self.enclosed, dir: self.dir }
    }
}

/// A `Zipped` is seen as what it holds.
pub proof fn zipped_is_seen_as_it_is(x: Zipped)
    ensures
        x@.name == x.name@,
        x@.enclosed == x.enclosed,
        x@.dir == x.dir,
{
}

pub open spec fn zipped_views(v: Seq<Result<Zipped, String>>) -> Seq<Result<ZippedView, Seq<char>>> {
    Seq::new(
        v.len(),
        |i: int|
            match v[i] {
                Ok(e) => Ok(e@),
                Err(m) => Err(m@),
            },
    )
}

/// What an archive says of its entries: for each its name and whether it is a
/// directory, or why it could not be had.
pub open spec fn zipped_names(v: Seq<Result<ZippedView, Seq<char>>>) -> Seq<
    Result<(Seq<char>, bool), Seq<char>>,
> {
    Seq::new(
        v.len(),
        |i: int|
            match v[i] {
                Ok(e) => Ok((e.name, e.dir)),
                Err(m) => Err(m),
            },
    )
}

/// How far below its start a path ends whose parts are `parts`; `None` where it
/// leads above its start on the way.
pub open spec fn depth(parts: Seq<Seq<char>>) -> Option<nat>
    decreases parts.len(),
{
    if parts.len() == 0 {
        Some(0)
    } else {
        match depth(parts.drop_last()) {
            Some(n) => if parts.last() == ".."@ {
                if n == 0 {
                    None
                } else {
                    Some((n - 1) as nat)
                }
            } else if parts.last().len() == 0 || parts.last() == "."@ {
                Some(n)
            } else {
                Some(n + 1)
            },
            None => None,
        }
    }
}

/// A path that does not begin at the root, and whose parts, with `/` between them,
/// never lead above its start.
pub open spec fn is_enclosed(path: Seq<char>) -> bool {
    &&& !(path.len() > 0 && path[0] == '/')
    &&& depth(text::split(path, '/')) is Some
}

/// A path without the two characters that Windows gives a meaning in paths and
/// other systems do not: it has the same parts everywhere.
pub open spec fn is_portable(path: Seq<char>) -> bool {
    !path.contains('\\') && !path.contains(':')
}

/// What holds, whatever the system, of an entry that was tested for leading nowhere
/// outside.
pub open spec fn is_judged(e: ZippedView) -> bool {
    &&& e.enclosed ==> !e.name.contains('\0') && !(e.name.len() > 0 && e.name[0] == '/')
    &&& e.enclosed && !e.name.contains('\\') ==> is_enclosed(e.name)
    &&& is_portable(e.name) ==> (e.enclosed <==> !e.name.contains('\0') && is_enclosed(e.name))
}

/// The entries of a zip archive, each of them by its name and whether it is a
/// directory, or why it could not be had, as `zip::ZipArchive` finds them in its
/// central directory. Their contents are not read. The archive itself may be
/// unreadable.
pub uninterp spec fn zip_entry_list(bytes: Seq<u8>) -> Result<
    Seq<Result<(Seq<char>, bool), Seq<char>>>,
    Seq<char>,
>;

/// `zip::ZipArchive::new`, and `by_index` for every entry, with what `name` and
/// `is_dir` say and whether `enclosed_name` gives a path. The names depend on the
/// bytes alone. `enclosed_name` gives a path, which is the name, where the name has no
/// NUL, is relative, and has no part that leads above its start. On Windows a
/// backslash ends a part as well, and a drive may stand before a colon: which of the
/// names with one of these two are enclosed there is not said.
#[verifier::external_body]
pub(crate) fn zip_entries(bytes: &[u8]) -> (r: Result<Vec<Result<Zipped, String>>, String>)
    ensures
        match zip_entry_list(bytes@) {
            Ok(l) => r matches Ok(v) && zipped_names(zipped_views(v@)) == l,
            Err(m) => r matches Err(e) && e@ == m,
        },
        r matches Ok(v) ==> forall|i: int|
            0 <= i < v@.len() ==> (#[trigger] zipped_views(v@)[i] matches Ok(e) ==> is_judged(e)),
{
    let reader = std::io::Cursor::new(bytes);
    let mut archive = zip::ZipArchive::new(reader).map_err(|e| e.to_string())?;
    Ok((0..archive.len()).map(|i| {
        let entry = archive.by_index(i).map_err(|e| e.to_string())?;
        let enclosed = entry.enclosed_name().is_some();
        Ok(Zipped { name: entry.name().to_string(), enclosed, dir: entry.is_dir() })
    }).collect())
}

// ---------------------------------------------------------------------------
// Checksums

/// The SHA-256 checksum of the bytes, as `sha2::Sha256` computes it, written in
/// lower-case hexadecimal digits.
pub uninterp spec fn sha256_of(bytes: Seq<u8>) -> Seq<char>;

/// `sha2::Sha256::digest`, written in hexadecimal.
#[verifier::external_body]
pub(crate) fn sha256_hex(bytes: &[u8]) -> (r: String)
    ensures
        r@ == sha256_of(bytes@),
{
    format!("{:x}", sha2::Sha256::digest(bytes))
}

// ---------------------------------------------------------------------------
// Characters

/// `char::is_alphanumeric`: Unicode's letters and numbers.
pub uninterp spec fn char_is_alphanumeric(c: char) -> bool;

/// `char::is_alphanumeric`. Of the ASCII characters the letters and the digits
/// are alphanumeric.
#[verifier::external_body]
pub(crate) fn alphanumeric(c: char) -> (r: bool)
    ensures
        r == char_is_alphanumeric(c),
        (c as u32) < 128 ==> r == text::is_ascii_alnum(c),
{
    c.is_alphanumeric()
}

/// `String::from_utf8_lossy`: the text that the bytes encode, with U+FFFD in the
/// place of what is no UTF-8.
pub uninterp spec fn lossy(bytes: Seq<u8>) -> Seq<char>;

/// `String::from_utf8_lossy`. Bytes that are UTF-8 give the text they encode.
#[verifier::external_body]
pub(crate) fn lossy_text(bytes: &[u8]) -> (r: String)
    ensures
        r@ == lossy(bytes@),
        utf8::valid_utf8(bytes@) ==> r@ == utf8::decode_utf8(bytes@),
{
    String::from_utf8_lossy(bytes).into_owned()
}

/// `str::to_lowercase`: the text with Unicode's lowercase mappings applied.
pub uninterp spec fn unicode_lowercase(s: Seq<char>) -> Seq<char>;

/// A text in lower case. In ASCII text only the capital letters change; of other text
/// Unicode's mappings leave no ASCII capital.
pub open spec fn lowercase(s: Seq<char>) -> Seq<char> {
    if utf8::is_ascii_chars(s) {
        text::ascii_lower(s)
    } else {
        text::ascii_lower(unicode_lowercase(s))
    }
}

/// `str::to_lowercase`. In ASCII text only the capital letters change, and no ASCII
/// capital is left in any text.
#[verifier::external_body]
pub(crate) fn lowercased(s: &str) -> (r: String)
    ensures
        r@ == unicode_lowercase(s@),
        r@ == lowercase(s@),
{
    s.to_lowercase()
}

// ---------------------------------------------------------------------------
// Addresses and paths

/// What a hexadecimal digit stands for.
pub open spec fn hex_value(b: u8) -> Option<int> {
    if '0' <= b as char <= '9' {
        Some(b - '0' as int)
    } else if 'A' <= b as char <= 'F' {
        Some(b - 'A' as int + 10)
    } else if 'a' <= b as char <= 'f' {
        Some(b - 'a' as int + 10)
    } else {
        None
    }
}

/// The bytes with one byte in the place of each percent sign that two hexadecimal
/// digits follow; any other percent sign stands for itself.
pub open spec fn percent_bytes(bytes: Seq<u8>) -> Seq<u8>
    decreases bytes.len(),
{
    if bytes.len() == 0 {
        Seq::empty()
    } else if bytes.len() >= 3 && bytes[0] as char == '%' && hex_value(bytes[1]) is Some
        && hex_value(bytes[2]) is Some {
        seq![(16 * hex_value(bytes[1])->0 + hex_value(bytes[2])->0) as u8] + percent_bytes(
            bytes.skip(3),
        )
    } else {
        seq![bytes[0]] + percent_bytes(bytes.skip(1))
    }
}

/// The text with each percent-encoded byte decoded, or nothing where the bytes are
/// then no UTF-8.
pub open spec fn percent_decoded(s: Seq<char>) -> Option<Seq<char>> {
    let b = percent_bytes(utf8::encode_utf8(s));
    if utf8::valid_utf8(b) {
        Some(utf8::decode_utf8(b))
    } else {
        None
    }
}

/// `urlencoding::decode`: a percent sign with two hexadecimal digits after it is the
/// byte that they stand for, everything else stays, and the bytes have to be UTF-8.
#[verifier::external_body]
pub(crate) fn percent_decode(s: &str) -> (r: Option<String>)
    ensures
        text::opt_view(r) == percent_decoded(s@),
{
    urlencoding::decode(s).ok().map(|t| t.into_owned())
}

/// The characters that stand for themselves in a percent-encoded text.
pub open spec fn stands_as_is(b: u8) -> bool {
    ||| text::is_ascii_alnum(b as char)
    ||| b as char == '-'
    ||| b as char == '_'
    ||| b as char == '.'
    ||| b as char == '~'
}

/// A hexadecimal digit, letters in capitals.
pub open spec fn hex_digit(n: int) -> char {
    if n < 10 {
        ('0' as int + n) as char
    } else {
        ('A' as int + n - 10) as char
    }
}

/// The bytes with a percent sign and two hexadecimal digits in the place of each
/// one that does not stand for itself.
pub open spec fn percent_encoded(bytes: Seq<u8>) -> Seq<char>
    decreases bytes.len(),
{
    if bytes.len() == 0 {
        Seq::empty()
    } else {
        let b = bytes.last();
        percent_encoded(bytes.drop_last()) + if stands_as_is(b) {
            seq![b as char]
        } else {
            seq!['%', hex_digit(b as int / 16), hex_digit(b as int % 16)]
        }
    }
}

/// A percent-encoded text holds only characters that stand for themselves and
/// percent signs, so it can be put into an address as it is.
pub proof fn encoded_is_plain(bytes: Seq<u8>, i: int)
    requires
        0 <= i < percent_encoded(bytes).len(),
    ensures
        ({
            let c = percent_encoded(bytes)[i];
            text::is_ascii_alnum(c) || c == '-' || c == '_' || c == '.' || c == '~' || c == '%'
        }),
    decreases bytes.len(),
{
    let before = percent_encoded(bytes.drop_last());
    let b = bytes.last();
    if i < before.len() {
        encoded_is_plain(bytes.drop_last(), i);
    } else if !stands_as_is(b) {
        let hi = hex_digit(b as int / 16);
        let lo = hex_digit(b as int % 16);
        assert(text::is_ascii_alnum(hi));
        assert(text::is_ascii_alnum(lo));
    }
}

/// `urlencoding::encode`: letters, digits, `-`, `_`, `.` and `~` stand for
/// themselves, every other byte of the text is percent-encoded.
#[verifier::external_body]
pub(crate) fn percent_encode(s: &str) -> (r: String)
    ensures
        r@ == percent_encoded(utf8::encode_utf8(s@)),
{
    urlencoding::encode(s).into_owned()
}

/// How `str` shows itself with `{:?}`: in quotes, with escapes.
pub uninterp spec fn text_shown(s: Seq<char>) -> Seq<char>;

/// The `Debug` output of `str`.
#[verifier::external_body]
pub(crate) fn text_debug(s: &str) -> (r: String)
    ensures
        r@ == text_shown(s@),
{
    format!("{:?}", s)
}

/// How `std::path::Path` shows itself with `{:?}`: in quotes, with escapes.
pub uninterp spec fn path_shown(path: Seq<char>) -> Seq<char>;

/// The `Debug` output of `std::path::Path`.
#[verifier::external_body]
pub(crate) fn path_debug(path: &str) -> (r: String)
    ensures
        r@ == path_shown(path@),
{
    format!("{:?}", std::path::Path::new(path))
}

/// The scheme of an address, where `reqwest::Url` can read it as one.
pub uninterp spec fn url_scheme(s: Seq<char>) -> Option<Seq<char>>;

/// `reqwest::Url::parse` and `scheme`.
#[verifier::external_body]
pub(crate) fn scheme_of(s: &str) -> (r: Option<String>)
    ensures
        text::opt_view(r) == url_scheme(s@),
{
    reqwest::Url::parse(s).ok().map(|u| u.scheme().to_string())
}

// ---------------------------------------------------------------------------
// Regular expressions

/// The groups of a match, each with its text where it took part.
pub open spec fn group_views(v: Seq<Option<String>>) -> Seq<Option<Seq<char>>> {
    Seq::new(v.len(), |i: int| text::opt_view(v[i]))
}

pub open spec fn match_views(v: Seq<Vec<Option<String>>>) -> Seq<Seq<Option<Seq<char>>>> {
    Seq::new(v.len(), |i: int| group_views(v[i]@))
}

pub open spec fn all_matches(v: Option<Vec<Vec<Option<String>>>>) -> Option<
    Seq<Seq<Option<Seq<char>>>>,
> {
    match v {
        Some(x) => Some(match_views(x@)),
        None => None,
    }
}

/// The groups of every match of a pattern in a text, the whole match first, as
/// `regex::Regex::captures_iter` gives them; nothing for what is no pattern.
pub uninterp spec fn regex_captures(pattern: Seq<char>, text: Seq<char>) -> Option<
    Seq<Seq<Option<Seq<char>>>>,
>;

/// `regex::Regex::new` and `captures_iter`.
#[verifier::external_body]
pub(crate) fn captures_in(pattern: &str, text: &str) -> (r: Option<Vec<Vec<Option<String>>>>)
    ensures
        all_matches(r) == regex_captures(pattern@, text@),
{
    let re = regex::Regex::new(pattern).ok()?;
    let groups = |c: regex::Captures| -> Vec<Option<String>> {
        c.iter().map(|g| g.map(|m| m.as_str().to_string())).collect()
    };
    Some(re.captures_iter(text).map(groups).collect())
}

/// The first match of a pattern: what comes before it, its groups with the whole
/// match first, and what comes after it.
pub struct RegexMatch {
    pub before: String,
    pub groups: Vec<Option<String>>,
    pub after: String,
}

/// The mathematical content of a `RegexMatch`.
pub struct RegexMatchView {
    pub before: Seq<char>,
    pub groups: Seq<Option<Seq<char>>>,
    pub after: Seq<char>,
}

impl View for RegexMatch {
    type V = RegexMatchView;

    open spec fn view(&self) -> RegexMatchView {
        RegexMatchView {
            before: self.before@,
            groups: group_views(self.groups@),
            after: self.after@,
        }
    }
}

/// A `RegexMatch` is seen as what it holds.
pub proof fn regex_match_is_seen_as_it_is(x: RegexMatch)
    ensures
        x@.before == x.before@,
        x@.groups == group_views(x.groups@),
        x@.after == x.after@,
{
}

pub open spec fn match_view(r: Option<RegexMatch>) -> Option<RegexMatchView> {
    match r {
        Some(m) => Some(m@),
        None => None,
    }
}

/// What `regex::Regex::captures` finds.
pub uninterp spec fn regex_first(pattern: Seq<char>, text: Seq<char>) -> Option<RegexMatchView>;

/// `regex::Regex::new` and `captures`. What comes before the match, the match and
/// what comes after it make up the text.
#[verifier::external_body]
pub(crate) fn first_match(pattern: &str, text: &str) -> (r: Option<RegexMatch>)
    ensures
        match_view(r) == regex_first(pattern@, text@),
        r matches Some(m) ==> m.groups@.len() > 0 && (m@.groups[0] matches Some(w) && text@
            == m@.before + w + m@.after),
{
    let re = regex::Regex::new(pattern).ok()?;
    let c = re.captures(text)?;
    let m = c.get(0)?;
    let groups = c.iter().map(|g| g.map(|m| m.as_str().to_string())).collect();
    let before = text[..m.start()].to_string();
    Some(RegexMatch { before, groups, after: text[m.end()..].to_string() })
}

/// Pairs are seen as pairs, in their order.
pub proof fn pairs_are_seen_as_pairs(v: Seq<(String, String)>, i: int)
    ensures
        pair_views(v).len() == v.len(),
        0 <= i < v.len() ==> pair_views(v)[i] == (v[i].0@, v[i].1@),
{
}

}
