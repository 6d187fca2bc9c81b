//! Debian packages: `ar` archives whose `data.tar` member holds the files.
use super::{unpack_entries, unpacking, Unpacking, UnpackingView};
use crate::{outside, text};
use crate::error::{ErrorKind, IoError, Result, WaxError};
use crate::outside::{bz2_packed, gz_packed, plain_packed, utf8_text, xz_packed, zst_packed};
use crate::text::{begins, chars_of, ends, parsed_u64, string_of, trimmed, without_trailing};
use vstd::prelude::*;
use vstd::utf8::{decode_utf8, valid_utf8};

verus! {

/// How a member is compressed.
#[derive(Debug, Clone, Copy, PartialEq, Eq, Structural)]
pub enum Compression {
    Gz,
    Xz,
    Zst,
    Bz2,
    Plain,
}

/// What the ending of a member's name says of its compression.
pub open spec fn compression_of(name: Seq<char>) -> Compression {
    if text::ends_with(name, ".gz"@) {
        Compression::Gz
    } else if text::ends_with(name, ".xz"@) {
        Compression::Xz
    } else if text::ends_with(name, ".zst"@) {
        Compression::Zst
    } else if text::ends_with(name, ".bz2"@) {
        Compression::Bz2
    } else {
        Compression::Plain
    }
}

/// Why an archive could not be read.
pub enum ArFault {
    Install(Seq<char>),
    Parse(Seq<char>),
    Io(Seq<char>),
}

/// The error for a fault.
pub open spec fn fault_of(e: WaxError) -> Option<ArFault> {
    match e {
        WaxError::InstallError(m) => Some(ArFault::Install(m@)),
        WaxError::ParseError(m) => Some(ArFault::Parse(m@)),
        WaxError::IoError(e) => Some(ArFault::Io(e.message@)),
        _ => None,
    }
}

/// What a number field that holds no number is told.
pub open spec fn number_fault(s: Seq<char>) -> Seq<char> {
    if s.len() == 0 {
        "cannot parse integer from empty string"@
    } else {
        "invalid digit found in string"@
    }
}

/// A member's name: padded with blanks, and closed with a slash by some tools.
pub open spec fn member_name(field: Seq<char>) -> Seq<char> {
    text::trim_end_char(text::trim_end_char(field, ' '), '/')
}

/// A member header, as far as it matters.
pub struct Member {
    pub name: Seq<char>,
    pub size: nat,
}

/// The header of 60 bytes, or what is wrong with it.
pub open spec fn member_header(h: Seq<u8>) -> std::result::Result<Member, ArFault> {
    let name = h.subrange(0, 16);
    let size = h.subrange(48, 58);
    if !valid_utf8(name) {
        Err(ArFault::Parse("ar filename: "@ + outside::utf8_fault(name)))
    } else if !valid_utf8(size) {
        Err(ArFault::Parse("ar size field: "@ + outside::utf8_fault(size)))
    } else {
        let digits = text::trim(decode_utf8(size));
        match text::parse_number(digits, u64::MAX as nat) {
            None => Err(
                ArFault::Parse("ar size '"@ + digits + "': "@ + number_fault(digits)),
            ),
            Some(n) => if h[58] == 0x60 && h[59] == 0x0a {
                Ok(Member { name: member_name(decode_utf8(name)), size: n })
            } else {
                Err(ArFault::Parse("ar file header: missing end magic"@))
            },
        }
    }
}

/// Where the files of the package lie in the archive.
pub struct DataView {
    pub start: int,
    pub size: nat,
    pub compression: Compression,
}

/// The first member from `at` on whose name begins with `data.tar`. Members are
/// padded to an even length.
pub open spec fn data_from(data: Seq<u8>, at: int) -> std::result::Result<DataView, ArFault>
    decreases data.len() - at,
{
    if at < 0 || at + 60 > data.len() {
        Err(ArFault::Install("data.tar.* member not found in .deb archive"@))
    } else {
        match member_header(data.subrange(at, at + 60)) {
            Err(f) => Err(f),
            Ok(m) => if text::starts_with(m.name, "data.tar"@) {
                Ok(
                    DataView {
                        start: at + 60,
                        size: m.size,
                        compression: compression_of(m.name),
                    },
                )
            } else if at + 60 + m.size + m.size % 2 > data.len() {
                Err(ArFault::Install("data.tar.* member not found in .deb archive"@))
            } else {
                data_from(data, at + 60 + m.size + m.size % 2)
            },
        }
    }
}

/// `!<arch>` and a line feed.
pub open spec fn global_header() -> Seq<u8> {
    seq![0x21u8, 0x3c, 0x61, 0x72, 0x63, 0x68, 0x3e, 0x0a]
}

/// What reading past the end of a file is told.
pub open spec fn short_read() -> ArFault {
    ArFault::Io("failed to fill whole buffer"@)
}

pub open spec fn data_member(data: Seq<u8>) -> std::result::Result<DataView, ArFault> {
    if data.len() < 8 {
        Err(short_read())
    } else if data.take(8) != global_header() {
        Err(ArFault::Install("Not a valid ar archive (missing global header)"@))
    } else {
        data_from(data, 8)
    }
}

/// Where the files of a package lie in its archive.
pub struct DataMember {
    pub start: u64,
    pub size: u64,
    pub compression: Compression,
}

impl View for DataMember {
    type V = DataView;

    open spec fn view(&self) -> DataView {
        DataView {
            start: self.start as int,
            size: self.size as nat,
            compression: self.compression,
        }
    }
}

/// A `DataMember` is seen as what it holds.
pub proof fn data_member_is_seen_as_it_is(x: DataMember)
    ensures
        x@.start == x.start as int,
        x@.size == x.size as nat,
        x@.compression == x.compression,
{
}

fn parse_fault(a: &str, b: &str) -> (r: WaxError)
    ensures
        fault_of(r) == Some(ArFault::Parse(a@ + b@)),
{
    let mut m = String::from_str(a);
    m.append(b);
    WaxError::ParseError(m)
}

fn read_header(h: &[u8]) -> (r: Result<(Vec<char>, u64)>)
    requires
        h@.len() == 60,
    ensures
        match member_header(h@) {
            Ok(m) => r matches Ok(p) && p.0@ == m.name && p.1 == m.size,
            Err(f) => r matches Err(e) && fault_of(e) == Some(f),
        },
{
    let name = match utf8_text(&h[0..16]) {
        Ok(t) => t,
        Err(m) => {
            return Err(parse_fault("ar filename: ", m.as_str()));
        },
    };
    let size = match utf8_text(&h[48..58]) {
        Ok(t) => t,
        Err(m) => {
            return Err(parse_fault("ar size field: ", m.as_str()));
        },
    };
    let size_chars = chars_of(size.as_str());
    let digits = trimmed(size_chars.as_slice());
    let n: u64 = match parsed_u64(digits, u64::MAX) {
        Some(n) => n,
        None => {
            let mut m = String::from_str("ar size '");
            m.append(string_of(digits).as_str());
            m.append("': ");
            if digits.len() == 0 {
                m.append("cannot parse integer from empty string");
            } else {
                m.append("invalid digit found in string");
            }
            return Err(WaxError::ParseError(m));
        },
    };
    if h[58] != 0x60 || h[59] != 0x0a {
        return Err(
            WaxError::ParseError(String::from_str("ar file header: missing end magic")),
        );
    }
    let name_chars = chars_of(name.as_str());
    let padded = without_trailing(name_chars.as_slice(), ' ');
    Ok((crate::text::owned(without_trailing(padded, '/')), n))
}

/// The compression that a member's name tells.
pub fn compression_from_name(name: &[char]) -> (r: Compression)
    ensures
        r == compression_of(name@),
{
    if ends(name, ".gz") {
        Compression::Gz
    } else if ends(name, ".xz") {
        Compression::Xz
    } else if ends(name, ".zst") {
        Compression::Zst
    } else if ends(name, ".bz2") {
        Compression::Bz2
    } else {
        Compression::Plain
    }
}

/// Finds the member that holds the files of a package.
pub fn find_data_member(data: &[u8]) -> (r: Result<DataMember>)
    ensures
        match data_member(data@) {
            Ok(d) => r matches Ok(m) && m@ == d,
            Err(f) => r matches Err(e) && fault_of(e) == Some(f),
        },
{
    let n: usize = data.len();
    if n < 8 {
        return Err(WaxError::IoError(IoError::new(ErrorKind::UnexpectedEof, "failed to fill whole buffer")));
    }
    if !(data[0] == 0x21 && data[1] == 0x3c && data[2] == 0x61 && data[3] == 0x72 && data[4] == 0x63
        && data[5] == 0x68 && data[6] == 0x3e && data[7] == 0x0a) {
        proof {
            if data@.take(8) == global_header() {
                assert(forall|i: int| 0 <= i < 8 ==> data@.take(8)[i] == data@[i]);
                assert(data@.take(8)[0] == data@[0]);
                assert(data@.take(8)[1] == data@[1]);
                assert(data@.take(8)[2] == data@[2]);
                assert(data@.take(8)[3] == data@[3]);
                assert(data@.take(8)[4] == data@[4]);
                assert(data@.take(8)[5] == data@[5]);
                assert(data@.take(8)[6] == data@[6]);
                assert(data@.take(8)[7] == data@[7]);
            }
        }
        return Err(
            WaxError::InstallError(
                String::from_str("Not a valid ar archive (missing global header)"),
            ),
        );
    }
    proof {
        assert(data@.take(8) =~= global_header());
    }
    let mut at: usize = 8;
    loop
        invariant
            n == data@.len(),
            0 <= at,
            data_member(data@) == data_from(data@, at as int),
        decreases n - at,
    {
        if at > n || n - at < 60 {
            return Err(
                WaxError::InstallError(
                    String::from_str("data.tar.* member not found in .deb archive"),
                ),
            );
        }
        let header = &data[at..at + 60];
        match read_header(header) {
            Err(e) => {
                return Err(e);
            },
            Ok((name, size)) => {
                if begins(name.as_slice(), "data.tar") {
                    return Ok(
                        DataMember {
                            start: (at + 60) as u64,
                            size,
                            compression: compression_from_name(name.as_slice()),
                        },
                    );
                }
                let here: u64 = (at + 60) as u64;
                let left: u64 = n as u64 - here;
                if size > left || size + size % 2 > left {
                    return Err(
                        WaxError::InstallError(
                            String::from_str("data.tar.* member not found in .deb archive"),
                        ),
                    );
                }
                at = at + 60 + (size + size % 2) as usize;
            },
        }
    }
}

/// What unpacking a compressed archive comes to.
pub open spec fn data_unpacking(bytes: Seq<u8>, c: Compression) -> std::result::Result<
    UnpackingView,
    ArFault,
> {
    match c {
        Compression::Gz => Ok(unpacking(outside::gz_packed_entries(bytes), false)),
        Compression::Xz => Ok(unpacking(outside::xz_packed_entries(bytes), false)),
        Compression::Zst => match outside::zst_packed_entries(bytes) {
            Ok(l) => Ok(unpacking(l, false)),
            Err(m) => Err(ArFault::Install("zstd decoder error: "@ + m)),
        },
        Compression::Bz2 => Ok(unpacking(outside::bz2_packed_entries(bytes), false)),
        Compression::Plain => Ok(unpacking(outside::plain_packed_entries(bytes), false)),
    }
}

/// What unpacking a package comes to: its data member has to be there as a whole.
pub open spec fn package_unpacking(data: Seq<u8>) -> std::result::Result<UnpackingView, ArFault> {
    match data_member(data) {
        Err(f) => Err(f),
        Ok(d) => if d.start + d.size > data.len() {
            Err(short_read())
        } else {
            data_unpacking(data.subrange(d.start, d.start + d.size), d.compression)
        },
    }
}

/// What unpacking the archive in `bytes` comes to.
pub fn extract_data_tar(bytes: &[u8], c: Compression) -> (r: Result<Unpacking>)
    ensures
        match data_unpacking(bytes@, c) {
            Ok(u) => r matches Ok(v) && v@ == u,
            Err(f) => r matches Err(e) && fault_of(e) == Some(f),
        },
{
    match c {
        Compression::Gz => Ok(unpack_entries(&gz_packed(bytes), false)),
        Compression::Xz => Ok(unpack_entries(&xz_packed(bytes), false)),
        Compression::Zst => match zst_packed(bytes) {
            Ok(l) => Ok(unpack_entries(&l, false)),
            Err(m) => {
                let mut t = String::from_str("zstd decoder error: ");
                t.append(m.as_str());
                Err(WaxError::InstallError(t))
            },
        },
        Compression::Bz2 => Ok(unpack_entries(&bz2_packed(bytes), false)),
        Compression::Plain => Ok(unpack_entries(&plain_packed(bytes), false)),
    }
}

/// What unpacking the package whose bytes are `data` comes to.
pub fn extract(data: &[u8]) -> (r: Result<Unpacking>)
    ensures
        match package_unpacking(data@) {
            Ok(u) => r matches Ok(v) && v@ == u,
            Err(f) => r matches Err(e) && fault_of(e) == Some(f),
        },
{
    match find_data_member(data) {
        Err(e) => Err(e),
        Ok(d) => {
            let n: u64 = data.len() as u64;
            if d.start > n || d.size > n - d.start {
                return Err(WaxError::IoError(IoError::new(ErrorKind::UnexpectedEof, "failed to fill whole buffer")));
            }
            let from: usize = d.start as usize;
            let to: usize = (d.start + d.size) as usize;
            extract_data_tar(&data[from..to], d.compression)
        },
    }
}

// ---------------------------------------------------------------------------
// Laws

/// The ending of a data archive's name tells how it is packed.
pub proof fn endings_tell_compression(base: Seq<char>, name: Seq<char>)
    ensures
        compression_of(base + ".gz"@) == Compression::Gz,
        compression_of(base + ".xz"@) == Compression::Xz,
        compression_of(base + ".zst"@) == Compression::Zst,
        compression_of(base + ".bz2"@) == Compression::Bz2,
        compression_of(base + ".tar"@) == Compression::Plain,
        !text::ends_with(name, ".gz"@) && !text::ends_with(name, ".xz"@) && !text::ends_with(
            name,
            ".zst"@,
        ) && !text::ends_with(name, ".bz2"@) ==> compression_of(name) == Compression::Plain,
{
    reveal_strlit(".gz");
    reveal_strlit(".xz");
    reveal_strlit(".zst");
    reveal_strlit(".bz2");
    reveal_strlit(".tar");
    ending_decides(base, ".gz"@, ".gz"@);
    ending_decides(base, ".xz"@, ".gz"@);
    ending_decides(base, ".xz"@, ".xz"@);
    ending_decides(base, ".zst"@, ".gz"@);
    ending_decides(base, ".zst"@, ".xz"@);
    ending_decides(base, ".zst"@, ".zst"@);
    ending_decides(base, ".bz2"@, ".gz"@);
    ending_decides(base, ".bz2"@, ".xz"@);
    ending_decides(base, ".bz2"@, ".zst"@);
    ending_decides(base, ".bz2"@, ".bz2"@);
    ending_decides(base, ".tar"@, ".gz"@);
    ending_decides(base, ".tar"@, ".xz"@);
    ending_decides(base, ".tar"@, ".zst"@);
    ending_decides(base, ".tar"@, ".bz2"@);
}

/// A text that ends in `e` does not end in `f` where the two differ near their end.
proof fn ending_decides(base: Seq<char>, e: Seq<char>, f: Seq<char>)
    ensures
        e == f ==> text::ends_with(base + e, f),
        e.len() > 0 && f.len() > 0 && e.last() != f.last() ==> !text::ends_with(base + e, f),
        e.len() > 1 && f.len() > 1 && e[e.len() - 2] != f[f.len() - 2] ==> !text::ends_with(
            base + e,
            f,
        ),
{
    text::stripping_undoes_prefixing(e, base);
    let s = base + e;
    if text::ends_with(s, f) {
        let t = s.subrange(s.len() - f.len(), s.len() as int);
        assert(t == f);
        if e.len() > 0 && f.len() > 0 {
            assert(t[f.len() - 1] == s[s.len() - 1]);
        }
        if e.len() > 1 && f.len() > 1 {
            assert(t[f.len() - 2] == s[s.len() - 2]);
        }
    }
}

/// The header of a member gives its name, without what fills it up, and its size.
pub proof fn headers_are_read_back(h: Seq<u8>, name: Seq<char>, fill: Seq<char>, size: nat, blank: Seq<char>)
    requires
        h.len() == 60,
        valid_utf8(h.subrange(0, 16)),
        decode_utf8(h.subrange(0, 16)) == name + fill,
        forall|i: int| 0 <= i < fill.len() ==> fill[i] == ' ',
        name.len() > 0,
        name.last() != ' ',
        name.last() != '/',
        valid_utf8(h.subrange(48, 58)),
        decode_utf8(h.subrange(48, 58)) == text::decimal(size) + blank,
        text::is_blank(blank),
        size <= u64::MAX,
    ensures
        h[58] == 0x60 && h[59] == 0x0a ==> member_header(h) == Ok::<Member, ArFault>(
            Member { name, size },
        ),
        h[58] != 0x60 || h[59] != 0x0a ==> member_header(h) is Err,
{
    let d = text::decimal(size);
    text::decimal_is_number(size);
    text::numbers_are_read_back(size, u64::MAX as nat);
    assert(text::is_digit(d[0]) && text::is_digit(d[d.len() - 1]));
    let none = Seq::<char>::empty();
    text::trimming_keeps_the_middle(none, d, blank);
    assert(none + d + blank =~= d + blank);
    fill_is_dropped(name, fill);
}

proof fn fill_is_dropped(name: Seq<char>, fill: Seq<char>)
    requires
        forall|i: int| 0 <= i < fill.len() ==> fill[i] == ' ',
        name.len() > 0,
        name.last() != ' ',
        name.last() != '/',
    ensures
        member_name(name + fill) == name,
        text::trim_end_char(name + fill, ' ') == name,
    decreases fill.len(),
{
    if fill.len() == 0 {
        assert(name + fill =~= name);
    } else {
        assert((name + fill).last() == ' ');
        assert((name + fill).drop_last() =~= name + fill.drop_last());
        fill_is_dropped(name, fill.drop_last());
    }
}

/// The data of a package is the first member whose name says so: it begins behind its
/// header, and every other member is passed over, up to the next even place.
pub proof fn data_is_the_first_of_its_name(data: Seq<u8>, at: int, m: Member)
    requires
        0 <= at,
        at + 60 <= data.len(),
        member_header(data.subrange(at, at + 60)) == Ok::<Member, ArFault>(m),
    ensures
        text::starts_with(m.name, "data.tar"@) ==> data_from(data, at) == Ok::<DataView, ArFault>(
            DataView { start: at + 60, size: m.size, compression: compression_of(m.name) },
        ),
        !text::starts_with(m.name, "data.tar"@) && m.size % 2 == 0 && at + 60 + m.size
            <= data.len() ==> data_from(data, at) == data_from(data, at + 60 + m.size),
        !text::starts_with(m.name, "data.tar"@) && m.size % 2 == 1 && at + 61 + m.size
            <= data.len() ==> data_from(data, at) == data_from(data, at + 61 + m.size),
        !text::starts_with(m.name, "data.tar"@) && at + 60 + m.size > data.len() ==> data_from(
            data,
            at,
        ) is Err,
{
}

/// An archive begins with its mark, and the members follow it.
pub proof fn archives_begin_with_their_mark(members: Seq<u8>, data: Seq<u8>)
    ensures
        data_member(global_header() + members) == data_from(global_header() + members, 8),
        data.len() < 8 ==> data_member(data) is Err,
        data.len() >= 8 && (data[0] != 0x21 || data[1] != 0x3c || data[2] != 0x61 || data[3] != 0x72
            || data[4] != 0x63 || data[5] != 0x68 || data[6] != 0x3e || data[7] != 0x0a)
            ==> data_member(data) is Err,
{
    let g = global_header();
    assert((g + members).take(8) =~= g);
    if data.len() >= 8 && data.take(8) == g {
        assert(data.take(8)[0] == data[0] && data.take(8)[1] == data[1] && data.take(8)[2]
            == data[2] && data.take(8)[3] == data[3]);
        assert(data.take(8)[4] == data[4] && data.take(8)[5] == data[5] && data.take(8)[6]
            == data[6] && data.take(8)[7] == data[7]);
    }
}

/// What is unpacked of a package are the entries of its data, read as they are packed.
pub proof fn packages_are_unpacked_as_packed(data: Seq<u8>, d: DataView)
    requires
        data_member(data) == Ok::<DataView, ArFault>(d),
        d.start >= 0,
    ensures
        d.start + d.size > data.len() ==> package_unpacking(data) is Err,
        d.start + d.size <= data.len() ==> ({
            let bytes = data.subrange(d.start, d.start + d.size);
            &&& d.compression == Compression::Gz ==> package_unpacking(data) == Ok::<
                UnpackingView,
                ArFault,
            >(unpacking(outside::gz_packed_entries(bytes), false))
            &&& d.compression == Compression::Xz ==> package_unpacking(data) == Ok::<
                UnpackingView,
                ArFault,
            >(unpacking(outside::xz_packed_entries(bytes), false))
            &&& d.compression == Compression::Bz2 ==> package_unpacking(data) == Ok::<
                UnpackingView,
                ArFault,
            >(unpacking(outside::bz2_packed_entries(bytes), false))
            &&& d.compression == Compression::Plain ==> package_unpacking(data) == Ok::<
                UnpackingView,
                ArFault,
            >(unpacking(outside::plain_packed_entries(bytes), false))
            &&& d.compression == Compression::Zst ==> (outside::zst_packed_entries(bytes) matches Ok(
                l,
            ) ==> package_unpacking(data) == Ok::<UnpackingView, ArFault>(unpacking(l, false)))
            &&& d.compression == Compression::Zst && outside::zst_packed_entries(bytes) is Err
                ==> package_unpacking(data) is Err
        }),
{
}

/// A field without a number is told as empty or as no number, and an archive that ends too
/// early as one that does.
pub proof fn faults_are_told(s: Seq<char>)
    ensures
        s.len() == 0 ==> number_fault(s) == "cannot parse integer from empty string"@,
        s.len() > 0 ==> number_fault(s) == "invalid digit found in string"@,
        short_read() == ArFault::Io("failed to fill whole buffer"@),
{
}

/// An archive that ends before its data is told to have none, and one without its mark to
/// be none.
pub proof fn archives_without_data_are_told(data: Seq<u8>, at: int)
    ensures
        at + 60 > data.len() ==> data_from(data, at) == Err::<DataView, ArFault>(
            ArFault::Install("data.tar.* member not found in .deb archive"@),
        ),
        data.len() >= 8 && data.take(8) != seq![
            0x21u8,
            0x3c,
            0x61,
            0x72,
            0x63,
            0x68,
            0x3e,
            0x0a,
        ] ==> data_member(data) == Err::<DataView, ArFault>(
            ArFault::Install("Not a valid ar archive (missing global header)"@),
        ),
        data.len() < 8 ==> data_member(data) == Err::<DataView, ArFault>(short_read()),
{
}

}
