//! Bottles: precompiled packages, their checksums and their relocation.
use crate::{outside, text};
use crate::error::{Result, WaxError};
use crate::outside::{lossy_text, sha256_hex, utf8_text};
use crate::text::{begins, chars_of, find, has, is, lines_of, parsed_u64, part, pieces, replaced, same, same_str, string_of, trimmed};
use vstd::prelude::*;
use vstd::utf8::{decode_utf8, encode_utf8, valid_utf8};

verus! {

pub struct BottleDownloader;

/// What an address of a GitHub container registry says of the repository: the
/// part between `/v2/` and `/blobs/`.
pub open spec fn repo_path(url: Seq<char>) -> Option<Seq<char>> {
    if text::contains(url, "/v2/"@) && text::contains(url, "/blobs/"@) {
        Some(url.subrange(text::position(url, "/v2/"@) + 4, text::position(url, "/blobs/"@)))
    } else {
        None
    }
}

/// The two marks of a registry address do not stand in the wrong order.
pub open spec fn marks_in_order(url: Seq<char>) -> bool {
    text::contains(url, "/v2/"@) && text::contains(url, "/blobs/"@) ==> text::position(url, "/v2/"@) + 4 <= text::position(
        url,
        "/blobs/"@,
    )
}

impl BottleDownloader {
    /// Whether the marks of a registry address stand in order.
    pub fn has_marks_in_order(url: &str) -> (r: bool)
        ensures
            r == marks_in_order(url@),
    {
        let c = chars_of(url);
        let v2 = chars_of("/v2/");
        let blobs = chars_of("/blobs/");
        match find(c.as_slice(), v2.as_slice()) {
            Some(start) => match find(c.as_slice(), blobs.as_slice()) {
                Some(end) => {
                    proof {
                        text::position_is(url@, "/v2/"@, start as int);
                        text::position_is(url@, "/blobs/"@, end as int);
                    }
                    end >= 4 && start <= end - 4
                },
                None => true,
            },
            None => true,
        }
    }

    /// The repository in an address of a GitHub container registry.
    pub fn extract_repo_path(url: &str) -> (r: Result<String>)
        requires
            marks_in_order(url@),
        ensures
            match repo_path(url@) {
                Some(p) => r matches Ok(s) && s@ == p,
                None => r matches Err(WaxError::InstallError(m)) && m@
                    == "Invalid GHCR URL format: "@ + url@,
            },
    {
        let c = chars_of(url);
        let v2 = chars_of("/v2/");
        let blobs = chars_of("/blobs/");
        proof {
            reveal_strlit("/v2/");
        }
        match find(c.as_slice(), v2.as_slice()) {
            Some(start) => match find(c.as_slice(), blobs.as_slice()) {
                Some(end) => {
                    proof {
                        text::position_is(url@, "/v2/"@, start as int);
                        text::position_is(url@, "/blobs/"@, end as int);
                    }
                    return Ok(string_of(part(c.as_slice(), start + 4, end)));
                },
                None => {},
            },
            None => {},
        }
        let mut m = String::from_str("Invalid GHCR URL format: ");
        m.append(url);
        Err(WaxError::InstallError(m))
    }

    /// Where the token for a repository is had.
    pub fn token_url(repo_path: &str) -> (r: String)
        ensures
            r@ == "https://ghcr.io/token?scope=repository:"@ + repo_path@ + ":pull"@,
    {
        let mut url = String::from_str("https://ghcr.io/token?scope=repository:");
        url.append(repo_path);
        url.append(":pull");
        url
    }

    /// Whether a download needs a token.
    pub fn needs_token(url: &str) -> (r: bool)
        ensures
            r == text::contains(url@, "ghcr.io"@),
    {
        has(chars_of(url).as_slice(), "ghcr.io")
    }

    /// What is said of a download that was refused: the status and the first two
    /// hundred characters of the answer.
    pub fn refused(status: &str, body: &str) -> (r: WaxError)
        ensures
            r matches WaxError::InstallError(m) && m@ == "Download failed with HTTP "@ + status@
                + ": "@ + body@.take(
                if body@.len() < 200 {
                    body@.len() as int
                } else {
                    200
                },
            ),
    {
        let b = chars_of(body);
        let n: usize = if b.len() < 200 {
            b.len()
        } else {
            200
        };
        let head = part(b.as_slice(), 0, n);
        proof {
            assert(head@ =~= body@.take(n as int));
        }
        let mut m = String::from_str("Download failed with HTTP ");
        m.append(status);
        m.append(": ");
        m.append(string_of(head).as_str());
        WaxError::InstallError(m)
    }

    /// Accepts content exactly when its SHA-256 checksum is the expected one.
    pub fn verify_checksum(content: &[u8], expected_sha256: &str) -> (r: Result<()>)
        ensures
            if outside::sha256_of(content@) == expected_sha256@ {
                r is Ok
            } else {
                r matches Err(WaxError::ChecksumMismatch { expected, actual }) && expected@
                    == expected_sha256@ && actual@ == outside::sha256_of(content@)
            },
    {
        let hash = sha256_hex(content);
        check_hash(hash, expected_sha256)
    }
}

/// Accepts a checksum exactly when it is the expected one.
pub fn check_hash(actual_sha256: String, expected_sha256: &str) -> (r: Result<()>)
    ensures
        if actual_sha256@ == expected_sha256@ {
            r is Ok
        } else {
            r matches Err(WaxError::ChecksumMismatch { expected, actual }) && expected@
                == expected_sha256@ && actual@ == actual_sha256@
        },
{
    if same_str(actual_sha256.as_str(), expected_sha256) {
        Ok(())
    } else {
        Err(
            WaxError::ChecksumMismatch {
                expected: String::from_str(expected_sha256),
                actual: actual_sha256,
            },
        )
    }
}

// ---------------------------------------------------------------------------
// Relocation of plain files

/// What a file is, for its relocation.
#[derive(Debug, Clone, Copy, PartialEq, Eq, Structural)]
pub enum FileKind {
    Elf,
    MachO,
    Plain,
}

/// The four bytes that a file begins with are these.
pub open spec fn begins_with(data: Seq<u8>, a: u8, b: u8, c: u8, d: u8) -> bool {
    data.len() >= 4 && data[0] == a && data[1] == b && data[2] == c && data[3] == d
}

/// The magic numbers of Mach-O files: 32 bits, 64 bits, and universal ones, each in
/// both byte orders.
pub open spec fn has_mach_o_magic(data: Seq<u8>) -> bool {
    ||| begins_with(data, 0xCE, 0xFA, 0xED, 0xFE)
    ||| begins_with(data, 0xFE, 0xED, 0xFA, 0xCE)
    ||| begins_with(data, 0xCF, 0xFA, 0xED, 0xFE)
    ||| begins_with(data, 0xFE, 0xED, 0xFA, 0xCF)
    ||| begins_with(data, 0xBE, 0xBA, 0xFE, 0xCA)
    ||| begins_with(data, 0xCA, 0xFE, 0xBA, 0xBE)
}

/// Whether the first four bytes are the magic number of a Mach-O file.
pub fn is_mach_o(data: &[u8]) -> (r: bool)
    ensures
        r == has_mach_o_magic(data@),
{
    if data.len() < 4 {
        return false;
    }
    let (a, b, c, d) = (data[0], data[1], data[2], data[3]);
    (b == 0xFA && c == 0xED && d == 0xFE && (a == 0xCE || a == 0xCF)) || (a == 0xFE && b == 0xED
        && c == 0xFA && (d == 0xCE || d == 0xCF)) || (a == 0xBE && b == 0xBA && c == 0xFE && d
        == 0xCA) || (a == 0xCA && b == 0xFE && c == 0xBA && d == 0xBE)
}

/// How a file is relocated.
pub fn file_kind(content: &[u8]) -> (r: FileKind)
    ensures
        r == if begins_with(content@, 0x7f, 0x45, 0x4c, 0x46) {
            FileKind::Elf
        } else if has_mach_o_magic(content@) {
            FileKind::MachO
        } else {
            FileKind::Plain
        },
{
    if content.len() >= 4 && content[0] == 0x7f && content[1] == 0x45 && content[2] == 0x4c
        && content[3] == 0x46 {
        FileKind::Elf
    } else if is_mach_o(content) {
        FileKind::MachO
    } else {
        FileKind::Plain
    }
}

/// `p` stands in `s` at position `i`.
pub open spec fn bytes_at(s: Seq<u8>, p: Seq<u8>, i: int) -> bool {
    0 <= i <= s.len() - p.len() && s.subrange(i, i + p.len()) == p
}

/// `replacement` followed by as many zeros as make it `n` bytes long.
pub open spec fn padded(replacement: Seq<u8>, n: nat) -> Seq<u8> {
    replacement + Seq::new((n - replacement.len()) as nat, |i: int| 0u8)
}

/// The content with each placeholder, found from the left, overwritten by the
/// replacement and zeros.
pub open spec fn overwritten(content: Seq<u8>, placeholder: Seq<u8>, replacement: Seq<u8>) -> Seq<u8>
    decreases content.len(),
{
    if placeholder.len() == 0 || content.len() < placeholder.len() {
        content
    } else if bytes_at(content, placeholder, 0) {
        padded(replacement, placeholder.len()) + overwritten(
            content.skip(placeholder.len() as int),
            placeholder,
            replacement,
        )
    } else {
        seq![content[0]] + overwritten(content.skip(1), placeholder, replacement)
    }
}

/// The content with the placeholder overwritten, unless the replacement is longer
/// than the placeholder.
pub open spec fn patched(content: Seq<u8>, placeholder: Seq<u8>, replacement: Seq<u8>) -> Seq<u8> {
    if replacement.len() > placeholder.len() {
        content
    } else {
        overwritten(content, placeholder, replacement)
    }
}

/// Whether patching overwrites anything.
pub open spec fn patches(content: Seq<u8>, placeholder: Seq<u8>, replacement: Seq<u8>) -> bool {
    replacement.len() <= placeholder.len() && exists|i: int| bytes_at(content, placeholder, i)
}

/// The placeholder of the installation prefix.
pub open spec fn prefix_mark() -> Seq<u8> {
    encode_utf8("@@HOMEBREW_PREFIX@@"@)
}

/// The placeholder of the directory of installed packages.
pub open spec fn cellar_mark() -> Seq<u8> {
    encode_utf8("@@HOMEBREW_CELLAR@@"@)
}

/// The content of a plain file for an installation under `prefix`.
pub open spec fn relocated(content: Seq<u8>, prefix: Seq<char>, cellar: Seq<char>) -> Seq<u8> {
    patched(
        patched(content, prefix_mark(), encode_utf8(prefix)),
        cellar_mark(),
        encode_utf8(cellar),
    )
}

/// Whether a plain file has to be written anew.
pub open spec fn needs_rewrite(content: Seq<u8>, prefix: Seq<char>, cellar: Seq<char>) -> bool {
    patches(content, prefix_mark(), encode_utf8(prefix)) || patches(
        patched(content, prefix_mark(), encode_utf8(prefix)),
        cellar_mark(),
        encode_utf8(cellar),
    )
}

proof fn overwriting_keeps_length(content: Seq<u8>, placeholder: Seq<u8>, replacement: Seq<u8>)
    requires
        replacement.len() <= placeholder.len(),
    ensures
        overwritten(content, placeholder, replacement).len() == content.len(),
    decreases content.len(),
{
    if placeholder.len() > 0 && content.len() >= placeholder.len() {
        if bytes_at(content, placeholder, 0) {
            overwriting_keeps_length(
                content.skip(placeholder.len() as int),
                placeholder,
                replacement,
            );
        } else {
            overwriting_keeps_length(content.skip(1), placeholder, replacement);
        }
    }
}

/// Relocation never changes the length of a file.
pub proof fn relocation_keeps_length(content: Seq<u8>, prefix: Seq<char>, cellar: Seq<char>)
    ensures
        relocated(content, prefix, cellar).len() == content.len(),
{
    let p = encode_utf8(prefix);
    let c = encode_utf8(cellar);
    if p.len() <= prefix_mark().len() {
        overwriting_keeps_length(content, prefix_mark(), p);
    }
    let once = patched(content, prefix_mark(), p);
    if c.len() <= cellar_mark().len() {
        overwriting_keeps_length(once, cellar_mark(), c);
    }
}

proof fn overwriting_nothing(content: Seq<u8>, placeholder: Seq<u8>, replacement: Seq<u8>)
    requires
        forall|i: int| !bytes_at(content, placeholder, i),
    ensures
        overwritten(content, placeholder, replacement) == content,
    decreases content.len(),
{
    if placeholder.len() > 0 && content.len() >= placeholder.len() {
        assert(!bytes_at(content, placeholder, 0));
        let rest = content.skip(1);
        assert forall|i: int| !bytes_at(rest, placeholder, i) by {
            if bytes_at(rest, placeholder, i) {
                assert(content.subrange(i + 1, i + 1 + placeholder.len()) =~= rest.subrange(
                    i,
                    i + placeholder.len(),
                ));
                assert(bytes_at(content, placeholder, i + 1));
            }
        }
        overwriting_nothing(rest, placeholder, replacement);
        assert(seq![content[0]] + rest =~= content);
    }
}

/// A file that need not be written anew is already what relocation makes of it.
pub proof fn untouched_files_stay(content: Seq<u8>, prefix: Seq<char>, cellar: Seq<char>)
    requires
        !needs_rewrite(content, prefix, cellar),
    ensures
        relocated(content, prefix, cellar) == content,
{
    let p = encode_utf8(prefix);
    let c = encode_utf8(cellar);
    if p.len() <= prefix_mark().len() {
        assert forall|i: int| !bytes_at(content, prefix_mark(), i) by {}
        overwriting_nothing(content, prefix_mark(), p);
    }
    let once = patched(content, prefix_mark(), p);
    if c.len() <= cellar_mark().len() {
        assert forall|i: int| !bytes_at(once, cellar_mark(), i) by {}
        overwriting_nothing(once, cellar_mark(), c);
    }
}

fn bytes_match(s: &Vec<u8>, p: &[u8], i: usize) -> (r: bool)
    ensures
        r == bytes_at(s@, p@, i as int),
{
    if p.len() > s.len() || i > s.len() - p.len() {
        return false;
    }
    for k in 0..p.len()
        invariant
            i + p@.len() <= s.len(),
            forall|j: int| 0 <= j < k ==> s@[i + j] == p@[j],
    {
        if s[i + k] != p[k] {
            assert(s@.subrange(i as int, i + p@.len())[k as int] != p@[k as int]);
            return false;
        }
    }
    assert(s@.subrange(i as int, i + p@.len()) =~= p@);
    true
}

fn patch(content: &mut Vec<u8>, placeholder: &[u8], replacement: &[u8]) -> (modified: bool)
    requires
        placeholder@.len() > 0,
    ensures
        final(content)@ == patched(old(content)@, placeholder@, replacement@),
        modified == patches(old(content)@, placeholder@, replacement@),
{
    let ghost orig = content@;
    if replacement.len() > placeholder.len() {
        return false;
    }
    let n: usize = content.len();
    let mut i: usize = 0;
    let mut modified: bool = false;
    let mut out: Vec<u8> = Vec::new();
    proof {
        assert(orig.skip(0) =~= orig);
        assert(out@ + overwritten(orig, placeholder@, replacement@) =~= overwritten(
            orig,
            placeholder@,
            replacement@,
        ));
    }
    while i < n
        invariant
            placeholder@.len() > 0,
            replacement@.len() <= placeholder@.len(),
            n == orig.len(),
            content@ == orig,
            i <= n,
            out@ + overwritten(orig.skip(i as int), placeholder@, replacement@) == overwritten(
                orig,
                placeholder@,
                replacement@,
            ),
            modified ==> exists|j: int| bytes_at(orig, placeholder@, j),
            !modified ==> forall|j: int| 0 <= j < i ==> !bytes_at(orig, placeholder@, j),
        decreases n - i,
    {
        let ghost rest = orig.skip(i as int);
        let ghost before = out@;
        if bytes_match(content, placeholder, i) {
            proof {
                assert(rest.subrange(0, placeholder@.len() as int) =~= orig.subrange(
                    i as int,
                    i + placeholder@.len(),
                ));
                assert(rest.skip(placeholder@.len() as int) =~= orig.skip(i + placeholder@.len()));
                assert(bytes_at(orig, placeholder@, i as int));
            }
            for k in 0..replacement.len()
                invariant
                    out@ == before + replacement@.take(k as int),
            {
                out.push(replacement[k]);
                proof {
                    assert(out@ =~= before + replacement@.take(k + 1));
                }
            }
            let pad: usize = placeholder.len() - replacement.len();
            proof {
                assert(replacement@.take(replacement@.len() as int) =~= replacement@);
            }
            for k in 0..pad
                invariant
                    out@ == before + replacement@ + Seq::new(k as nat, |j: int| 0u8),
            {
                out.push(0);
                proof {
                    assert(out@ =~= before + replacement@ + Seq::new((k + 1) as nat, |j: int| 0u8));
                }
            }
            i += placeholder.len();
            modified = true;
            proof {
                assert(out@ =~= before + padded(replacement@, placeholder@.len()));
                assert(out@ + overwritten(orig.skip(i as int), placeholder@, replacement@)
                    =~= before + (padded(replacement@, placeholder@.len()) + overwritten(
                    orig.skip(i as int),
                    placeholder@,
                    replacement@,
                )));
            }
        } else {
            proof {
                if rest.len() >= placeholder@.len() {
                    assert(rest.subrange(0, placeholder@.len() as int) =~= orig.subrange(
                        i as int,
                        i + placeholder@.len(),
                    ));
                    assert(!bytes_at(rest, placeholder@, 0));
                } else {
                    assert(overwritten(rest.skip(1), placeholder@, replacement@) == rest.skip(1));
                    assert(seq![rest[0]] + rest.skip(1) =~= rest);
                }
                assert(overwritten(rest, placeholder@, replacement@) == seq![rest[0]] + overwritten(
                    rest.skip(1),
                    placeholder@,
                    replacement@,
                ));
                assert(rest.skip(1) =~= orig.skip(i + 1));
            }
            out.push(content[i]);
            i += 1;
            proof {
                assert(out@ + overwritten(orig.skip(i as int), placeholder@, replacement@)
                    =~= before + (seq![rest[0]] + overwritten(
                    orig.skip(i as int),
                    placeholder@,
                    replacement@,
                )));
            }
        }
    }
    proof {
        assert(orig.skip(n as int) =~= Seq::<u8>::empty());
        assert(out@ + Seq::<u8>::empty() =~= out@);
        if !modified {
            assert forall|j: int| !bytes_at(orig, placeholder@, j) by {}
        }
    }
    *content = out;
    modified
}

impl BottleDownloader {
    /// The directory of installed packages under `prefix`.
    pub fn cellar_of(prefix: &str) -> (r: String)
        ensures
            r@ == prefix@ + "/Cellar"@,
    {
        let mut c = String::from_str(prefix);
        c.append("/Cellar");
        c
    }

    /// Relocates the content of a plain file, and tells whether it has to be
    /// written anew.
    pub fn relocate_file(content: &mut Vec<u8>, prefix: &str, cellar: &str) -> (modified: bool)
        ensures
            final(content)@ == relocated(old(content)@, prefix@, cellar@),
            modified == needs_rewrite(old(content)@, prefix@, cellar@),
    {
        let prefix_bytes = "@@HOMEBREW_PREFIX@@".as_bytes();
        let cellar_bytes = "@@HOMEBREW_CELLAR@@".as_bytes();
        proof {
            reveal_strlit("@@HOMEBREW_PREFIX@@");
            reveal_strlit("@@HOMEBREW_CELLAR@@");
            assert("@@HOMEBREW_PREFIX@@"@.len() > 0);
            assert("@@HOMEBREW_CELLAR@@"@.len() > 0);
            encoding_is_nonempty("@@HOMEBREW_PREFIX@@"@);
            encoding_is_nonempty("@@HOMEBREW_CELLAR@@"@);
        }
        let first = patch(content, prefix_bytes, prefix.as_bytes());
        let second = patch(content, cellar_bytes, cellar.as_bytes());
        first || second
    }
}

proof fn encoding_is_nonempty(s: Seq<char>)
    requires
        s.len() > 0,
    ensures
        encode_utf8(s).len() > 0,
{
    vstd::utf8::encode_utf8_first_scalar(s);
    if encode_utf8(s).len() == 0 {
        vstd::utf8::encode_utf8_decode_utf8(s);
        assert(decode_utf8(encode_utf8(s)).len() == 0);
    }
}

// ---------------------------------------------------------------------------
// Relocation of binaries

/// A text with the placeholder of the packages' directory replaced, and then
/// that of the prefix.
pub open spec fn resolved(s: Seq<char>, prefix: Seq<char>, cellar: Seq<char>) -> Seq<char> {
    text::replace(text::replace(s, "@@HOMEBREW_CELLAR@@"@, cellar), "@@HOMEBREW_PREFIX@@"@, prefix)
}

/// The search path of an ELF file with the prefix replaced, and then the
/// packages' directory.
pub open spec fn resolved_rpath(s: Seq<char>, prefix: Seq<char>, cellar: Seq<char>) -> Seq<char> {
    text::replace(text::replace(s, "@@HOMEBREW_PREFIX@@"@, prefix), "@@HOMEBREW_CELLAR@@"@, cellar)
}

pub open spec fn has_mark(s: Seq<char>) -> bool {
    text::contains(s, "@@HOMEBREW_CELLAR@@"@) || text::contains(s, "@@HOMEBREW_PREFIX@@"@)
}

fn replace_mark(s: &[char], mark: &str, by: &str) -> (r: Vec<char>)
    requires
        mark@.len() > 0,
    ensures
        r@ == text::replace(s@, mark@, by@),
{
    replaced(s, chars_of(mark).as_slice(), chars_of(by).as_slice())
}

fn resolve_marks(s: &[char], prefix: &str, cellar: &str) -> (r: Vec<char>)
    ensures
        r@ == resolved(s@, prefix@, cellar@),
{
    proof {
        reveal_strlit("@@HOMEBREW_PREFIX@@");
        reveal_strlit("@@HOMEBREW_CELLAR@@");
    }
    let once = replace_mark(s, "@@HOMEBREW_CELLAR@@", cellar);
    replace_mark(once.as_slice(), "@@HOMEBREW_PREFIX@@", prefix)
}

fn has_marks(s: &[char]) -> (r: bool)
    ensures
        r == has_mark(s@),
{
    has(s, "@@HOMEBREW_CELLAR@@") || has(s, "@@HOMEBREW_PREFIX@@")
}

/// The search path to set in an ELF file whose search path was printed as `rpath`,
/// or nothing when it holds no placeholder.
pub open spec fn elf_rpath(rpath: Seq<char>, prefix: Seq<char>, cellar: Seq<char>) -> Option<
    Seq<char>,
> {
    let new = resolved_rpath(rpath, prefix, cellar);
    if new != rpath {
        Some(text::trim(new))
    } else {
        None
    }
}

/// The search path to set in an ELF file, from what `patchelf --print-rpath` printed.
pub fn relocate_elf(stdout: &[u8], prefix: &str, cellar: &str) -> (r: Option<String>)
    ensures
        text::opt_view(r) == elf_rpath(outside::lossy(stdout@), prefix@, cellar@),
{
    let rpath = lossy_text(stdout);
    new_elf_rpath(rpath.as_str(), prefix, cellar)
}

/// The search path to set in an ELF file whose search path is `rpath`.
pub fn new_elf_rpath(rpath: &str, prefix: &str, cellar: &str) -> (r: Option<String>)
    ensures
        text::opt_view(r) == elf_rpath(rpath@, prefix@, cellar@),
{
    let c = chars_of(rpath);
    proof {
        reveal_strlit("@@HOMEBREW_PREFIX@@");
        reveal_strlit("@@HOMEBREW_CELLAR@@");
    }
    let once = replace_mark(c.as_slice(), "@@HOMEBREW_PREFIX@@", prefix);
    let new = replace_mark(once.as_slice(), "@@HOMEBREW_CELLAR@@", cellar);
    if same(new.as_slice(), c.as_slice()) {
        None
    } else {
        Some(string_of(trimmed(new.as_slice())))
    }
}

/// The interpreter of ELF files under `prefix`.
pub fn elf_interpreter(prefix: &str) -> (r: String)
    ensures
        r@ == prefix@ + "/lib/ld.so"@,
{
    let mut p = String::from_str(prefix);
    p.append("/lib/ld.so");
    p
}

/// The install name to set in a Mach-O file: the second line of what `otool -D`
/// printed, if it holds a placeholder.
pub open spec fn macho_id(text: Seq<char>, prefix: Seq<char>, cellar: Seq<char>) -> Option<
    Seq<char>,
> {
    let l = text::lines(text);
    if l.len() > 1 && resolved(text::trim(l[1]), prefix, cellar) != text::trim(l[1]) {
        Some(resolved(text::trim(l[1]), prefix, cellar))
    } else {
        None
    }
}

/// The library that a line of `otool -L` names, if it holds a placeholder.
pub open spec fn macho_library(raw: Seq<char>) -> Option<Seq<char>> {
    let line = text::trim(raw);
    if text::contains(line, " ("@) && has_mark(line.take(text::position(line, " ("@))) {
        Some(line.take(text::position(line, " ("@)))
    } else {
        None
    }
}

/// The libraries of a Mach-O file that are to be changed, each with its new path.
pub open spec fn library_changes(l: Seq<Seq<char>>, prefix: Seq<char>, cellar: Seq<char>) -> Seq<
    (Seq<char>, Seq<char>),
>
    decreases l.len(),
{
    if l.len() == 0 {
        Seq::empty()
    } else {
        let before = library_changes(l.drop_last(), prefix, cellar);
        match macho_library(l.last()) {
            Some(lib) => before.push((lib, resolved(lib, prefix, cellar))),
            None => before,
        }
    }
}

/// What has been read of the load commands of a Mach-O file.
pub struct LoadCommands {
    pub in_rpath: bool,
    pub changes: Seq<(Seq<char>, Seq<char>)>,
}

/// The search path in a line `path <value> (offset N)`; one that is missing
/// counts as empty.
pub open spec fn rpath_value(line: Seq<char>) -> Seq<char> {
    if text::contains(line, " (offset"@) {
        if text::position(line, " (offset"@) >= 5 {
            line.subrange(5, text::position(line, " (offset"@))
        } else {
            Seq::empty()
        }
    } else {
        line.skip(5)
    }
}

/// Each `LC_RPATH` command has one path; it is to be changed if it holds a placeholder.
pub open spec fn on_command(s: LoadCommands, raw: Seq<char>, prefix: Seq<char>, cellar: Seq<char>) -> LoadCommands {
    let line = text::trim(raw);
    if text::starts_with(line, "cmd LC_RPATH"@) {
        LoadCommands { in_rpath: true, ..s }
    } else {
        let in_rpath = s.in_rpath && !text::starts_with(line, "cmd "@);
        if in_rpath && text::starts_with(line, "path "@) {
            let rpath = rpath_value(line);
            LoadCommands {
                in_rpath: false,
                changes: if has_mark(rpath) {
                    s.changes.push((rpath, resolved(rpath, prefix, cellar)))
                } else {
                    s.changes
                },
            }
        } else {
            LoadCommands { in_rpath, ..s }
        }
    }
}

pub open spec fn on_commands(l: Seq<Seq<char>>, prefix: Seq<char>, cellar: Seq<char>) -> LoadCommands
    decreases l.len(),
{
    if l.len() == 0 {
        LoadCommands { in_rpath: false, changes: Seq::empty() }
    } else {
        on_command(on_commands(l.drop_last(), prefix, cellar), l.last(), prefix, cellar)
    }
}

/// The old and the new value of each change.
pub open spec fn change_views(v: Seq<(String, String)>) -> Seq<(Seq<char>, Seq<char>)> {
    Seq::new(v.len(), |i: int| (v[i].0@, v[i].1@))
}

/// The install name to set in a Mach-O file, from what `otool -D` printed.
pub fn macho_install_name(stdout: &[u8], prefix: &str, cellar: &str) -> (r: Option<String>)
    ensures
        text::opt_view(r) == macho_id(outside::lossy(stdout@), prefix@, cellar@),
{
    new_install_name(lossy_text(stdout).as_str(), prefix, cellar)
}

/// The install name to set in a Mach-O file, from the text that `otool -D` printed.
pub fn new_install_name(text: &str, prefix: &str, cellar: &str) -> (r: Option<String>)
    ensures
        text::opt_view(r) == macho_id(text@, prefix@, cellar@),
{
    let c = chars_of(text);
    let l = lines_of(c.as_slice());
    proof {
        assert(text::slices(l@).len() == l@.len());
    }
    if l.len() < 2 {
        return None;
    }
    proof {
        assert(text::slices(l@)[1] == l@[1]@);
    }
    let name = trimmed(l[1]);
    let new = resolve_marks(name, prefix, cellar);
    if same(new.as_slice(), name) {
        None
    } else {
        Some(string_of(new.as_slice()))
    }
}

/// The libraries to change in a Mach-O file, from what `otool -L` printed below
/// its heading.
pub fn macho_libraries(stdout: &[u8], prefix: &str, cellar: &str) -> (r: Vec<(String, String)>)
    ensures
        change_views(r@) == {
            let l = text::lines(outside::lossy(stdout@));
            if l.len() == 0 {
                Seq::empty()
            } else {
                library_changes(l.skip(1), prefix@, cellar@)
            }
        },
{
    changed_libraries(lossy_text(stdout).as_str(), prefix, cellar)
}

/// The libraries to change in a Mach-O file, from the text that `otool -L` printed.
pub fn changed_libraries(text: &str, prefix: &str, cellar: &str) -> (r: Vec<(String, String)>)
    ensures
        change_views(r@) == {
            let l = text::lines(text@);
            if l.len() == 0 {
                Seq::empty()
            } else {
                library_changes(l.skip(1), prefix@, cellar@)
            }
        },
{
    let c = chars_of(text);
    let l = lines_of(c.as_slice());
    let ghost all = text::slices(l@);
    let mut out: Vec<(String, String)> = Vec::new();
    proof {
        assert(change_views(out@) =~= Seq::<(Seq<char>, Seq<char>)>::empty());
    }
    if l.len() == 0 {
        return out;
    }
    let ghost s = all.skip(1);
    let open = chars_of(" (");
    for i in 1..l.len()
        invariant
            all == text::slices(l@),
            s == all.skip(1),
            open@ == " ("@,
            change_views(out@) == library_changes(s.take(i - 1), prefix@, cellar@),
    {
        let ghost before = change_views(out@);
        proof {
            assert(s.take(i as int).drop_last() =~= s.take(i - 1));
            assert(s.take(i as int).last() == l@[i as int]@);
        }
        let line = trimmed(l[i]);
        match find(line, open.as_slice()) {
            Some(end) => {
                proof {
                    text::position_is(line@, " ("@, end as int);
                }
                let lib = part(line, 0, end);
                proof {
                    assert(lib@ =~= line@.take(end as int));
                }
                if has_marks(lib) {
                    let new = resolve_marks(lib, prefix, cellar);
                    out.push((string_of(lib), string_of(new.as_slice())));
                    proof {
                        assert(change_views(out@) =~= before.push(
                            (lib@, resolved(lib@, prefix@, cellar@)),
                        ));
                    }
                }
            },
            None => {},
        }
    }
    proof {
        assert(s.take(s.len() as int) =~= s);
    }
    out
}

fn rpath_in(line: &[char]) -> (r: &[char])
    requires
        text::starts_with(line@, "path "@),
    ensures
        r@ == rpath_value(line@),
{
    proof {
        reveal_strlit("path ");
        assert("path "@.len() == 5);
    }
    let offset = chars_of(" (offset");
    let n: usize = line.len();
    match find(line, offset.as_slice()) {
        Some(end) => {
            proof {
                text::position_is(line@, " (offset"@, end as int);
            }
            if end >= 5 {
                part(line, 5, end)
            } else {
                let r = part(line, 5, 5);
                proof {
                    assert(r@ =~= Seq::<char>::empty());
                }
                r
            }
        },
        None => {
            let r = part(line, 5, n);
            proof {
                assert(r@ =~= line@.skip(5));
            }
            r
        },
    }
}

/// The search paths to change in a Mach-O file, from what `otool -l` printed.
pub fn macho_rpaths(stdout: &[u8], prefix: &str, cellar: &str) -> (r: Vec<(String, String)>)
    ensures
        change_views(r@) == on_commands(text::lines(outside::lossy(stdout@)), prefix@, cellar@).changes,
{
    changed_rpaths(lossy_text(stdout).as_str(), prefix, cellar)
}

/// The search paths to change in a Mach-O file, from the text that `otool -l` printed.
pub fn changed_rpaths(text: &str, prefix: &str, cellar: &str) -> (r: Vec<(String, String)>)
    ensures
        change_views(r@) == on_commands(text::lines(text@), prefix@, cellar@).changes,
{
    let c = chars_of(text);
    let l = lines_of(c.as_slice());
    let ghost s = text::slices(l@);
    let mut out: Vec<(String, String)> = Vec::new();
    let mut in_rpath: bool = false;
    proof {
        assert(change_views(out@) =~= Seq::<(Seq<char>, Seq<char>)>::empty());
    }
    for i in 0..l.len()
        invariant
            s == text::slices(l@),
            on_commands(s.take(i as int), prefix@, cellar@) == (LoadCommands {
                in_rpath,
                changes: change_views(out@),
            }),
    {
        let ghost before = change_views(out@);
        proof {
            assert(s.take(i + 1).drop_last() =~= s.take(i as int));
            assert(s.take(i + 1).last() == l@[i as int]@);
        }
        let line = trimmed(l[i]);
        if begins(line, "cmd LC_RPATH") {
            in_rpath = true;
        } else {
            if begins(line, "cmd ") {
                in_rpath = false;
            }
            if in_rpath && begins(line, "path ") {
                let rpath = rpath_in(line);
                if has_marks(rpath) {
                    let new = resolve_marks(rpath, prefix, cellar);
                    out.push((string_of(rpath), string_of(new.as_slice())));
                    proof {
                        assert(change_views(out@) =~= before.push(
                            (rpath@, resolved(rpath@, prefix@, cellar@)),
                        ));
                    }
                }
                in_rpath = false;
            }
        }
    }
    proof {
        assert(s.take(s.len() as int) =~= s);
    }
    out
}

/// A library of a Mach-O file that is to be changed holds a placeholder, and is
/// changed to what the placeholders stand for.
pub proof fn only_marked_libraries_change(
    l: Seq<Seq<char>>,
    prefix: Seq<char>,
    cellar: Seq<char>,
    i: int,
)
    requires
        0 <= i < library_changes(l, prefix, cellar).len(),
    ensures
        has_mark(library_changes(l, prefix, cellar)[i].0),
        library_changes(l, prefix, cellar)[i].1 == resolved(
            library_changes(l, prefix, cellar)[i].0,
            prefix,
            cellar,
        ),
    decreases l.len(),
{
    if l.len() > 0 {
        let before = library_changes(l.drop_last(), prefix, cellar);
        if i < before.len() {
            only_marked_libraries_change(l.drop_last(), prefix, cellar, i);
            assert(library_changes(l, prefix, cellar)[i] == before[i]);
        }
    }
}

/// A search path of a Mach-O file that is to be changed holds a placeholder, and is
/// changed to what the placeholders stand for.
pub proof fn only_marked_rpaths_change(
    l: Seq<Seq<char>>,
    prefix: Seq<char>,
    cellar: Seq<char>,
    i: int,
)
    requires
        0 <= i < on_commands(l, prefix, cellar).changes.len(),
    ensures
        has_mark(on_commands(l, prefix, cellar).changes[i].0),
        on_commands(l, prefix, cellar).changes[i].1 == resolved(
            on_commands(l, prefix, cellar).changes[i].0,
            prefix,
            cellar,
        ),
    decreases l.len(),
{
    if l.len() > 0 {
        let before = on_commands(l.drop_last(), prefix, cellar).changes;
        if i < before.len() {
            only_marked_rpaths_change(l.drop_last(), prefix, cellar, i);
            assert(on_commands(l, prefix, cellar).changes[i] == before[i]);
        }
    }
}

/// A Mach-O file is signed anew after a change of its own name was asked for, or
/// a change of a library or a search path was made.
pub fn needs_signature(renamed: bool, changed: usize) -> (r: bool)
    ensures
        r == (renamed || changed > 0),
{
    renamed || changed > 0
}

// ---------------------------------------------------------------------------
// The platform

/// What a command printed, stripped of white space: it has to have succeeded and
/// printed UTF-8.
pub open spec fn command_text(success: bool, stdout: Seq<u8>) -> Option<Seq<char>> {
    if success && valid_utf8(stdout) {
        Some(text::trim(decode_utf8(stdout)))
    } else {
        None
    }
}

/// What a command printed that ended in time; `None` stands for one that did not
/// run or did not end.
pub fn command_output(ended: Option<(bool, Vec<u8>)>) -> (r: Option<String>)
    ensures
        text::opt_view(r) == match ended {
            Some((success, stdout)) => command_text(success, stdout@),
            None => None,
        },
{
    match ended {
        Some((success, stdout)) => if success {
            match utf8_text(stdout.as_slice()) {
                Ok(t) => {
                    let c = chars_of(t.as_str());
                    Some(string_of(trimmed(c.as_slice())))
                },
                Err(_) => None,
            }
        } else {
            None
        },
        None => None,
    }
}

/// The major version of macOS, or 14 when it cannot be told.
pub open spec fn major_version(product_version: Option<Seq<char>>) -> Seq<char> {
    match product_version {
        Some(v) => text::split(v, '.')[0],
        None => "14"@,
    }
}

/// The major version of macOS from what `sw_vers -productVersion` printed.
pub fn macos_version(product_version: Option<String>) -> (r: String)
    ensures
        r@ == major_version(text::opt_view(product_version)),
{
    match product_version {
        Some(v) => {
            let c = chars_of(v.as_str());
            let p = pieces(c.as_slice(), '.');
            proof {
                assert(text::slices(p@)[0] == p@[0]@);
            }
            string_of(p[0])
        },
        None => String::from_str("14"),
    }
}

/// What Homebrew calls a version of macOS.
pub open spec fn macos_name(version: Seq<char>) -> Seq<char> {
    if version == "26"@ || version == "16"@ {
        "tahoe"@
    } else if version == "15"@ {
        "sequoia"@
    } else if version == "14"@ {
        "sonoma"@
    } else if version == "13"@ {
        "ventura"@
    } else if version == "12"@ {
        "monterey"@
    } else {
        match text::parse_number(version, u32::MAX as nat) {
            Some(major) => if major > 26 {
                "tahoe"@
            } else {
                "sequoia"@
            },
            None => "sequoia"@,
        }
    }
}

/// What Homebrew calls a platform.
pub open spec fn platform_of(os: Seq<char>, arch: Seq<char>, macos_version: Seq<char>) -> Seq<char> {
    if os == "macos"@ && arch == "aarch64"@ {
        "arm64_"@ + macos_name(macos_version)
    } else if os == "macos"@ && arch == "x86_64"@ {
        macos_name(macos_version)
    } else if os == "linux"@ && arch == "x86_64"@ {
        "x86_64_linux"@
    } else if os == "linux"@ && arch == "aarch64"@ {
        "arm64_linux"@
    } else if os == "linux"@ && arch == "arm"@ {
        "arm64_linux"@
    } else {
        "unknown"@
    }
}

fn macos_label(version: &str) -> (r: &'static str)
    ensures
        r@ == macos_name(version@),
{
    if same_str(version, "26") || same_str(version, "16") {
        "tahoe"
    } else if same_str(version, "15") {
        "sequoia"
    } else if same_str(version, "14") {
        "sonoma"
    } else if same_str(version, "13") {
        "ventura"
    } else if same_str(version, "12") {
        "monterey"
    } else {
        match parsed_u64(chars_of(version).as_slice(), u32::MAX as u64) {
            Some(major) => if major > 26 {
                "tahoe"
            } else {
                "sequoia"
            },
            None => "sequoia",
        }
    }
}

/// The platform whose bottles fit a machine.
pub fn detect_platform(os: &str, arch: &str, macos_version: &str) -> (r: String)
    ensures
        r@ == platform_of(os@, arch@, macos_version@),
{
    if same_str(os, "macos") && same_str(arch, "aarch64") {
        let mut p = String::from_str("arm64_");
        p.append(macos_label(macos_version));
        p
    } else if same_str(os, "macos") && same_str(arch, "x86_64") {
        String::from_str(macos_label(macos_version))
    } else if same_str(os, "linux") && same_str(arch, "x86_64") {
        String::from_str("x86_64_linux")
    } else if same_str(os, "linux") && same_str(arch, "aarch64") {
        String::from_str("arm64_linux")
    } else if same_str(os, "linux") && same_str(arch, "arm") {
        String::from_str("arm64_linux")
    } else {
        String::from_str("unknown")
    }
}

/// Where Homebrew lives by default.
pub open spec fn standard_prefix(os: Seq<char>, arch: Seq<char>, linuxbrew: bool) -> Seq<char> {
    if os == "macos"@ && arch == "aarch64"@ {
        "/opt/homebrew"@
    } else if os == "linux"@ && linuxbrew {
        "/home/linuxbrew/.linuxbrew"@
    } else {
        "/usr/local"@
    }
}

/// Where Homebrew lives: where `brew --prefix` says, if packages lie there, or
/// else in the standard place. `linuxbrew` tells whether packages lie in
/// Linuxbrew's home; `brew` holds what `brew --prefix` said and whether packages
/// lie there.
pub fn homebrew_prefix(os: &str, arch: &str, linuxbrew: bool, brew: Option<(String, bool)>) -> (r: String)
    ensures
        r@ == match brew {
            Some((prefix, true)) => prefix@,
            _ => standard_prefix(os@, arch@, linuxbrew),
        },
{
    match brew {
        Some((prefix, there)) => if there {
            return prefix;
        },
        None => {},
    }
    if same_str(os, "macos") && same_str(arch, "aarch64") {
        String::from_str("/opt/homebrew")
    } else if same_str(os, "linux") && linuxbrew {
        String::from_str("/home/linuxbrew/.linuxbrew")
    } else {
        String::from_str("/usr/local")
    }
}

/// Where `patchelf` is looked for, in this order.
pub fn patchelf_candidates() -> (r: Vec<String>)
    ensures
        text::views(r@) == seq![
            "/home/linuxbrew/.linuxbrew/bin/patchelf"@,
            "/usr/bin/patchelf"@,
            "/usr/local/bin/patchelf"@,
            "patchelf"@,
        ],
{
    let mut v: Vec<String> = Vec::new();
    v.push(String::from_str("/home/linuxbrew/.linuxbrew/bin/patchelf"));
    v.push(String::from_str("/usr/bin/patchelf"));
    v.push(String::from_str("/usr/local/bin/patchelf"));
    v.push(String::from_str("patchelf"));
    proof {
        assert(text::views(v@) =~= seq![
            "/home/linuxbrew/.linuxbrew/bin/patchelf"@,
            "/usr/bin/patchelf"@,
            "/usr/local/bin/patchelf"@,
            "patchelf"@,
        ]);
    }
    v
}

// ---------------------------------------------------------------------------
// Laws

/// A placeholder stands for a directory: the one that a text holds is replaced by
/// it, and nothing else of the text changes.
pub proof fn placeholders_are_resolved(
    a: Seq<char>,
    b: Seq<char>,
    prefix: Seq<char>,
    cellar: Seq<char>,
)
    ensures
        ({
            let s = a + "@@HOMEBREW_PREFIX@@"@ + b;
            text::first_at(s, "@@HOMEBREW_PREFIX@@"@, a.len() as int) && !text::contains(
                b,
                "@@HOMEBREW_PREFIX@@"@,
            ) && !text::contains(s, "@@HOMEBREW_CELLAR@@"@) ==> resolved(s, prefix, cellar) == a
                + prefix + b && (!text::contains(a + prefix + b, "@@HOMEBREW_CELLAR@@"@)
                ==> resolved_rpath(s, prefix, cellar) == a + prefix + b)
        }),
        ({
            let s = a + "@@HOMEBREW_CELLAR@@"@ + b;
            text::first_at(s, "@@HOMEBREW_CELLAR@@"@, a.len() as int) && !text::contains(
                b,
                "@@HOMEBREW_CELLAR@@"@,
            ) && !text::contains(s, "@@HOMEBREW_PREFIX@@"@) ==> resolved_rpath(s, prefix, cellar)
                == a + cellar + b && (!text::contains(a + cellar + b, "@@HOMEBREW_PREFIX@@"@)
                ==> resolved(s, prefix, cellar) == a + cellar + b)
        }),
        !text::contains(a, "@@HOMEBREW_PREFIX@@"@) && !text::contains(a, "@@HOMEBREW_CELLAR@@"@)
            ==> resolved(a, prefix, cellar) == a && resolved_rpath(a, prefix, cellar) == a,
{
    reveal_strlit("@@HOMEBREW_PREFIX@@");
    reveal_strlit("@@HOMEBREW_CELLAR@@");
    let p = "@@HOMEBREW_PREFIX@@"@;
    let c = "@@HOMEBREW_CELLAR@@"@;
    let s = a + p + b;
    if text::first_at(s, p, a.len() as int) && !text::contains(b, p) && !text::contains(s, c) {
        text::replacing_nothing(s, c, cellar);
        text::replacing_the_first(a, p, b, prefix);
        text::replacing_nothing(b, p, prefix);
        if !text::contains(a + prefix + b, c) {
            text::replacing_nothing(a + prefix + b, c, cellar);
        }
    }
    let t = a + c + b;
    if text::first_at(t, c, a.len() as int) && !text::contains(b, c) && !text::contains(t, p) {
        text::replacing_nothing(t, p, prefix);
        text::replacing_the_first(a, c, b, cellar);
        text::replacing_nothing(b, c, cellar);
        if !text::contains(a + cellar + b, p) {
            text::replacing_nothing(a + cellar + b, p, prefix);
        }
    }
    if !text::contains(a, p) && !text::contains(a, c) {
        text::replacing_nothing(a, c, cellar);
        text::replacing_nothing(a, p, prefix);
    }
}

proof fn library_of_line_changes(
    l: Seq<Seq<char>>,
    prefix: Seq<char>,
    cellar: Seq<char>,
    k: int,
    lib: Seq<char>,
    rest: Seq<char>,
)
    requires
        0 <= k < l.len(),
        text::trim(l[k]) == lib + " ("@ + rest,
        !text::contains(lib, " ("@),
        text::contains(lib, "@@HOMEBREW_CELLAR@@"@) || text::contains(lib, "@@HOMEBREW_PREFIX@@"@),
    ensures
        library_changes(l, prefix, cellar).contains((lib, resolved(lib, prefix, cellar))),
    decreases l.len(),
{
    let before = library_changes(l.drop_last(), prefix, cellar);
    let now = library_changes(l, prefix, cellar);
    let new = (lib, resolved(lib, prefix, cellar));
    if k < l.len() - 1 {
        assert(l.drop_last()[k] == l[k]);
        library_of_line_changes(l.drop_last(), prefix, cellar, k, lib, rest);
        let i = choose|i: int| 0 <= i < before.len() && before[i] == new;
        assert(now[i] == before[i]);
    } else {
        reveal_strlit(" (");
        let s = lib + " ("@ + rest;
        assert forall|j: int| 0 <= j < lib.len() implies !text::occurs_at(s, " ("@, j) by {
            if text::occurs_at(s, " ("@, j) {
                let found = s.subrange(j, j + 2);
                assert(found[0] == s[j] && found[1] == s[j + 1]);
                if j + 1 < lib.len() {
                    assert(lib.subrange(j, j + 2) =~= " ("@);
                    assert(text::occurs_at(lib, " ("@, j));
                } else {
                    assert(s[j + 1] == " ("@[0]);
                }
            }
        }
        text::position_of_first(lib, " ("@, rest);
        assert(now[before.len() as int] == new);
    }
}

/// Every library of a Mach-O file that is given with a placeholder is changed: each
/// line below the heading names one, before the first " (".
pub proof fn marked_libraries_change(
    l: Seq<Seq<char>>,
    prefix: Seq<char>,
    cellar: Seq<char>,
    k: int,
    lib: Seq<char>,
    rest: Seq<char>,
)
    requires
        1 <= k < l.len(),
        text::trim(l[k]) == lib + " ("@ + rest,
        !text::contains(lib, " ("@),
        text::contains(lib, "@@HOMEBREW_CELLAR@@"@) || text::contains(lib, "@@HOMEBREW_PREFIX@@"@),
    ensures
        library_changes(l.skip(1), prefix, cellar).contains((lib, resolved(lib, prefix, cellar))),
{
    assert(l.skip(1)[k - 1] == l[k]);
    library_of_line_changes(l.skip(1), prefix, cellar, k - 1, lib, rest);
}

/// Every change of a library is asked for by a line that names it before a " (",
/// with a placeholder.
pub proof fn changed_libraries_are_named(
    l: Seq<Seq<char>>,
    prefix: Seq<char>,
    cellar: Seq<char>,
    i: int,
)
    requires
        0 <= i < library_changes(l, prefix, cellar).len(),
    ensures
        text::contains(library_changes(l, prefix, cellar)[i].0, "@@HOMEBREW_CELLAR@@"@)
            || text::contains(library_changes(l, prefix, cellar)[i].0, "@@HOMEBREW_PREFIX@@"@),
        exists|k: int|
            0 <= k < l.len() && text::starts_with(
                #[trigger] text::trim(l[k]),
                library_changes(l, prefix, cellar)[i].0 + " ("@,
            ),
    decreases l.len(),
{
    let before = library_changes(l.drop_last(), prefix, cellar);
    let now = library_changes(l, prefix, cellar);
    if i < before.len() {
        changed_libraries_are_named(l.drop_last(), prefix, cellar, i);
        assert(now[i] == before[i]);
        let k = choose|k: int|
            0 <= k < l.drop_last().len() && text::starts_with(
                #[trigger] text::trim(l.drop_last()[k]),
                before[i].0 + " ("@,
            );
        assert(text::starts_with(text::trim(l[k]), now[i].0 + " ("@));
    } else {
        let line = text::trim(l.last());
        let at = choose|j: int| text::occurs_at(line, " ("@, j);
        assert(exists|j: int| text::first_at(line, " ("@, j)) by {
            first_occurrence(line, " ("@, at);
        }
        let p = text::position(line, " ("@);
        assert(text::first_at(line, " ("@, p));
        assert(line.subrange(0, p + " ("@.len()) =~= line.take(p) + " ("@);
        assert(text::starts_with(text::trim(l[l.len() - 1]), now[i].0 + " ("@));
    }
}

/// Where a text occurs, it occurs a first time.
proof fn first_occurrence(s: Seq<char>, p: Seq<char>, i: int)
    requires
        text::occurs_at(s, p, i),
    ensures
        exists|j: int| text::first_at(s, p, j),
    decreases i,
{
    if forall|j: int| 0 <= j < i ==> !text::occurs_at(s, p, j) {
        assert(text::first_at(s, p, i));
    } else {
        let j = choose|j: int| 0 <= j < i && text::occurs_at(s, p, j);
        first_occurrence(s, p, j);
    }
}

/// The name of a Mach-O file stands in the second line. It is changed where it holds
/// a placeholder that stands for something else, and otherwise stays.
pub proof fn install_name_is_resolved(s: Seq<char>, prefix: Seq<char>, cellar: Seq<char>)
    ensures
        text::lines(s).len() < 2 ==> macho_id(s, prefix, cellar) is None,
        text::lines(s).len() >= 2 ==> ({
            let name = text::trim(text::lines(s)[1]);
            &&& !text::contains(name, "@@HOMEBREW_PREFIX@@"@) && !text::contains(
                name,
                "@@HOMEBREW_CELLAR@@"@,
            ) ==> macho_id(s, prefix, cellar) is None
            &&& resolved(name, prefix, cellar) != name ==> macho_id(s, prefix, cellar) == Some(
                resolved(name, prefix, cellar),
            )
        }),
{
    if text::lines(s).len() >= 2 {
        let name = text::trim(text::lines(s)[1]);
        placeholders_are_resolved(name, name, prefix, cellar);
    }
}

/// No line between two lines begins a load command, or gives a path.
pub open spec fn is_between(l: Seq<Seq<char>>, j: int, k: int) -> bool {
    forall|i: int|
        j < i < k ==> !text::starts_with(text::trim(#[trigger] l[i]), "cmd "@)
            && !text::starts_with(text::trim(l[i]), "path "@)
}

proof fn command_is_open(l: Seq<Seq<char>>, prefix: Seq<char>, cellar: Seq<char>, j: int)
    requires
        0 <= j < l.len(),
        text::starts_with(text::trim(l[j]), "cmd LC_RPATH"@),
        is_between(l, j, l.len() as int),
    ensures
        on_commands(l, prefix, cellar).in_rpath,
    decreases l.len(),
{
    if j < l.len() - 1 {
        let before = l.drop_last();
        assert(before[j] == l[j]);
        assert forall|i: int| j < i < before.len() implies !text::starts_with(
            text::trim(#[trigger] before[i]),
            "cmd "@,
        ) && !text::starts_with(text::trim(before[i]), "path "@) by {
            assert(before[i] == l[i]);
        }
        command_is_open(before, prefix, cellar, j);
        let last = text::trim(l[l.len() - 1]);
        assert(!text::starts_with(last, "cmd "@));
        if text::starts_with(last, "cmd LC_RPATH"@) {
            reveal_strlit("cmd LC_RPATH");
            reveal_strlit("cmd ");
            assert(last.subrange(0, 4) =~= last.subrange(0, 12).subrange(0, 4));
            assert("cmd LC_RPATH"@.subrange(0, 4) =~= "cmd "@);
            assert(text::occurs_at(last, "cmd "@, 0));
        }
    }
}

proof fn changes_of_commands_stay(l: Seq<Seq<char>>, n: int, prefix: Seq<char>, cellar: Seq<char>)
    requires
        0 <= n <= l.len(),
    ensures
        on_commands(l.take(n), prefix, cellar).changes.is_prefix_of(
            on_commands(l, prefix, cellar).changes,
        ),
    decreases l.len(),
{
    if n == l.len() {
        assert(l.take(n) =~= l);
    } else {
        assert(l.drop_last().take(n) =~= l.take(n));
        changes_of_commands_stay(l.drop_last(), n, prefix, cellar);
    }
}

/// Every search path of a Mach-O file that is given with a placeholder is changed:
/// one stands behind "path ", before " (offset", in a command LC_RPATH.
pub proof fn marked_rpaths_change(
    l: Seq<Seq<char>>,
    prefix: Seq<char>,
    cellar: Seq<char>,
    j: int,
    k: int,
    rpath: Seq<char>,
    rest: Seq<char>,
)
    requires
        0 <= j < k < l.len(),
        text::starts_with(text::trim(l[j]), "cmd LC_RPATH"@),
        is_between(l, j, k),
        text::trim(l[k]) == "path "@ + rpath + " (offset"@ + rest,
        !text::contains("path "@ + rpath, " (offset"@),
        text::contains(rpath, "@@HOMEBREW_CELLAR@@"@) || text::contains(
            rpath,
            "@@HOMEBREW_PREFIX@@"@,
        ),
    ensures
        on_commands(l, prefix, cellar).changes.contains(
            (rpath, resolved(rpath, prefix, cellar)),
        ),
{
    reveal_strlit("path ");
    reveal_strlit(" (offset");
    reveal_strlit("cmd LC_RPATH");
    reveal_strlit("cmd ");
    let before = l.take(k);
    assert(before[j] == l[j]);
    assert forall|i: int| j < i < before.len() implies !text::starts_with(
        text::trim(#[trigger] before[i]),
        "cmd "@,
    ) && !text::starts_with(text::trim(before[i]), "path "@) by {
        assert(before[i] == l[i]);
    }
    command_is_open(before, prefix, cellar, j);
    let all = l.take(k + 1);
    assert(all.drop_last() =~= before);
    assert(all.last() == l[k]);
    let line = text::trim(l[k]);
    let a = "path "@ + rpath;
    let off = " (offset"@;
    assert(line[0] == 'p');
    assert(line.subrange(0, 5) =~= "path "@);
    assert(text::starts_with(line, "path "@));
    assert(!text::starts_with(line, "cmd "@)) by {
        if text::starts_with(line, "cmd "@) {
            assert(line.subrange(0, 4)[0] == line[0]);
        }
    }
    assert(!text::starts_with(line, "cmd LC_RPATH"@)) by {
        if text::starts_with(line, "cmd LC_RPATH"@) {
            assert(line.subrange(0, 12)[0] == line[0]);
        }
    }
    assert(line =~= a + off + rest);
    assert forall|i: int| 0 <= i < a.len() implies !text::occurs_at(line, off, i) by {
        if text::occurs_at(line, off, i) {
            let found = line.subrange(i, i + 8);
            assert(forall|n: int| 0 <= n < 8 ==> #[trigger] found[n] == line[i + n]);
            if i + 8 <= a.len() {
                assert(a.subrange(i, i + 8) =~= off);
                assert(text::occurs_at(a, off, i));
            } else {
                let n = a.len() - i;
                assert(found[n] == line[a.len() as int]);
                assert(line[a.len() as int] == off[0]);
                assert(off[0] == ' ');
                assert(off[n] != ' ');
            }
        }
    }
    text::position_of_first(a, off, rest);
    assert(line.subrange(5, a.len() as int) =~= rpath);
    let now = on_commands(all, prefix, cellar).changes;
    let new = (rpath, resolved(rpath, prefix, cellar));
    assert(now == on_commands(before, prefix, cellar).changes.push(new));
    let at = now.len() - 1;
    assert(now[at] == new);
    changes_of_commands_stay(l, k + 1, prefix, cellar);
    assert(on_commands(l, prefix, cellar).changes[at] == now[at]);
}

/// Every change of a search path is asked for by a line that begins with "path ",
/// with a placeholder in it, in a command LC_RPATH.
pub proof fn changed_rpaths_are_named(
    l: Seq<Seq<char>>,
    prefix: Seq<char>,
    cellar: Seq<char>,
    i: int,
)
    requires
        0 <= i < on_commands(l, prefix, cellar).changes.len(),
    ensures
        text::contains(on_commands(l, prefix, cellar).changes[i].0, "@@HOMEBREW_CELLAR@@"@)
            || text::contains(on_commands(l, prefix, cellar).changes[i].0, "@@HOMEBREW_PREFIX@@"@),
        exists|k: int|
            0 <= k < l.len() && text::starts_with(#[trigger] text::trim(l[k]), "path "@),
    decreases l.len(),
{
    let before = on_commands(l.drop_last(), prefix, cellar).changes;
    if i < before.len() {
        changed_rpaths_are_named(l.drop_last(), prefix, cellar, i);
        assert(on_commands(l, prefix, cellar).changes[i] == before[i]);
        let k = choose|k: int|
            0 <= k < l.drop_last().len() && text::starts_with(
                #[trigger] text::trim(l.drop_last()[k]),
                "path "@,
            );
        assert(text::starts_with(text::trim(l[k]), "path "@));
    } else {
        assert(text::starts_with(text::trim(l[l.len() - 1]), "path "@));
    }
}

/// The search path of an ELF file is changed exactly where it holds a placeholder
/// that stands for something else, and then to that, without white space around it.
pub proof fn elf_rpath_is_resolved(rpath: Seq<char>, prefix: Seq<char>, cellar: Seq<char>)
    ensures
        !text::contains(rpath, "@@HOMEBREW_PREFIX@@"@) && !text::contains(
            rpath,
            "@@HOMEBREW_CELLAR@@"@,
        ) ==> elf_rpath(rpath, prefix, cellar) is None,
        resolved_rpath(rpath, prefix, cellar) != rpath ==> elf_rpath(rpath, prefix, cellar) == Some(
            text::trim(resolved_rpath(rpath, prefix, cellar)),
        ),
{
    placeholders_are_resolved(rpath, rpath, prefix, cellar);
}

proof fn overwriting_the_first(a: Seq<u8>, p: Seq<u8>, b: Seq<u8>, r: Seq<u8>)
    requires
        p.len() > 0,
        forall|j: int| 0 <= j < a.len() ==> !bytes_at(a + p + b, p, j),
    ensures
        overwritten(a + p + b, p, r) == a + padded(r, p.len()) + overwritten(b, p, r),
    decreases a.len(),
{
    let s = a + p + b;
    assert(s.subrange(a.len() as int, (a.len() + p.len()) as int) =~= p);
    if a.len() == 0 {
        assert(s.skip(p.len() as int) =~= b);
        assert(bytes_at(s, p, 0));
        assert(a + padded(r, p.len()) + overwritten(b, p, r) =~= padded(r, p.len()) + overwritten(
            b,
            p,
            r,
        ));
    } else {
        assert(!bytes_at(s, p, 0));
        let rest = a.skip(1) + p + b;
        assert(s.skip(1) =~= rest);
        assert forall|j: int| 0 <= j < a.len() - 1 implies !bytes_at(rest, p, j) by {
            if bytes_at(rest, p, j) {
                assert(rest.subrange(j, j + p.len()) =~= s.subrange(j + 1, j + 1 + p.len()));
                assert(bytes_at(s, p, j + 1));
            }
        }
        overwriting_the_first(a.skip(1), p, b, r);
        assert(seq![a[0]] + (a.skip(1) + padded(r, p.len()) + overwritten(b, p, r)) =~= a + padded(
            r,
            p.len(),
        ) + overwritten(b, p, r));
    }
}

/// A placeholder in a plain file is replaced by what it stands for and zero bytes up
/// to its length, and the bytes around it stay; one that is too short for what it
/// stands for stays too.
pub proof fn placeholders_are_patched(
    a: Seq<u8>,
    mark: Seq<u8>,
    b: Seq<u8>,
    by: Seq<u8>,
)
    requires
        mark.len() > 0,
        forall|j: int| 0 <= j < a.len() ==> !bytes_at(a + mark + b, mark, j),
        forall|j: int| !bytes_at(b, mark, j),
    ensures
        patches(a + mark + b, mark, by) == (by.len() <= mark.len()),
        by.len() <= mark.len() ==> patched(a + mark + b, mark, by) == a + by + Seq::new(
            (mark.len() - by.len()) as nat,
            |i: int| 0u8,
        ) + b,
        by.len() > mark.len() ==> patched(a + mark + b, mark, by) == a + mark + b,
{
    overwriting_the_first(a, mark, b, by);
    overwriting_nothing(b, mark, by);
    let s = a + mark + b;
    assert(s.subrange(a.len() as int, (a.len() + mark.len()) as int) =~= mark);
    assert(bytes_at(s, mark, a.len() as int));
    if by.len() <= mark.len() {
        assert(a + padded(by, mark.len()) + b =~= a + by + Seq::new(
            (mark.len() - by.len()) as nat,
            |i: int| 0u8,
        ) + b);
    }
}

/// A file is relocated by patching the placeholder of the prefix with the prefix, and
/// that of the Cellar with the Cellar; it is written anew exactly where one of them
/// is there to be patched.
pub proof fn both_placeholders_are_patched(content: Seq<u8>, prefix: Seq<char>, cellar: Seq<char>)
    ensures
        ({
            let p = encode_utf8("@@HOMEBREW_PREFIX@@"@);
            let c = encode_utf8("@@HOMEBREW_CELLAR@@"@);
            let no_prefix = forall|i: int| !bytes_at(content, p, i);
            let no_cellar = forall|i: int| !bytes_at(content, c, i);
            &&& no_prefix ==> relocated(content, prefix, cellar) == patched(
                content,
                c,
                encode_utf8(cellar),
            )
            &&& no_cellar && (forall|i: int|
                !bytes_at(patched(content, p, encode_utf8(prefix)), c, i)) ==> relocated(
                content,
                prefix,
                cellar,
            ) == patched(content, p, encode_utf8(prefix))
            &&& !no_prefix && encode_utf8(prefix).len() <= p.len() ==> needs_rewrite(
                content,
                prefix,
                cellar,
            )
            &&& no_prefix && !no_cellar && encode_utf8(cellar).len() <= c.len() ==> needs_rewrite(
                content,
                prefix,
                cellar,
            )
            &&& no_prefix && no_cellar ==> !needs_rewrite(content, prefix, cellar)
        }),
{
    let p = encode_utf8("@@HOMEBREW_PREFIX@@"@);
    let c = encode_utf8("@@HOMEBREW_CELLAR@@"@);
    if forall|i: int| !bytes_at(content, p, i) {
        overwriting_nothing(content, p, encode_utf8(prefix));
        assert(patched(content, prefix_mark(), encode_utf8(prefix)) == content);
    }
    let once = patched(content, p, encode_utf8(prefix));
    if forall|i: int| !bytes_at(once, c, i) {
        overwriting_nothing(once, c, encode_utf8(cellar));
    }
}

/// The bottles of one macOS have the same name on both of its architectures, but for
/// what is put before it on Apple's own; every other system has one name for all
/// versions, and only these systems have one.
pub proof fn platforms_are_named(os: Seq<char>, arch: Seq<char>, version: Seq<char>, other: Seq<char>)
    ensures
        platform_of("macos"@, "aarch64"@, version) == "arm64_"@ + platform_of(
            "macos"@,
            "x86_64"@,
            version,
        ),
        os != "macos"@ ==> platform_of(os, arch, version) == platform_of(os, arch, other),
        os == "linux"@ && arch == "x86_64"@ ==> platform_of(os, arch, version) == "x86_64_linux"@,
        os == "linux"@ && (arch == "aarch64"@ || arch == "arm"@) ==> platform_of(os, arch, version)
            == "arm64_linux"@,
        os != "macos"@ && os != "linux"@ ==> platform_of(os, arch, version) == "unknown"@,
        os == "macos"@ && arch != "aarch64"@ && arch != "x86_64"@ ==> platform_of(os, arch, version)
            == "unknown"@,
        os == "linux"@ && arch != "aarch64"@ && arch != "x86_64"@ && arch != "arm"@ ==> platform_of(
            os,
            arch,
            version,
        ) == "unknown"@,
{
    reveal_strlit("macos");
    reveal_strlit("linux");
    reveal_strlit("aarch64");
    reveal_strlit("x86_64");
    reveal_strlit("arm");
    assert("macos"@[0] == 'm' && "linux"@[0] == 'l');
    assert("aarch64"@[0] == 'a' && "x86_64"@[0] == 'x');
    assert("aarch64"@.len() == 7 && "arm"@.len() == 3);
}

/// Each macOS that has a name of its own goes by it: from monterey with the number
/// 12, one after another, up to tahoe; a later one goes by the last of these names,
/// and one that is not known by the one before it.
pub proof fn macos_versions_are_named(version: Seq<char>, major: nat)
    requires
        text::parse_number(version, u32::MAX as nat) == Some(major),
        version == text::decimal(major),
    ensures
        major == 12 ==> macos_name(version) == "monterey"@,
        major == 13 ==> macos_name(version) == "ventura"@,
        major == 14 ==> macos_name(version) == "sonoma"@,
        major == 15 ==> macos_name(version) == "sequoia"@,
        major == 16 || major >= 26 ==> macos_name(version) == "tahoe"@,
        major < 12 || 16 < major < 26 ==> macos_name(version) == "sequoia"@,
{
    reveal_strlit("12");
    reveal_strlit("13");
    reveal_strlit("14");
    reveal_strlit("15");
    reveal_strlit("16");
    reveal_strlit("26");
    reveal_with_fuel(text::decimal, 3);
    reveal_with_fuel(text::value_of, 4);
    two_digits("12"@, 12);
    two_digits("13"@, 13);
    two_digits("14"@, 14);
    two_digits("15"@, 15);
    two_digits("16"@, 16);
    two_digits("26"@, 26);
}

proof fn two_digits(s: Seq<char>, n: nat)
    requires
        s.len() == 2,
        10 <= n < 100,
        s[0] == ('0' as u8 + n / 10) as char,
        s[1] == ('0' as u8 + n % 10) as char,
    ensures
        s == text::decimal(n),
        forall|m: nat| #[trigger] text::decimal(m) == s ==> m == n,
{
    assert(text::decimal(n / 10) =~= seq![('0' as u8 + n / 10) as char]);
    assert(s =~= text::decimal(n));
    assert forall|m: nat| #[trigger] text::decimal(m) == s implies m == n by {
        text::numbers_are_read_back(m, m + n);
        text::numbers_are_read_back(n, m + n);
    }
}

/// A version of macOS that cannot be had, or that has no number, is taken for one that
/// is not known or for the fourteenth.
pub proof fn unknown_macos_versions(version: Seq<char>, parts: Seq<Seq<char>>)
    requires
        parts.len() > 0,
        forall|i: int| 0 <= i < parts.len() ==> !(#[trigger] parts[i]).contains('.'),
    ensures
        major_version(None) == "14"@,
        major_version(Some(text::join(parts, seq!['.']))) == parts[0],
        text::parse_number(version, u32::MAX as nat) is None ==> macos_name(version) == "sequoia"@,
{
    text::joining_is_undone_by_splitting(parts, '.');
    reveal_strlit("12");
    reveal_strlit("13");
    reveal_strlit("14");
    reveal_strlit("15");
    reveal_strlit("16");
    reveal_strlit("26");
    two_digits("12"@, 12);
    two_digits("13"@, 13);
    two_digits("14"@, 14);
    two_digits("15"@, 15);
    two_digits("16"@, 16);
    two_digits("26"@, 26);
    text::numbers_are_read_back(12, u32::MAX as nat);
    text::numbers_are_read_back(13, u32::MAX as nat);
    text::numbers_are_read_back(14, u32::MAX as nat);
    text::numbers_are_read_back(15, u32::MAX as nat);
    text::numbers_are_read_back(16, u32::MAX as nat);
    text::numbers_are_read_back(26, u32::MAX as nat);
}

/// Where Homebrew stands if it does not say so itself: on Apple's own processors
/// apart from the rest of the system, on Linux in a home of its own if that is there,
/// and otherwise with what is local to the machine.
pub proof fn prefixes_are_standard(os: Seq<char>, arch: Seq<char>, linuxbrew: bool)
    ensures
        os == "macos"@ && arch == "aarch64"@ ==> standard_prefix(os, arch, linuxbrew)
            == "/opt/homebrew"@,
        os == "macos"@ && arch != "aarch64"@ ==> standard_prefix(os, arch, linuxbrew)
            == "/usr/local"@,
        os == "linux"@ && linuxbrew ==> standard_prefix(os, arch, linuxbrew)
            == "/home/linuxbrew/.linuxbrew"@,
        os != "macos"@ && !linuxbrew ==> standard_prefix(os, arch, linuxbrew) == "/usr/local"@,
        os != "macos"@ && os != "linux"@ ==> standard_prefix(os, arch, linuxbrew)
            == "/usr/local"@,
{
    reveal_strlit("macos");
    reveal_strlit("linux");
    assert("macos"@[0] == 'm' && "linux"@[0] == 'l');
}

/// A file begins with the magic number of a Mach-O file in one byte order exactly
/// where the file with these four bytes turned round does; an ELF file never does.
pub proof fn magic_in_both_orders(data: Seq<u8>, turned: Seq<u8>)
    requires
        data.len() >= 4,
        turned.len() >= 4,
        turned[0] == data[3] && turned[1] == data[2] && turned[2] == data[1] && turned[3] == data[0],
    ensures
        has_mach_o_magic(data) == has_mach_o_magic(turned),
        has_mach_o_magic(data) ==> data[0] != 0x7f,
        data[0] == 0xfe && data[1] == 0xed && data[2] == 0xfa && (data[3] == 0xce || data[3]
            == 0xcf) ==> has_mach_o_magic(data),
        data[0] == 0xca && data[1] == 0xfe && data[2] == 0xba && data[3] == 0xbe
            ==> has_mach_o_magic(data),
        has_mach_o_magic(data) ==> data[1] == 0xed || data[1] == 0xfa || data[1] == 0xfe || data[1]
            == 0xba,
{
}

/// The name of a repository stands between "/v2/" and "/blobs/" in the address of a
/// bottle.
pub proof fn repository_stands_between(a: Seq<char>, repo: Seq<char>, b: Seq<char>)
    requires
        ({
            let url = a + "/v2/"@ + repo + "/blobs/"@ + b;
            &&& text::first_at(url, "/v2/"@, a.len() as int)
            &&& text::first_at(url, "/blobs/"@, (a + "/v2/"@ + repo).len() as int)
        }),
    ensures
        repo_path(a + "/v2/"@ + repo + "/blobs/"@ + b) == Some(repo),
        marks_in_order(a + "/v2/"@ + repo + "/blobs/"@ + b),
{
    reveal_strlit("/v2/");
    let url = a + "/v2/"@ + repo + "/blobs/"@ + b;
    text::position_is(url, "/v2/"@, a.len() as int);
    text::position_is(url, "/blobs/"@, (a + "/v2/"@ + repo).len() as int);
    assert(url.subrange((a.len() + 4) as int, (a + "/v2/"@ + repo).len() as int) =~= repo);
}

/// What a command printed counts if it succeeded, without the white space around it.
pub proof fn failed_commands_say_nothing(stdout: Seq<u8>)
    ensures
        command_text(false, stdout) is None,
        !valid_utf8(stdout) ==> command_text(true, stdout) is None,
        valid_utf8(stdout) ==> command_text(true, stdout) == Some(text::trim(decode_utf8(stdout))),
{
}

/// Only the path of a command LC_RPATH is a search path: any other command ends it, and so
/// does the path itself; a line that is neither changes nothing.
pub proof fn other_commands_have_no_rpath(
    s: LoadCommands,
    raw: Seq<char>,
    prefix: Seq<char>,
    cellar: Seq<char>,
)
    ensures
        text::starts_with(text::trim(raw), "cmd LC_RPATH"@) ==> on_command(s, raw, prefix, cellar)
            == (LoadCommands { in_rpath: true, ..s }),
        text::starts_with(text::trim(raw), "cmd "@) && !text::starts_with(
            text::trim(raw),
            "cmd LC_RPATH"@,
        ) ==> on_command(s, raw, prefix, cellar) == (LoadCommands { in_rpath: false, ..s }),
        !s.in_rpath && !text::starts_with(text::trim(raw), "cmd "@) && !text::starts_with(
            text::trim(raw),
            "cmd LC_RPATH"@,
        ) ==> on_command(s, raw, prefix, cellar) == s,
        s.in_rpath && !text::starts_with(text::trim(raw), "cmd "@) && !text::starts_with(
            text::trim(raw),
            "cmd LC_RPATH"@,
        ) && !text::starts_with(text::trim(raw), "path "@) ==> on_command(s, raw, prefix, cellar)
            == s,
        s.in_rpath && text::starts_with(text::trim(raw), "path "@) ==> !on_command(
            s,
            raw,
            prefix,
            cellar,
        ).in_rpath,
{
    reveal_strlit("path ");
    reveal_strlit("cmd LC_RPATH");
    reveal_strlit("cmd ");
    let line = text::trim(raw);
    if text::starts_with(line, "path "@) {
        assert(line.subrange(0, "path "@.len() as int)[0] == 'p');
        if text::starts_with(line, "cmd LC_RPATH"@) {
            assert(line.subrange(0, "cmd LC_RPATH"@.len() as int)[0] == 'c');
        }
        if text::starts_with(line, "cmd "@) {
            assert(line.subrange(0, "cmd "@.len() as int)[0] == 'c');
        }
    }
    if text::starts_with(line, "cmd "@) && text::starts_with(line, "path "@) {
        assert(false);
    }
}

}
