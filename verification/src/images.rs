//! Image cache rules: which downloads are kept, how a cached file is named,
//! and the perceptual hash of an image.
use vstd::prelude::*;

use crate::config::str_to_string;
use crate::text::{append_chars, chars_of, string_of};

verus! {

/// Largest image kept by default, in bytes (10 MiB).
pub const DEFAULT_IMAGE_BYTES: u64 = 10485760;

/// The byte limit of the downloader: the configured one, the default when 0.
pub fn image_byte_limit(max_bytes: u64) -> (r: u64)
    ensures
        r == (if max_bytes == 0 { DEFAULT_IMAGE_BYTES } else { max_bytes }),
{
    if max_bytes == 0 {
        DEFAULT_IMAGE_BYTES
    } else {
        max_bytes
    }
}

/// Why a download is not cached.
#[derive(Debug, Clone, Copy, PartialEq, Eq, Structural)]
pub enum ImageReject {
    /// The URL is neither `http` nor `https`.
    Scheme,
    /// The server answered with a failure status.
    Status,
    /// The content type is not `image/...`.
    NotImage,
    /// The body is larger than the limit.
    TooLarge,
}

/// The content type of a download: the header's, else
/// `application/octet-stream`.
pub fn content_type_or_default(header: Option<&str>) -> (r: String)
    ensures
        match header {
            Some(h) => r@ == h@,
            None => r@ == "application/octet-stream"@,
        },
{
    match header {
        Some(h) => str_to_string(h),
        None => str_to_string("application/octet-stream"),
    }
}

/// The verdict on a download: its scheme, status, content type and size.
pub open spec fn image_verdict(scheme_ok: bool, status_ok: bool, mime: Seq<char>, len: int, max: int) -> Option<
    ImageReject,
> {
    if !scheme_ok {
        Some(ImageReject::Scheme)
    } else if !status_ok {
        Some(ImageReject::Status)
    } else if !crate::text::starts_with(mime, "image/"@) {
        Some(ImageReject::NotImage)
    } else if len > max {
        Some(ImageReject::TooLarge)
    } else {
        None
    }
}

/// Decides whether a download is cached ([`image_verdict`]); `None` keeps it.
pub fn check_download(scheme: &str, status_ok: bool, mime: &str, len: u64, max_bytes: u64) -> (r: Option<
    ImageReject,
>)
    ensures
        r == image_verdict(
            scheme@ == "http"@ || scheme@ == "https"@,
            status_ok,
            mime@,
            len as int,
            max_bytes as int,
        ),
{
    let s = chars_of(scheme);
    let http = chars_of("http");
    let https = chars_of("https");
    if !(crate::text::seq_eq(&s, &http) || crate::text::seq_eq(&s, &https)) {
        return Some(ImageReject::Scheme);
    }
    if !status_ok {
        return Some(ImageReject::Status);
    }
    let m = chars_of(mime);
    let p = chars_of("image/");
    if !crate::text::starts_with_chars(&m, &p) {
        return Some(ImageReject::NotImage);
    }
    if len > max_bytes {
        return Some(ImageReject::TooLarge);
    }
    None
}

/// Lower-case hexadecimal digit.
pub open spec fn hex_lower(d: int) -> char {
    if d < 10 {
        ((d + 48) as u32) as char
    } else {
        ((d + 87) as u32) as char
    }
}

/// Two lower-case hexadecimal digits per byte.
pub open spec fn hex_of(bytes: Seq<u8>) -> Seq<char>
    decreases bytes.len(),
{
    if bytes.len() == 0 {
        seq![]
    } else {
        hex_of(bytes.drop_last()) + seq![
            hex_lower(bytes.last() as int / 16),
            hex_lower(bytes.last() as int % 16),
        ]
    }
}

fn hex_digit(d: u8) -> (c: char)
    requires
        d < 16,
    ensures
        c == hex_lower(d as int),
{
    if d < 10 {
        (d + 48) as char
    } else {
        (d + 87) as char
    }
}

/// Hexadecimal text of bytes ([`hex_of`]).
pub fn hex(bytes: &[u8]) -> (r: String)
    ensures
        r@ == hex_of(bytes@),
{
    let mut out: Vec<char> = Vec::new();
    let mut i: usize = 0;
    proof {
        assert(bytes@.take(0) =~= Seq::<u8>::empty());
    }
    while i < bytes.len()
        invariant
            i <= bytes.len(),
            out@ == hex_of(bytes@.take(i as int)),
        decreases bytes.len() - i,
    {
        let b = bytes[i];
        proof {
            assert(bytes@.take(i + 1).drop_last() =~= bytes@.take(i as int));
            assert(bytes@.take(i + 1).last() == b);
        }
        let ghost before = out@;
        out.push(hex_digit(b / 16));
        out.push(hex_digit(b % 16));
        proof {
            assert(out@ =~= before + seq![hex_lower(b as int / 16), hex_lower(b as int % 16)]);
        }
        i += 1;
    }
    proof {
        assert(bytes@.take(bytes.len() as int) =~= bytes@);
    }
    string_of(&out)
}

/// The SHA-256 digest of bytes.
pub uninterp spec fn sha256_of(bytes: Seq<u8>) -> Seq<u8>;

/// `sha2::Sha256` over the bytes, finalized; named by [`sha256_of`].
#[verifier::external_body]
fn sha256_digest(bytes: &[u8]) -> (r: Vec<u8>)
    ensures
        r@ == sha256_of(bytes@),
{
    <sha2::Sha256 as sha2::Digest>::digest(bytes).to_vec()
}

/// The hexadecimal SHA-256 of a download, its cache key.
pub fn sha256_hex(bytes: &[u8]) -> (r: String)
    ensures
        r@ == hex_of(sha256_of(bytes@)),
{
    let d = sha256_digest(bytes);
    hex(d.as_slice())
}

/// The first extension `mime_guess` lists for a MIME type.
pub uninterp spec fn mime_ext(mime: Seq<char>) -> Option<Seq<char>>;

/// `mime_guess::get_mime_extensions_str(..)` and its first entry; named by
/// [`mime_ext`].
#[verifier::external_body]
fn first_extension(mime: &str) -> (r: Option<String>)
    ensures
        match r {
            Some(e) => mime_ext(mime@) == Some(e@),
            None => mime_ext(mime@) is None,
        },
{
    mime_guess::get_mime_extensions_str(mime).and_then(|e| e.first()).map(|e| e.to_string())
}

/// The file name of a cached image: `<sha256>.<ext>`, the extension of its
/// MIME type, `bin` when none is known.
pub fn cache_file_name(sha256: &str, mime: &str) -> (r: String)
    ensures
        r@ == sha256@ + seq!['.'] + match mime_ext(mime@) {
            Some(e) => e,
            None => "bin"@,
        },
{
    let ext = match first_extension(mime) {
        Some(e) => e,
        None => str_to_string("bin"),
    };
    let mut out = chars_of(sha256);
    out.push('.');
    let e = chars_of(ext.as_str());
    append_chars(&mut out, &e);
    string_of(&out)
}

/// The 8×8 grey levels of an image, row by row, as `image` resizes it
/// (triangle filter); `None` when the bytes are not an image it reads.
pub uninterp spec fn thumbnail_luma(bytes: Seq<u8>) -> Option<Seq<u8>>;

/// `image::load_from_memory`, `resize_exact(8, 8, Triangle)`, `to_luma8`; named
/// by [`thumbnail_luma`]. The thumbnail has 64 pixels.
#[verifier::external_body]
fn luma_thumbnail(bytes: &[u8]) -> (r: Option<Vec<u8>>)
    ensures
        match r {
            Some(p) => thumbnail_luma(bytes@) == Some(p@) && p@.len() == 64,
            None => thumbnail_luma(bytes@) is None,
        },
{
    let img = image::load_from_memory(bytes).ok()?;
    Some(img.resize_exact(8, 8, image::imageops::FilterType::Triangle).to_luma8().into_raw())
}

/// Sum of grey levels.
pub open spec fn luma_sum(p: Seq<u8>) -> int
    decreases p.len(),
{
    if p.len() == 0 {
        0
    } else {
        luma_sum(p.drop_last()) + p.last()
    }
}

/// The bits of the average hash of 64 grey levels: `1` where a pixel is at
/// least the average, a `-` after each row but the last.
pub open spec fn hash_bits(p: Seq<u8>, avg: int, n: int) -> Seq<char>
    decreases n,
{
    if n <= 0 {
        seq![]
    } else {
        let i = n - 1;
        hash_bits(p, avg, n - 1) + seq![if p[i] >= avg { '1' } else { '0' }] + if i % 8 == 7 && i
            != 63 {
            seq!['-']
        } else {
            seq![]
        }
    }
}

/// The average hash of grey levels: the mean (rounded down) and the bits.
pub open spec fn phash_of(p: Seq<u8>) -> Seq<char> {
    hash_bits(p, luma_sum(p) / 64, p.len() as int)
}

proof fn lemma_luma_sum_bound(p: Seq<u8>)
    ensures
        0 <= luma_sum(p) <= 255 * p.len(),
    decreases p.len(),
{
    if p.len() > 0 {
        lemma_luma_sum_bound(p.drop_last());
    }
}

/// The average hash of an image ([`phash_of`] of its 8×8 grey levels),
/// `None` when the bytes are not an image.
pub fn compute_phash(bytes: &[u8]) -> (r: Option<String>)
    ensures
        match thumbnail_luma(bytes@) {
            Some(p) => r matches Some(h) && h@ == phash_of(p),
            None => r is None,
        },
{
    let p = match luma_thumbnail(bytes) {
        Some(p) => p,
        None => return None,
    };
    let mut sum: u64 = 0;
    let mut i: usize = 0;
    proof {
        assert(p@.take(0) =~= Seq::<u8>::empty());
    }
    while i < p.len()
        invariant
            i <= p.len(),
            p@.len() == 64,
            sum as int == luma_sum(p@.take(i as int)),
        decreases p.len() - i,
    {
        proof {
            assert(p@.take(i + 1).drop_last() =~= p@.take(i as int));
            lemma_luma_sum_bound(p@.take(i as int));
        }
        sum = sum + p[i] as u64;
        i += 1;
    }
    proof {
        assert(p@.take(64) =~= p@);
        lemma_luma_sum_bound(p@);
    }
    let avg: u8 = (sum / 64) as u8;
    let mut bits: Vec<char> = Vec::new();
    let mut j: usize = 0;
    while j < p.len()
        invariant
            j <= p.len(),
            p@.len() == 64,
            avg as int == luma_sum(p@) / 64,
            bits@ == hash_bits(p@, avg as int, j as int),
        decreases p.len() - j,
    {
        bits.push(if p[j] >= avg { '1' } else { '0' });
        if j % 8 == 7 && j != 63 {
            bits.push('-');
        }
        j += 1;
    }
    Some(string_of(&bits))
}

} // verus!
