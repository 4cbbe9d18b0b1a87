//! Rules of the web console: access to the API by bearer token and the
//! content type of event screenshots.
use vstd::prelude::*;

use crate::text::{chars_of, seq_eq, trim, trim_chars, string_of};

verus! {

proof fn lemma_or_xor(acc: u8, x: u8, y: u8)
    ensures
        ((acc | (x ^ y)) == 0) == (acc == 0 && x == y),
{
    assert(((acc | (x ^ y)) == 0) == (acc == 0 && x == y)) by (bit_vector);
}

/// Byte strings compared without stopping at the first difference, nor at a
/// difference in length: every position up to the longer length is visited
/// (a missing byte read as 0), so that the time taken tells neither where two
/// tokens differ nor whether their lengths do.
pub fn constant_time_eq(a: &[u8], b: &[u8]) -> (r: bool)
    ensures
        r == (a@ == b@),
{
    let n = if a.len() > b.len() { a.len() } else { b.len() };
    let mut acc: u8 = if a.len() == b.len() { 0 } else { 1 };
    let mut i: usize = 0;
    while i < n
        invariant
            i <= n,
            n == (if a.len() > b.len() { a.len() } else { b.len() }),
            (acc == 0) == (a.len() == b.len() && forall|j: int| 0 <= j < i && j < a.len() ==> a@[j] == b@[j]),
        decreases n - i,
    {
        let x: u8 = if i < a.len() { a[i] } else { 0 };
        let y: u8 = if i < b.len() { b[i] } else { 0 };
        proof {
            lemma_or_xor(acc, x, y);
        }
        acc = acc | (x ^ y);
        i += 1;
    }
    proof {
        if acc == 0 {
            assert(a@ =~= b@);
        }
    }
    acc == 0
}

/// The token a request offers: the `Authorization` header after `Bearer `,
/// trimmed.
pub open spec fn offered_token(header: Option<Seq<char>>) -> Option<Seq<char>> {
    match header {
        Some(h) => if crate::text::starts_with(h, "Bearer "@) {
            Some(trim(h.skip(7)))
        } else {
            None
        },
        None => None,
    }
}

/// Whether an API request may pass: always when no token is configured
/// (blank), else only with the same token (as bytes).
pub open spec fn request_allowed(expected: Seq<char>, header: Option<Seq<char>>) -> bool {
    trim(expected).len() == 0 || match offered_token(header) {
        Some(t) => vstd::utf8::encode_utf8(t) == vstd::utf8::encode_utf8(trim(expected)),
        None => false,
    }
}

/// Decides whether an API request may pass ([`request_allowed`]).
pub fn is_authorized(expected: &str, header: Option<&str>) -> (r: bool)
    ensures
        r == request_allowed(expected@, crate::notifier::opt_view(header)),
{
    let e = chars_of(expected);
    let et = trim_chars(&e);
    if et.len() == 0 {
        return true;
    }
    let h = match header {
        Some(h) => h,
        None => return false,
    };
    let hc = chars_of(h);
    let p = chars_of("Bearer ");
    proof {
        reveal_strlit("Bearer ");
    }
    if !crate::text::starts_with_chars(&hc, &p) {
        return false;
    }
    let rest = crate::text::slice_chars(&hc, 7, hc.len());
    proof {
        assert(rest@ =~= hc@.skip(7));
    }
    let t = trim_chars(&rest);
    let ts = string_of(&t);
    let es = string_of(&et);
    constant_time_eq(ts.as_str().as_bytes(), es.as_str().as_bytes())
}

/// The extension of a path, as `Path::extension` gives it.
pub uninterp spec fn path_extension(path: Seq<char>) -> Option<Seq<char>>;

/// `std::path::Path::extension`, as UTF-8; named by [`path_extension`].
#[verifier::external_body]
fn extension_of(path: &str) -> (r: Option<String>)
    ensures
        match r {
            Some(e) => path_extension(path@) == Some(e@),
            None => path_extension(path@) is None,
        },
{
    std::path::Path::new(path).extension().and_then(|e| e.to_str()).map(String::from)
}

/// The content type of a screenshot by its extension: `jpg`/`jpeg` JPEG,
/// `webp` WebP, anything else PNG.
pub open spec fn screenshot_type(ext: Option<Seq<char>>) -> Seq<char> {
    match ext {
        Some(e) => if e == "jpg"@ || e == "jpeg"@ {
            "image/jpeg"@
        } else if e == "webp"@ {
            "image/webp"@
        } else {
            "image/png"@
        },
        None => "image/png"@,
    }
}

/// The content type of a screenshot file ([`screenshot_type`]).
pub fn screenshot_mime(path: &str) -> (r: &'static str)
    ensures
        r@ == screenshot_type(path_extension(path@)),
{
    match extension_of(path) {
        Some(e) => {
            let c = chars_of(e.as_str());
            let jpg = chars_of("jpg");
            let jpeg = chars_of("jpeg");
            let webp = chars_of("webp");
            if seq_eq(&c, &jpg) || seq_eq(&c, &jpeg) {
                "image/jpeg"
            } else if seq_eq(&c, &webp) {
                "image/webp"
            } else {
                "image/png"
            }
        },
        None => "image/png",
    }
}

} // verus!
