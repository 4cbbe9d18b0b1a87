//! Fetching rules: which fetcher a source uses, how a response body is
//! bounded, decoded and fingerprinted, when a failed fetch is retried, and
//! the requests made to a camofox browser service.
use vstd::prelude::*;

use crate::config::{
    str_to_string, Config, EditableSettings, FetchConfig, DEFAULT_USER_AGENT,
};
use crate::models::{FetchedDocument, ImageRef};
use crate::pipeline::{blake3_hex, hash_hex};
use crate::text::{append_chars, chars_of, seq_eq, string_of, trim, trim_chars};

verus! {

/// What a fetcher is asked to fetch.
pub struct FetchSpec {
    pub fetch: FetchConfig,
    pub etag: Option<String>,
    pub last_modified: Option<String>,
    pub source_id: String,
}

/// The engine of a fetch configuration: its own, `http` when blank.
pub fn engine_name(fetch: &FetchConfig) -> (r: &str)
    ensures
        fetch.engine@.len() == 0 ==> r@ == "http"@,
        fetch.engine@.len() > 0 ==> r@ == fetch.engine@,
{
    if fetch.engine.as_str().is_empty() {
        "http"
    } else {
        fetch.engine.as_str()
    }
}

/// The fetcher a source gets.
#[derive(Debug, PartialEq, Eq)]
pub enum FetcherChoice {
    /// Plain HTTP with this User-Agent and default timeout.
    Http { user_agent: String, timeout_secs: u64 },
    /// The camofox browser service.
    Camofox,
}

/// Why no fetcher can be made.
#[derive(Debug, PartialEq, Eq)]
pub enum FetchError {
    /// The camofox engine is asked for but switched off.
    CamofoxDisabled,
    /// The engine name is unknown.
    UnknownEngine(String),
}

/// Chooses the fetcher of an engine: `http` with the settings' User-Agent
/// (the built-in one when blank) and timeout; `camofox` when it is switched
/// on; anything else refused.
pub fn create_fetcher(engine: &str, cfg: &Config, settings: &EditableSettings) -> (r: Result<
    FetcherChoice,
    FetchError,
>)
    ensures
        engine@ == "http"@ ==> (r matches Ok(FetcherChoice::Http { user_agent, timeout_secs }) && (
        if trim(settings.default_user_agent@).len() > 0 {
            user_agent@ == settings.default_user_agent@
        } else {
            user_agent@ == DEFAULT_USER_AGENT@
        }) && timeout_secs == settings.default_timeout_secs),
        engine@ == "camofox"@ ==> (if cfg.camofox.enabled {
            r matches Ok(FetcherChoice::Camofox)
        } else {
            r matches Err(FetchError::CamofoxDisabled)
        }),
        engine@ != "http"@ && engine@ != "camofox"@ ==> (r matches Err(FetchError::UnknownEngine(e))
            && e@ == engine@),
{
    let e = chars_of(engine);
    let http = chars_of("http");
    let camofox = chars_of("camofox");
    proof {
        reveal_strlit("http");
        reveal_strlit("camofox");
        assert("http"@ != "camofox"@) by {
            assert("http"@.len() != "camofox"@.len());
        }
    }
    if seq_eq(&e, &http) {
        let ua = chars_of(settings.default_user_agent.as_str());
        let uat = trim_chars(&ua);
        let user_agent = if uat.len() > 0 {
            settings.default_user_agent.clone()
        } else {
            str_to_string(DEFAULT_USER_AGENT)
        };
        Ok(FetcherChoice::Http { user_agent, timeout_secs: settings.default_timeout_secs })
    } else if seq_eq(&e, &camofox) {
        if cfg.camofox.enabled {
            Ok(FetcherChoice::Camofox)
        } else {
            Err(FetchError::CamofoxDisabled)
        }
    } else {
        Err(FetchError::UnknownEngine(str_to_string(engine)))
    }
}

/// A timeout of at least one second.
pub fn at_least_one(secs: u64) -> (r: u64)
    ensures
        r == (if secs < 1 { 1 } else { secs }),
{
    if secs < 1 {
        1
    } else {
        secs
    }
}

// ---------------------------------------------------------------------------
// Responses
// ---------------------------------------------------------------------------

/// Bytes read of a body at most: the configured limit, at least 1 KiB.
pub fn body_limit(max_body_bytes: usize) -> (r: usize)
    ensures
        r == (if max_body_bytes < 1024 { 1024 } else { max_body_bytes }),
{
    if max_body_bytes < 1024 {
        1024
    } else {
        max_body_bytes
    }
}

/// How much of a received chunk is kept, and whether reading stops: a chunk
/// that would pass the limit is cut at it and ends the body.
pub fn take_chunk(have: usize, chunk_len: usize, limit: usize) -> (r: (usize, bool))
    requires
        have <= limit,
    ensures
        have + chunk_len > limit ==> r == (((limit - have) as usize), true),
        have + chunk_len <= limit ==> r == (chunk_len, false),
{
    if chunk_len > limit - have {
        (limit - have, true)
    } else {
        (chunk_len, false)
    }
}

/// A body never grows past its limit.
pub proof fn law_body_bounded(have: int, chunk_len: int, limit: int)
    requires
        0 <= have <= limit,
        0 <= chunk_len,
    ensures
        have + (if have + chunk_len > limit { limit - have } else { chunk_len }) <= limit,
{
}

/// How a response status is handled.
#[derive(Debug, Clone, Copy, PartialEq, Eq, Structural)]
pub enum StatusClass {
    /// 304: unchanged since the stored validators.
    NotModified,
    /// 2xx: a body to read.
    Success,
    /// Anything else: a failed fetch.
    Failure,
}

/// Classifies a response status.
pub fn classify_status(status: u16) -> (r: StatusClass)
    ensures
        status == 304 ==> r == StatusClass::NotModified,
        status != 304 && 200 <= status <= 299 ==> r == StatusClass::Success,
        status != 304 && !(200 <= status <= 299) ==> r == StatusClass::Failure,
{
    if status == 304 {
        StatusClass::NotModified
    } else if 200 <= status && status <= 299 {
        StatusClass::Success
    } else {
        StatusClass::Failure
    }
}

/// `to_lowercase` of a string (Unicode lower case); depends on the text alone.
pub uninterp spec fn unicode_lower(s: Seq<char>) -> Seq<char>;

/// `str::to_lowercase`; named by [`unicode_lower`].
#[verifier::external_body]
fn lowercase(s: &str) -> (r: String)
    ensures
        r@ == unicode_lower(s@),
{
    s.to_lowercase()
}

/// `s` without the prefix, when it starts with it.
pub open spec fn after_prefix(s: Seq<char>, p: Seq<char>) -> Option<Seq<char>> {
    if crate::text::starts_with(s, p) {
        Some(s.skip(p.len() as int))
    } else {
        None
    }
}

/// The charset of the first `;`-separated piece (trimmed) that starts with
/// `charset=`, among the first `n`.
pub open spec fn charset_in(parts: Seq<Seq<char>>, n: int) -> Option<Seq<char>>
    decreases n,
{
    if n <= 0 {
        None
    } else {
        match charset_in(parts, n - 1) {
            Some(c) => Some(c),
            None => match after_prefix(trim(parts[n - 1]), "charset="@) {
                Some(rest) => Some(unicode_lower(crate::pipeline::trim_matches(trim(rest), '"'))),
                None => None,
            },
        }
    }
}

/// The charset a `Content-Type` declares, lower-cased, quotes removed.
pub open spec fn declared_charset(content_type: Option<Seq<char>>) -> Option<Seq<char>> {
    match content_type {
        None => None,
        Some(ct) => {
            let parts = crate::text::split(ct, ';');
            charset_in(parts, parts.len() as int)
        },
    }
}

/// The charset a `Content-Type` declares ([`declared_charset`]).
pub fn charset_from_content_type(content_type: Option<&str>) -> (r: Option<String>)
    ensures
        match r {
            Some(c) => declared_charset(crate::notifier::opt_view(content_type)) == Some(c@),
            None => declared_charset(crate::notifier::opt_view(content_type)) is None,
        },
{
    let ct = match content_type {
        Some(c) => c,
        None => return None,
    };
    let cc = chars_of(ct);
    let parts = crate::text::split_chars(&cc, ';');
    let ghost pv = crate::text::views(parts@);
    let prefix = chars_of("charset=");
    proof {
        reveal_strlit("charset=");
    }
    let mut i: usize = 0;
    while i < parts.len()
        invariant
            i <= parts.len(),
            pv == crate::text::views(parts@),
            pv == crate::text::split(ct@, ';'),
            crate::notifier::opt_view(content_type) == Some(ct@),
            prefix@ == "charset="@,
            charset_in(pv, i as int) is None,
        decreases parts.len() - i,
    {
        let part = trim_chars(&parts[i]);
        proof {
            reveal_strlit("charset=");
            assert(pv[i as int] == parts@[i as int]@);
        }
        if crate::text::starts_with_chars(&part, &prefix) {
            let rest = crate::text::slice_chars(&part, 8, part.len());
            proof {
                assert(rest@ =~= part@.skip(8));
                assert(after_prefix(trim(pv[i as int]), "charset="@) == Some(rest@));
            }
            let rt = trim_chars(&rest);
            let q = crate::pipeline::trim_quote_chars(&rt, '"');
            let qs = string_of(&q);
            let low = lowercase(qs.as_str());
            proof {
                assert(crate::pipeline::trim_matches(trim(rest@), '"') == q@);
                assert(charset_in(pv, i + 1) == Some(low@));
                lemma_charset_in_stable(pv, i + 1, pv.len() as int);
                assert(crate::notifier::opt_view(content_type) == Some(ct@));
                assert(declared_charset(Some(ct@)) == charset_in(pv, pv.len() as int));
            }
            return Some(low);
        }
        i += 1;
    }
    None
}

proof fn lemma_charset_in_stable(parts: Seq<Seq<char>>, i: int, n: int)
    requires
        0 <= i <= n,
        charset_in(parts, i) is Some,
    ensures
        charset_in(parts, n) == charset_in(parts, i),
    decreases n - i,
{
    if i < n {
        lemma_charset_in_stable(parts, i, n - 1);
    }
}

/// `String::from_utf8_lossy`: the text of bytes, invalid sequences replaced.
pub uninterp spec fn utf8_lossy(bytes: Seq<u8>) -> Seq<char>;

/// Whether `encoding_rs::Encoding::for_label` knows a label.
pub uninterp spec fn label_known(label: Seq<char>) -> bool;

/// `decode_without_bom_handling` with the encoding of a known label.
pub uninterp spec fn label_decoded(label: Seq<char>, bytes: Seq<u8>) -> Seq<char>;

/// `decode_without_bom_handling` with `encoding_rs::UTF_8`.
pub uninterp spec fn utf8_decoded(bytes: Seq<u8>) -> Seq<char>;

/// `String::from_utf8_lossy`; named by [`utf8_lossy`].
#[verifier::external_body]
fn from_utf8_lossy(bytes: &[u8]) -> (r: String)
    ensures
        r@ == utf8_lossy(bytes@),
{
    String::from_utf8_lossy(bytes).into_owned()
}

/// `encoding_rs::Encoding::for_label(..).is_some()`; named by [`label_known`].
#[verifier::external_body]
fn encoding_known(label: &str) -> (r: bool)
    ensures
        r == label_known(label@),
{
    encoding_rs::Encoding::for_label(label.as_bytes()).is_some()
}

/// Decoding with the encoding of a known label; named by [`label_decoded`].
#[verifier::external_body]
fn decode_labelled(label: &str, bytes: &[u8]) -> (r: String)
    requires
        label_known(label@),
    ensures
        r@ == label_decoded(label@, bytes@),
{
    encoding_rs::Encoding::for_label(label.as_bytes()).unwrap().decode_without_bom_handling(bytes).0.into_owned()
}

/// Decoding as UTF-8 with `encoding_rs`; named by [`utf8_decoded`].
#[verifier::external_body]
fn decode_utf8(bytes: &[u8]) -> (r: String)
    ensures
        r@ == utf8_decoded(bytes@),
{
    encoding_rs::UTF_8.decode_without_bom_handling(bytes).0.into_owned()
}

/// The text of a body in its declared charset: UTF-8 (lossy) when none or
/// `utf-8`/`utf8`/empty is declared; else the labelled encoding, UTF-8 when
/// the label is unknown.
pub open spec fn decoded_body(bytes: Seq<u8>, charset: Option<Seq<char>>) -> Seq<char> {
    let c = match charset {
        Some(c) => c,
        None => "utf-8"@,
    };
    if c == "utf-8"@ || c == "utf8"@ || c.len() == 0 {
        utf8_lossy(bytes)
    } else if label_known(c) {
        label_decoded(c, bytes)
    } else {
        utf8_decoded(bytes)
    }
}

/// Decodes a body ([`decoded_body`]).
pub fn decode_body(bytes: &[u8], charset: Option<&str>) -> (r: String)
    ensures
        r@ == decoded_body(bytes@, crate::notifier::opt_view(charset)),
{
    let c: &str = match charset {
        Some(c) => c,
        None => "utf-8",
    };
    let cc = chars_of(c);
    let u1 = chars_of("utf-8");
    let u2 = chars_of("utf8");
    if seq_eq(&cc, &u1) || seq_eq(&cc, &u2) || cc.len() == 0 {
        from_utf8_lossy(bytes)
    } else if encoding_known(c) {
        decode_labelled(c, bytes)
    } else {
        decode_utf8(bytes)
    }
}

/// The document of a `304 Not Modified` answer: no body, the validators kept.
pub fn not_modified_document(
    final_url: String,
    etag: Option<String>,
    last_modified: Option<String>,
    content_type: Option<String>,
    duration_ms: u64,
) -> (r: FetchedDocument)
    ensures
        r.final_url == final_url,
        r.status == 304,
        r.text@.len() == 0,
        r.html is None,
        r.images@.len() == 0,
        r.screenshot is None,
        r.etag == etag,
        r.last_modified == last_modified,
        r.content_sha256@.len() == 0,
        r.normalized_fingerprint@.len() == 0,
        r.duration_ms == duration_ms,
        r.engine@ == "http"@,
        r.content_type == content_type,
        r.not_modified,
{
    FetchedDocument {
        final_url,
        status: 304,
        text: String::new(),
        html: None,
        images: Vec::new(),
        screenshot: None,
        etag,
        last_modified,
        content_sha256: String::new(),
        normalized_fingerprint: String::new(),
        duration_ms,
        engine: str_to_string("http"),
        content_type,
        not_modified: true,
    }
}

/// The document of a successful HTTP answer: the body decoded in its
/// declared charset, the digest of the raw bytes and of the text.
pub fn http_document(
    final_url: String,
    status: u16,
    bytes: &[u8],
    etag: Option<String>,
    last_modified: Option<String>,
    content_type: Option<String>,
    duration_ms: u64,
) -> (r: FetchedDocument)
    ensures
        r.final_url == final_url,
        r.status == status,
        r.text@ == decoded_body(
            bytes@,
            declared_charset(
                match content_type {
                    Some(c) => Some(c@),
                    None => None,
                },
            ),
        ),
        r.html is None,
        r.images@.len() == 0,
        r.screenshot is None,
        r.etag == etag,
        r.last_modified == last_modified,
        r.content_sha256@ == blake3_hex(bytes@),
        r.normalized_fingerprint@ == blake3_hex(vstd::utf8::encode_utf8(r.text@)),
        r.duration_ms == duration_ms,
        r.engine@ == "http"@,
        r.content_type == content_type,
        !r.not_modified,
{
    let content_sha256 = hash_hex(bytes);
    let charset = match &content_type {
        Some(c) => charset_from_content_type(Some(c.as_str())),
        None => charset_from_content_type(None),
    };
    let text = match &charset {
        Some(c) => decode_body(bytes, Some(c.as_str())),
        None => decode_body(bytes, None),
    };
    let normalized_fingerprint = hash_hex(text.as_str().as_bytes());
    FetchedDocument {
        final_url,
        status,
        text,
        html: None,
        images: Vec::new(),
        screenshot: None,
        etag,
        last_modified,
        content_sha256,
        normalized_fingerprint,
        duration_ms,
        engine: str_to_string("http"),
        content_type,
        not_modified: false,
    }
}

/// Retries after the first failed HTTP fetch.
pub const HTTP_MAX_RETRIES: u32 = 3;

/// After failed attempt number `attempt` (from 1): the wait before the next
/// one, `100 ms × 2^(attempt-1)`, or `None` when the error is not worth a
/// retry or the retries are spent.
pub open spec fn retry_wait_ms(retryable: bool, attempt: int) -> Option<int> {
    if !retryable || attempt > 3 || attempt < 1 {
        None
    } else if attempt == 1 {
        Some(100)
    } else if attempt == 2 {
        Some(200)
    } else {
        Some(400)
    }
}

/// The wait before retrying a failed fetch ([`retry_wait_ms`]).
pub fn fetch_retry_wait(retryable: bool, attempt: u32) -> (r: Option<u64>)
    requires
        attempt >= 1,
    ensures
        match r {
            Some(w) => retry_wait_ms(retryable, attempt as int) == Some(w as int),
            None => retry_wait_ms(retryable, attempt as int) is None,
        },
{
    if !retryable || attempt > HTTP_MAX_RETRIES {
        None
    } else if attempt == 1 {
        Some(100)
    } else if attempt == 2 {
        Some(200)
    } else {
        Some(400)
    }
}

// ---------------------------------------------------------------------------
// The camofox browser service
// ---------------------------------------------------------------------------

/// Whether a byte is left as it is in a query string.
pub open spec fn unreserved(b: u8) -> bool {
    (0x41 <= b <= 0x5a) || (0x61 <= b <= 0x7a) || (0x30 <= b <= 0x39) || b == 0x2d || b == 0x5f
        || b == 0x2e || b == 0x7e
}

pub open spec fn hex_upper(d: int) -> char {
    if d < 10 {
        ((d + 48) as u32) as char
    } else {
        ((d + 55) as u32) as char
    }
}

/// Percent-encoding of bytes: unreserved bytes kept, others as `%XX`
/// (upper-case hex).
pub open spec fn percent_encode(bytes: Seq<u8>) -> Seq<char>
    decreases bytes.len(),
{
    if bytes.len() == 0 {
        seq![]
    } else {
        let b = bytes.last();
        percent_encode(bytes.drop_last()) + if unreserved(b) {
            seq![b as char]
        } else {
            seq!['%', hex_upper(b as int / 16), hex_upper(b as int % 16)]
        }
    }
}

fn hex_upper_char(d: u8) -> (c: char)
    requires
        d < 16,
    ensures
        c == hex_upper(d as int),
{
    if d < 10 {
        (d + 48) as char
    } else {
        (d + 55) as char
    }
}

/// Percent-encodes the UTF-8 bytes of a query value ([`percent_encode`]).
pub fn urlencoding(s: &str) -> (r: String)
    ensures
        r@ == percent_encode(vstd::utf8::encode_utf8(s@)),
{
    let bytes = s.as_bytes();
    let mut out: Vec<char> = Vec::new();
    let mut i: usize = 0;
    proof {
        assert(bytes@.take(0) =~= Seq::<u8>::empty());
    }
    while i < bytes.len()
        invariant
            i <= bytes.len(),
            bytes@ == vstd::utf8::encode_utf8(s@),
            out@ == percent_encode(bytes@.take(i as int)),
        decreases bytes.len() - i,
    {
        let b = bytes[i];
        proof {
            assert(bytes@.take(i + 1).drop_last() =~= bytes@.take(i as int));
            assert(bytes@.take(i + 1).last() == b);
        }
        let ghost before = out@;
        if (0x41 <= b && b <= 0x5a) || (0x61 <= b && b <= 0x7a) || (0x30 <= b && b <= 0x39) || b
            == 0x2d || b == 0x5f || b == 0x2e || b == 0x7e {
            out.push(b as char);
            proof {
                assert(out@ =~= before + seq![b as char]);
            }
        } else {
            out.push('%');
            out.push(hex_upper_char(b / 16));
            out.push(hex_upper_char(b % 16));
            proof {
                assert(out@ =~= before + seq!['%', hex_upper(b as int / 16), hex_upper(b as int % 16)]);
            }
        }
        i += 1;
    }
    proof {
        assert(bytes@.take(bytes.len() as int) =~= bytes@);
    }
    string_of(&out)
}

/// The base URL of the service without trailing slashes.
pub fn camofox_base(base_url: &str) -> (r: String)
    ensures
        r@ == crate::pipeline::strip_trailing(base_url@, '/'),
{
    let c = chars_of(base_url);
    let t = crate::pipeline::trim_quote_chars_end(&c, '/');
    string_of(&t)
}

/// `/tabs/<tab>/snapshot?userId=<user>&format=text&offset=<offset>`.
pub fn snapshot_path(tab_id: &str, user_id: &str, offset: usize) -> (r: String)
    ensures
        r@ == "/tabs/"@ + tab_id@ + "/snapshot?userId="@ + percent_encode(vstd::utf8::encode_utf8(user_id@))
            + "&format=text&offset="@ + crate::text::nat_dec(offset as nat),
{
    let mut out = chars_of("/tabs/");
    let t = chars_of(tab_id);
    append_chars(&mut out, &t);
    let a = chars_of("/snapshot?userId=");
    append_chars(&mut out, &a);
    let u = urlencoding(user_id);
    let uc = chars_of(u.as_str());
    append_chars(&mut out, &uc);
    let b = chars_of("&format=text&offset=");
    append_chars(&mut out, &b);
    let d = crate::text::u64_dec(offset as u64);
    append_chars(&mut out, &d);
    string_of(&out)
}

/// `/tabs/<tab>/<what>?userId=<user>`, for `images` and `screenshot`.
pub fn tab_query_path(tab_id: &str, what: &str, user_id: &str) -> (r: String)
    ensures
        r@ == "/tabs/"@ + tab_id@ + "/"@ + what@ + "?userId="@ + percent_encode(vstd::utf8::encode_utf8(user_id@)),
{
    let mut out = chars_of("/tabs/");
    let t = chars_of(tab_id);
    append_chars(&mut out, &t);
    out.push('/');
    let w = chars_of(what);
    append_chars(&mut out, &w);
    let a = chars_of("?userId=");
    append_chars(&mut out, &a);
    let u = urlencoding(user_id);
    let uc = chars_of(u.as_str());
    append_chars(&mut out, &uc);
    proof {
        reveal_strlit("/");
    }
    string_of(&out)
}

/// `/tabs/<tab>?userId=<user>`, to close a tab.
pub fn close_tab_path(tab_id: &str, user_id: &str) -> (r: String)
    ensures
        r@ == "/tabs/"@ + tab_id@ + "?userId="@ + percent_encode(vstd::utf8::encode_utf8(user_id@)),
{
    let mut out = chars_of("/tabs/");
    let t = chars_of(tab_id);
    append_chars(&mut out, &t);
    let a = chars_of("?userId=");
    append_chars(&mut out, &a);
    let u = urlencoding(user_id);
    let uc = chars_of(u.as_str());
    append_chars(&mut out, &uc);
    string_of(&out)
}

/// Largest snapshot text read, in bytes.
pub const SNAPSHOT_LIMIT: usize = 10485760;

/// Where the next snapshot page starts: at the service's next offset while it
/// has more and the text read stays within [`SNAPSHOT_LIMIT`] bytes.
pub fn next_snapshot_offset(has_more: bool, next_offset: Option<usize>, text_bytes: usize) -> (r: Option<usize>)
    ensures
        r == (if !has_more || next_offset is None || text_bytes > SNAPSHOT_LIMIT {
            None::<usize>
        } else {
            next_offset
        }),
{
    if !has_more || next_offset.is_none() {
        return None;
    }
    if text_bytes > SNAPSHOT_LIMIT {
        return None;
    }
    next_offset
}

/// Whether a tab is closed after the check.
pub fn closes_tab(tab_policy: &str) -> (r: bool)
    ensures
        r == (tab_policy@ == "per_check"@),
{
    let t = chars_of(tab_policy);
    let p = chars_of("per_check");
    seq_eq(&t, &p)
}

/// A key file content when it is not blank, trimmed.
pub open spec fn usable_key(k: Option<Seq<char>>) -> Option<Seq<char>> {
    match k {
        Some(a) => if trim(a).len() > 0 {
            Some(trim(a))
        } else {
            None
        },
        None => None,
    }
}

/// The bearer token of the service: the first key file content that is not
/// blank once trimmed, access key before API key.
pub fn pick_bearer(access_key: Option<&str>, api_key: Option<&str>) -> (r: Option<String>)
    ensures
        match r {
            Some(t) => Some(t@) == (match usable_key(crate::notifier::opt_view(access_key)) {
                Some(a) => Some(a),
                None => usable_key(crate::notifier::opt_view(api_key)),
            }),
            None => usable_key(crate::notifier::opt_view(access_key)) is None && usable_key(
                crate::notifier::opt_view(api_key),
            ) is None,
        },
{
    match access_key {
        Some(a) => {
            let c = chars_of(a);
            let t = trim_chars(&c);
            if t.len() > 0 {
                return Some(string_of(&t));
            }
        },
        None => {},
    }
    match api_key {
        Some(b) => {
            let c = chars_of(b);
            let t = trim_chars(&c);
            if t.len() > 0 {
                return Some(string_of(&t));
            }
        },
        None => {},
    }
    None
}

/// The text of an `evaluate` result: a string as it is, any other value as
/// its JSON text.
pub fn evaluated_text(v: &crate::pipeline::JsonValue) -> (r: String)
    ensures
        r@ == (match v.kind {
            crate::pipeline::JsonKind::Str(s) => s@,
            _ => v.text@,
        }),
{
    match &v.kind {
        crate::pipeline::JsonKind::Str(s) => s.clone(),
        _ => v.text.clone(),
    }
}

/// The text of an `evaluate` result given as the JSON text of the service's
/// `result` member ([`evaluated_text`] of the parsed value); a text that is
/// not JSON is kept as it is.
pub fn evaluation_text(result_json: &str) -> (r: String)
    ensures
        match crate::pipeline::json_parse(result_json@) {
            Some(v) => r@ == (match v.kind {
                crate::pipeline::JsonKind::Str(s) => s@,
                _ => v.text@,
            }),
            None => r@ == result_json@,
        },
{
    match crate::pipeline::parse_json(result_json) {
        Some(v) => evaluated_text(&v),
        None => str_to_string(result_json),
    }
}

impl Clone for ImageRef {
    fn clone(&self) -> (r: Self)
        ensures
            r == *self,
    {
        ImageRef {
            canonical_url: self.canonical_url.clone(),
            alt: self.alt.clone(),
            width: self.width,
            height: self.height,
        }
    }
}

/// `x` placed into a list sorted by URL, after every URL not greater.
pub open spec fn insert_by_url(s: Seq<ImageRef>, x: ImageRef) -> Seq<ImageRef>
    decreases s.len(),
{
    if s.len() == 0 {
        seq![x]
    } else if crate::text::str_lt(x.canonical_url@, s[0].canonical_url@) {
        seq![x] + s
    } else {
        seq![s[0]] + insert_by_url(s.drop_first(), x)
    }
}

/// The images sorted by URL; equal URLs keep their order.
pub open spec fn sort_by_url(s: Seq<ImageRef>) -> Seq<ImageRef>
    decreases s.len(),
{
    if s.len() == 0 {
        seq![]
    } else {
        insert_by_url(sort_by_url(s.drop_last()), s.last())
    }
}

/// Consecutive images with the same URL reduced to the first.
pub open spec fn dedup_runs(s: Seq<ImageRef>) -> Seq<ImageRef>
    decreases s.len(),
{
    if s.len() == 0 {
        seq![]
    } else {
        let p = dedup_runs(s.drop_last());
        if p.len() > 0 && p.last().canonical_url@ == s.last().canonical_url@ {
            p
        } else {
            p.push(s.last())
        }
    }
}

proof fn lemma_insert_by_url_at(s: Seq<ImageRef>, x: ImageRef, k: int)
    requires
        0 <= k <= s.len(),
        forall|j: int| 0 <= j < k ==> !crate::text::str_lt(x.canonical_url@, s[j].canonical_url@),
        k < s.len() ==> crate::text::str_lt(x.canonical_url@, s[k].canonical_url@),
    ensures
        insert_by_url(s, x) == s.take(k).push(x) + s.skip(k),
    decreases k,
{
    if k == 0 {
        assert(insert_by_url(s, x) =~= s.take(0).push(x) + s.skip(0));
    } else {
        lemma_insert_by_url_at(s.drop_first(), x, k - 1);
        assert(seq![s[0]] + (s.drop_first().take(k - 1).push(x) + s.drop_first().skip(k - 1))
            =~= s.take(k).push(x) + s.skip(k));
    }
}

fn insert_by_url_exec(v: &Vec<ImageRef>, x: ImageRef) -> (r: Vec<ImageRef>)
    ensures
        r@ == insert_by_url(v@, x),
{
    let xu = chars_of(x.canonical_url.as_str());
    let mut k: usize = 0;
    let mut stop = false;
    while k < v.len() && !stop
        invariant
            k <= v.len(),
            xu@ == x.canonical_url@,
            forall|j: int|
                0 <= j < k ==> !crate::text::str_lt(x.canonical_url@, v@[j].canonical_url@),
            stop ==> k < v.len() && crate::text::str_lt(x.canonical_url@, v@[k as int].canonical_url@),
        decreases v.len() - k, if stop { 0int } else { 1int },
    {
        let u = chars_of(v[k].canonical_url.as_str());
        if crate::text::lt_chars(&xu, &u) {
            stop = true;
        } else {
            k += 1;
        }
    }
    proof {
        lemma_insert_by_url_at(v@, x, k as int);
    }
    let mut out: Vec<ImageRef> = Vec::new();
    let mut i: usize = 0;
    while i < k
        invariant
            i <= k <= v.len(),
            out@ == v@.take(i as int),
        decreases k - i,
    {
        out.push(v[i].clone());
        i += 1;
        proof {
            assert(v@.take(i as int) =~= v@.take(i - 1).push(v@[i - 1]));
        }
    }
    out.push(x);
    let ghost head = out@;
    while i < v.len()
        invariant
            k <= i <= v.len(),
            head == v@.take(k as int).push(x),
            out@ == head + v@.subrange(k as int, i as int),
        decreases v.len() - i,
    {
        out.push(v[i].clone());
        i += 1;
        proof {
            assert(v@.subrange(k as int, i as int) =~= v@.subrange(k as int, i - 1).push(
                v@[i - 1],
            ));
        }
    }
    proof {
        assert(v@.subrange(k as int, v.len() as int) =~= v@.skip(k as int));
    }
    out
}

/// The images of a browser snapshot sorted by URL, one per URL
/// ([`sort_by_url`], [`dedup_runs`]).
pub fn sort_dedup_images(images: &[ImageRef]) -> (r: Vec<ImageRef>)
    ensures
        r@ == dedup_runs(sort_by_url(images@)),
{
    let mut sorted: Vec<ImageRef> = Vec::new();
    let mut i: usize = 0;
    proof {
        assert(images@.take(0) =~= Seq::<ImageRef>::empty());
    }
    while i < images.len()
        invariant
            i <= images.len(),
            sorted@ == sort_by_url(images@.take(i as int)),
        decreases images.len() - i,
    {
        proof {
            assert(images@.take(i + 1).drop_last() =~= images@.take(i as int));
            assert(images@.take(i + 1).last() == images@[i as int]);
        }
        sorted = insert_by_url_exec(&sorted, images[i].clone());
        i += 1;
    }
    proof {
        assert(images@.take(images.len() as int) =~= images@);
    }
    let ghost sv = sorted@;
    let mut out: Vec<ImageRef> = Vec::new();
    let mut j: usize = 0;
    proof {
        assert(sv.take(0) =~= Seq::<ImageRef>::empty());
    }
    while j < sorted.len()
        invariant
            j <= sorted.len(),
            sv == sorted@,
            out@ == dedup_runs(sv.take(j as int)),
        decreases sorted.len() - j,
    {
        proof {
            assert(sv.take(j + 1).drop_last() =~= sv.take(j as int));
            assert(sv.take(j + 1).last() == sv[j as int]);
        }
        let dup = if out.len() > 0 {
            let a = chars_of(out[out.len() - 1].canonical_url.as_str());
            let b = chars_of(sorted[j].canonical_url.as_str());
            seq_eq(&a, &b)
        } else {
            false
        };
        if !dup {
            out.push(sorted[j].clone());
        }
        j += 1;
    }
    proof {
        assert(sv.take(sorted.len() as int) =~= sv);
    }
    out
}

/// The bytes that base64's `STANDARD` engine decodes from a text (padded
/// alphabet of RFC 4648), `None` when it refuses the text.
pub uninterp spec fn base64_decoded(text: Seq<char>) -> Option<Seq<u8>>;

/// `base64::engine::general_purpose::STANDARD.decode`; named by
/// [`base64_decoded`].
#[verifier::external_body]
fn decode_base64(text: &str) -> (r: Option<Vec<u8>>)
    ensures
        match base64_decoded(text@) {
            Some(b) => r matches Some(v) && v@ == b,
            None => r is None,
        },
{
    base64::Engine::decode(&base64::engine::general_purpose::STANDARD, text).ok()
}

/// The bytes of a screenshot that the browser engine sends as base64 text,
/// `None` when the text is not valid base64.
pub fn screenshot_bytes(data: &str) -> (r: Option<Vec<u8>>)
    ensures
        match base64_decoded(data@) {
            Some(b) => r matches Some(v) && v@ == b,
            None => r is None,
        },
{
    decode_base64(data)
}

/// The document of a browser check: status 200, the snapshot (or evaluated)
/// text, its digest as both content and normalized fingerprint, the images
/// sorted by URL one per URL, and the screenshot when taken.
pub fn camofox_document(
    url: String,
    text: String,
    images: &[ImageRef],
    screenshot: Option<Vec<u8>>,
    duration_ms: u64,
) -> (r: FetchedDocument)
    ensures
        r.final_url == url,
        r.status == 200,
        r.text == text,
        r.html is None,
        r.images@ == dedup_runs(sort_by_url(images@)),
        r.screenshot == screenshot,
        r.etag is None,
        r.last_modified is None,
        r.content_sha256@ == blake3_hex(vstd::utf8::encode_utf8(text@)),
        r.normalized_fingerprint@ == blake3_hex(vstd::utf8::encode_utf8(text@)),
        r.duration_ms == duration_ms,
        r.engine@ == "camofox"@,
        r.content_type is None,
        !r.not_modified,
{
    let h = hash_hex(text.as_str().as_bytes());
    let h2 = hash_hex(text.as_str().as_bytes());
    let imgs = sort_dedup_images(images);
    FetchedDocument {
        final_url: url,
        status: 200,
        text,
        html: None,
        images: imgs,
        screenshot,
        etag: None,
        last_modified: None,
        content_sha256: h,
        normalized_fingerprint: h2,
        duration_ms,
        engine: str_to_string("camofox"),
        content_type: None,
        not_modified: false,
    }
}

} // verus!
