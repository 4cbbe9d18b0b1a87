//! Extraction pipeline: from a fetched document to the items that are
//! compared, their fingerprint and the images to attach. JSON documents are
//! read into [`JsonValue`] and queried with a small JSONPath dialect; HTML
//! documents are queried with CSS selectors.
use vstd::prelude::*;

use scraper::{ElementRef, Html, Selector};

use crate::config::{ExtractConfig, ImageSelector, ItemField, ItemSelector};
use crate::models::{find_field, item_fingerprint, item_views, lookup, Field, FetchedDocument, Item, ItemView};
use crate::text::{
    all_digits, chars_of, digits_value, find, parse_usize, parse_usize_chars, string_of, trim,
    trim_chars,
};

verus! {

// ---------------------------------------------------------------------------
// JSON documents
// ---------------------------------------------------------------------------

/// A member of a JSON object.
pub struct JsonMember {
    pub key: String,
    pub value: JsonValue,
}

/// The shape of a JSON value.
pub enum JsonKind {
    Null,
    Bool(bool),
    Number,
    Str(String),
    Array(Vec<JsonValue>),
    /// Members in the order the parser keeps them (sorted by key).
    Object(Vec<JsonMember>),
}

/// A parsed JSON value, with the compact JSON text that `serde_json` writes
/// for it.
pub struct JsonValue {
    pub kind: JsonKind,
    pub text: String,
}

#[verifier::external_type_specification]
#[verifier::external_body]
pub struct ExJsonValue(serde_json::Value);

/// Converts a `serde_json::Value`, member by member, recording the text
/// `Value::to_string` gives for every node.
#[verifier::external_body]
fn json_of(v: &serde_json::Value) -> JsonValue {
    let kind = match v {
        serde_json::Value::Null => JsonKind::Null,
        serde_json::Value::Bool(b) => JsonKind::Bool(*b),
        serde_json::Value::Number(_) => JsonKind::Number,
        serde_json::Value::String(s) => JsonKind::Str(s.clone()),
        serde_json::Value::Array(a) => JsonKind::Array(a.iter().map(json_of).collect()),
        serde_json::Value::Object(m) => JsonKind::Object(
            m.iter().map(|(k, x)| JsonMember { key: k.clone(), value: json_of(x) }).collect(),
        ),
    };
    JsonValue { kind, text: v.to_string() }
}

/// The value `serde_json::from_str::<serde_json::Value>` reads from a text,
/// `None` when the text is not JSON.
pub uninterp spec fn json_parse(text: Seq<char>) -> Option<JsonValue>;

/// `serde_json::from_str::<serde_json::Value>`, converted; named by
/// [`json_parse`].
#[verifier::external_body]
pub(crate) fn parse_json(text: &str) -> (r: Option<JsonValue>)
    ensures
        r == json_parse(text@),
{
    serde_json::from_str::<serde_json::Value>(text).ok().map(|v| json_of(&v))
}

// ---------------------------------------------------------------------------
// JSONPath steps
// ---------------------------------------------------------------------------

/// One navigation step of a path.
pub enum PathStep {
    Field(String),
    Index(usize),
    Wildcard,
}

/// Mathematical model of a [`PathStep`].
pub enum Step {
    Field(Seq<char>),
    Index(int),
    Wildcard,
}

impl View for PathStep {
    type V = Step;

    open spec fn view(&self) -> Step {
        match self {
            PathStep::Field(f) => Step::Field(f@),
            PathStep::Index(i) => Step::Index(*i as int),
            PathStep::Wildcard => Step::Wildcard,
        }
    }
}

pub open spec fn step_views(v: Seq<PathStep>) -> Seq<Step> {
    v.map_values(|s: PathStep| s@)
}

/// Leading `c` removed, repeatedly.
pub open spec fn strip_leading(s: Seq<char>, c: char) -> Seq<char>
    decreases s.len(),
{
    if s.len() > 0 && s[0] == c {
        strip_leading(s.drop_first(), c)
    } else {
        s
    }
}

/// Trailing `c` removed, repeatedly.
pub open spec fn strip_trailing(s: Seq<char>, c: char) -> Seq<char>
    decreases s.len(),
{
    if s.len() > 0 && s.last() == c {
        strip_trailing(s.drop_last(), c)
    } else {
        s
    }
}

/// `str::trim_matches(c)`.
pub open spec fn trim_matches(s: Seq<char>, c: char) -> Seq<char> {
    strip_trailing(strip_leading(s, c), c)
}

/// A field step for a non-empty name.
pub open spec fn flush(cur: Seq<char>) -> Seq<Step> {
    if cur.len() > 0 {
        seq![Step::Field(cur)]
    } else {
        seq![]
    }
}

/// The step of a bracket's content (trimmed, quotes removed): `*` is a
/// wildcard, a number an index, other non-empty text a field.
pub open spec fn bracket_step(inner: Seq<char>) -> Seq<Step> {
    let t = trim_matches(trim(inner), '\'');
    if t == seq!['*'] {
        seq![Step::Wildcard]
    } else {
        match parse_usize(t) {
            Some(i) => seq![Step::Index(i)],
            None => if t.len() > 0 {
                seq![Step::Field(t)]
            } else {
                seq![]
            },
        }
    }
}

/// Length of a bracket's content: up to the first `]`, or to the end.
pub open spec fn bracket_len(s: Seq<char>) -> int {
    match find(s, ']') {
        Some(i) => i,
        None => s.len() as int,
    }
}

/// The steps of the rest of a path, with `cur` the field name read so far:
/// `.` ends a field, `[..]` holds an index, a wildcard or a quoted field.
pub open spec fn tokenize(s: Seq<char>, cur: Seq<char>) -> Seq<Step>
    decreases s.len(),
{
    if s.len() == 0 {
        flush(cur)
    } else if s[0] == '.' {
        flush(cur) + tokenize(s.drop_first(), seq![])
    } else if s[0] == '[' {
        let t = s.drop_first();
        let e = bracket_len(t);
        proof {
            crate::text::lemma_find(t, ']');
        }
        let rest = if e < t.len() {
            t.skip(e + 1)
        } else {
            seq![]
        };
        flush(cur) + bracket_step(t.take(e)) + tokenize(rest, seq![])
    } else {
        tokenize(s.drop_first(), cur.push(s[0]))
    }
}

/// A name without `.` or `[` is read as one field step, whatever name was
/// begun before it.
proof fn lemma_tokenize_plain(k: Seq<char>, cur: Seq<char>)
    requires
        forall|i: int| 0 <= i < k.len() ==> (#[trigger] k[i]) != '.' && k[i] != '[',
    ensures
        tokenize(k, cur) == flush(cur + k),
    decreases k.len(),
{
    if k.len() == 0 {
        assert(cur + k =~= cur);
    } else {
        assert(k[0] != '.' && k[0] != '[');
        let r = k.drop_first();
        assert forall|i: int| 0 <= i < r.len() implies (#[trigger] r[i]) != '.' && r[i] != '[' by {
            assert(r[i] == k[i + 1]);
        }
        lemma_tokenize_plain(r, cur.push(k[0]));
        assert(cur.push(k[0]) + r =~= cur + k);
    }
}

/// A quoted bracket selects the member named inside it, as the dotted form
/// does: for a name `k` that is not a number, not `*`, holds no `.`, `[` or
/// `]` and neither starts nor ends with a quote or white space, the path
/// `['k']` reads as the one field step `k`, the same steps as `.k`.
pub proof fn law_quoted_bracket_is_field(k: Seq<char>)
    requires
        k.len() > 0,
        forall|i: int| 0 <= i < k.len() ==> (#[trigger] k[i]) != '.' && k[i] != '[' && k[i] != ']',
        k[0] != '\'' && k.last() != '\'',
        !crate::text::is_ws(k[0]) && !crate::text::is_ws(k.last()),
        k != seq!['*'],
        parse_usize(k) is None,
    ensures
        tokenize(seq!['[', '\''] + k + seq!['\'', ']'], seq![]) == seq![Step::Field(k)],
        tokenize(seq!['.'] + k, seq![]) == seq![Step::Field(k)],
{
    // The dotted form.
    let d = seq!['.'] + k;
    assert(d.drop_first() =~= k);
    lemma_tokenize_plain(k, seq![]);
    assert(Seq::<char>::empty() + k =~= k);
    assert(flush(Seq::<char>::empty()) =~= Seq::<Step>::empty());
    assert(tokenize(d, seq![]) =~= tokenize(k, seq![]));
    // The bracket form.
    let s = seq!['[', '\''] + k + seq!['\'', ']'];
    let t = s.drop_first();
    let q = seq!['\''] + k + seq!['\''];
    assert(t =~= q + seq![']']);
    let n: int = k.len() as int + 2;
    assert(t[n] == ']');
    assert forall|j: int| 0 <= j < n implies t[j] != ']' by {
        if 0 < j < n - 1 {
            assert(t[j] == k[j - 1]);
        }
    }
    crate::text::lemma_find(t, ']');
    assert(find(t, ']') == Some(n));
    assert(bracket_len(t) == n);
    assert(t.take(n) =~= q);
    assert(t.skip(n + 1) =~= Seq::<char>::empty());
    // The bracket's content: trimmed, then the quotes removed.
    assert(!crate::text::is_ws(q[0]));
    assert(!crate::text::is_ws(q.last()));
    assert(crate::text::trim_start(q) == q);
    assert(crate::text::trim_end(q) == q);
    assert(trim(q) == q);
    let q1 = q.drop_first();
    assert(q1 =~= k + seq!['\'']);
    assert(q1[0] == k[0]);
    assert(strip_leading(q1, '\'') == q1);
    assert(strip_leading(q, '\'') == q1);
    assert(q1.drop_last() =~= k);
    assert(strip_trailing(k, '\'') == k);
    assert(strip_trailing(q1, '\'') == k);
    assert(trim_matches(trim(q), '\'') == k);
    assert(bracket_step(q) =~= seq![Step::Field(k)]);
    assert(tokenize(Seq::<char>::empty(), seq![]) =~= Seq::<Step>::empty());
    assert(tokenize(s, seq![]) =~= flush(seq![]) + bracket_step(q) + tokenize(Seq::<char>::empty(), seq![]));
}

/// `c` removed at both ends, repeatedly ([`trim_matches`]).
pub fn trim_quote_chars(a: &Vec<char>, c: char) -> (r: Vec<char>)
    ensures
        r@ == trim_matches(a@, c),
{
    let mut lo: usize = 0;
    proof {
        assert(a@.skip(0) =~= a@);
    }
    while lo < a.len() && a[lo] == c
        invariant
            lo <= a.len(),
            strip_leading(a@, c) == strip_leading(a@.skip(lo as int), c),
        decreases a.len() - lo,
    {
        proof {
            assert(a@.skip(lo as int).drop_first() =~= a@.skip(lo + 1));
        }
        lo += 1;
    }
    let ghost t = a@.skip(lo as int);
    proof {
        assert(strip_leading(t, c) == t);
        assert(t.take(t.len() as int) =~= t);
    }
    let mut hi: usize = a.len();
    while hi > lo && a[hi - 1] == c
        invariant
            lo <= hi <= a.len(),
            t == a@.skip(lo as int),
            strip_trailing(t, c) == strip_trailing(t.take(hi - lo), c),
        decreases hi - lo,
    {
        proof {
            assert(t.take(hi - lo).drop_last() =~= t.take(hi - lo - 1));
            assert(t.take(hi - lo).last() == a@[hi - 1]);
        }
        hi -= 1;
    }
    proof {
        if hi > lo {
            assert(t.take(hi - lo).last() == a@[hi - 1]);
        }
        assert(t.take(hi - lo) =~= a@.subrange(lo as int, hi as int));
    }
    crate::text::slice_chars(a, lo, hi)
}

/// `c` removed at the end, repeatedly ([`strip_trailing`]).
pub fn trim_quote_chars_end(a: &Vec<char>, c: char) -> (r: Vec<char>)
    ensures
        r@ == strip_trailing(a@, c),
{
    let mut hi: usize = a.len();
    proof {
        assert(a@.take(a.len() as int) =~= a@);
    }
    while hi > 0 && a[hi - 1] == c
        invariant
            hi <= a.len(),
            strip_trailing(a@, c) == strip_trailing(a@.take(hi as int), c),
        decreases hi,
    {
        proof {
            assert(a@.take(hi as int).drop_last() =~= a@.take(hi - 1));
            assert(a@.take(hi as int).last() == a@[hi - 1]);
        }
        hi -= 1;
    }
    proof {
        if hi > 0 {
            assert(a@.take(hi as int).last() == a@[hi - 1]);
        }
        assert(a@.take(hi as int) =~= a@.subrange(0, hi as int));
    }
    crate::text::slice_chars(a, 0, hi)
}

fn bracket_steps(inner: &Vec<char>, steps: &mut Vec<PathStep>)
    ensures
        step_views(final(steps)@) == step_views(old(steps)@) + bracket_step(inner@),
{
    let tr = trim_chars(inner);
    let t = trim_quote_chars(&tr, '\'');
    let ghost before = step_views(steps@);
    if t.len() == 1 && t[0] == '*' {
        steps.push(PathStep::Wildcard);
        proof {
            assert(t@ =~= seq!['*']);
            assert(step_views(steps@) =~= before + seq![Step::Wildcard]);
        }
        return;
    }
    proof {
        if t@ == seq!['*'] {
            assert(t@.len() == 1 && t@[0] == '*');
        }
    }
    match parse_usize_chars(&t) {
        Some(i) => {
            steps.push(PathStep::Index(i));
            proof {
                assert(step_views(steps@) =~= before + seq![Step::Index(i as int)]);
            }
        },
        None => {
            if t.len() > 0 {
                steps.push(PathStep::Field(string_of(&t)));
                proof {
                    assert(step_views(steps@) =~= before + seq![Step::Field(t@)]);
                }
            } else {
                proof {
                    assert(step_views(steps@) =~= before + Seq::<Step>::empty());
                }
            }
        },
    }
}

fn flush_field(cur: &mut Vec<char>, steps: &mut Vec<PathStep>)
    ensures
        step_views(final(steps)@) == step_views(old(steps)@) + flush(old(cur)@),
        final(cur)@.len() == 0,
{
    let ghost before = step_views(steps@);
    if cur.len() > 0 {
        let f = string_of(cur);
        steps.push(PathStep::Field(f));
        proof {
            assert(step_views(steps@) =~= before + seq![Step::Field(old(cur)@)]);
        }
    } else {
        proof {
            assert(step_views(steps@) =~= before + Seq::<Step>::empty());
        }
    }
    *cur = Vec::new();
}

/// Splits the rest of a path (after `$` / `$.`) into navigation steps
/// ([`tokenize`]), e.g. `a.b[0].c[*].d` into the fields `a`, `b`, the index
/// 0, the field `c`, a wildcard and the field `d`.
pub fn tokenize_path_steps(rest: &str) -> (r: Vec<PathStep>)
    ensures
        step_views(r@) == tokenize(rest@, seq![]),
{
    let s = chars_of(rest);
    let mut steps: Vec<PathStep> = Vec::new();
    let mut cur: Vec<char> = Vec::new();
    let mut i: usize = 0;
    proof {
        assert(s@.skip(0) =~= s@);
        assert(step_views(steps@) =~= Seq::<Step>::empty());
    }
    while i < s.len()
        invariant
            i <= s.len(),
            step_views(steps@) + tokenize(s@.skip(i as int), cur@) == tokenize(s@, seq![]),
        decreases s.len() - i,
    {
        let c = s[i];
        let ghost sub = s@.skip(i as int);
        proof {
            assert(sub[0] == c);
        }
        if c == '.' {
            let ghost st0 = step_views(steps@);
            let ghost c0 = cur@;
            flush_field(&mut cur, &mut steps);
            i += 1;
            proof {
                assert(sub.drop_first() =~= s@.skip(i as int));
                assert(cur@ =~= Seq::<char>::empty());
                assert(tokenize(sub, c0) == flush(c0) + tokenize(sub.drop_first(), seq![]));
                assert(step_views(steps@) + tokenize(s@.skip(i as int), cur@) =~= st0 + tokenize(
                    sub,
                    c0,
                ));
            }
        } else if c == '[' {
            let ghost st0 = step_views(steps@);
            let ghost c0 = cur@;
            flush_field(&mut cur, &mut steps);
            let mut j: usize = i + 1;
            while j < s.len() && s[j] != ']'
                invariant
                    i + 1 <= j <= s.len(),
                    forall|k: int| i + 1 <= k < j ==> s@[k] != ']',
                decreases s.len() - j,
            {
                j += 1;
            }
            let inner = crate::text::slice_chars(&s, i + 1, j);
            let ghost st1 = step_views(steps@);
            bracket_steps(&inner, &mut steps);
            let ghost t = sub.drop_first();
            proof {
                crate::text::lemma_find(t, ']');
                assert forall|k: int| 0 <= k < j - i - 1 implies t[k] != ']' by {
                    assert(t[k] == s@[k + i + 1]);
                }
                if j < s.len() {
                    assert(t[j - i - 1] == s@[j as int]);
                    assert(bracket_len(t) == j - i - 1);
                } else {
                    assert(bracket_len(t) == t.len());
                }
                assert(t.take(j - i - 1) =~= inner@);
            }
            let next = if j < s.len() {
                j + 1
            } else {
                j
            };
            proof {
                if j < s.len() {
                    assert(t.skip(j - i) =~= s@.skip(next as int));
                } else {
                    assert(s@.skip(next as int) =~= Seq::<char>::empty());
                }
                assert(tokenize(sub, c0) == flush(c0) + bracket_step(t.take(bracket_len(t)))
                    + tokenize(s@.skip(next as int), seq![]));
                assert(cur@ =~= Seq::<char>::empty());
                assert(step_views(steps@) + tokenize(s@.skip(next as int), cur@) =~= st0
                    + tokenize(sub, c0));
            }
            i = next;
        } else {
            let ghost c0 = cur@;
            cur.push(c);
            i += 1;
            proof {
                assert(sub.drop_first() =~= s@.skip(i as int));
                assert(cur@ =~= c0.push(c));
            }
        }
    }
    proof {
        assert(s@.skip(i as int) =~= Seq::<char>::empty());
    }
    let ghost st0 = step_views(steps@);
    let ghost c0 = cur@;
    flush_field(&mut cur, &mut steps);
    proof {
        assert(step_views(steps@) =~= st0 + flush(c0));
    }
    steps
}


// ---------------------------------------------------------------------------
// JSONPath evaluation
// ---------------------------------------------------------------------------

/// Why a path selects nothing.
#[derive(Debug, Clone, Copy, PartialEq, Eq, Structural)]
pub enum PathError {
    /// A field step matched no value.
    NotFound,
    /// An index step matched no value.
    OutOfBounds,
}

/// The value of the first member with the key.
pub open spec fn member_get(ms: Seq<JsonMember>, k: Seq<char>) -> Option<JsonValue>
    decreases ms.len(),
{
    if ms.len() == 0 {
        None
    } else if ms[0].key@ == k {
        Some(ms[0].value)
    } else {
        member_get(ms.drop_first(), k)
    }
}

/// `Value::get(key)`: the member of an object.
pub open spec fn get_field(v: JsonValue, k: Seq<char>) -> Option<JsonValue> {
    match v.kind {
        JsonKind::Object(ms) => member_get(ms@, k),
        _ => None,
    }
}

/// `Value::get(index)`: the element of an array.
pub open spec fn get_index(v: JsonValue, i: int) -> Option<JsonValue> {
    match v.kind {
        JsonKind::Array(a) => if 0 <= i < a@.len() {
            Some(a@[i])
        } else {
            None
        },
        _ => None,
    }
}

pub open spec fn member_values(ms: Seq<JsonMember>) -> Seq<JsonValue> {
    ms.map_values(|m: JsonMember| m.value)
}

/// What a wildcard makes of a value: the elements of an array, the member
/// values of an object, the value itself otherwise.
pub open spec fn wildcard_of(v: JsonValue) -> Seq<JsonValue> {
    match v.kind {
        JsonKind::Array(a) => a@,
        JsonKind::Object(ms) => member_values(ms@),
        _ => seq![v],
    }
}

pub open spec fn opt_seq(o: Option<JsonValue>) -> Seq<JsonValue> {
    match o {
        Some(x) => seq![x],
        None => seq![],
    }
}

/// One step applied to every current value, in order.
pub open spec fn apply_step(cur: Seq<JsonValue>, st: Step) -> Seq<JsonValue>
    decreases cur.len(),
{
    if cur.len() == 0 {
        seq![]
    } else {
        apply_step(cur.drop_last(), st) + match st {
            Step::Field(k) => opt_seq(get_field(cur.last(), k)),
            Step::Index(i) => opt_seq(get_index(cur.last(), i)),
            Step::Wildcard => wildcard_of(cur.last()),
        }
    }
}

/// The steps applied in turn; a field or index step that leaves nothing is
/// an error.
pub open spec fn apply_steps(steps: Seq<Step>, cur: Seq<JsonValue>) -> Result<Seq<JsonValue>, PathError>
    decreases steps.len(),
{
    if steps.len() == 0 {
        Ok(cur)
    } else {
        let next = apply_step(cur, steps[0]);
        match steps[0] {
            Step::Field(_) => if next.len() == 0 {
                Err(PathError::NotFound)
            } else {
                apply_steps(steps.drop_first(), next)
            },
            Step::Index(_) => if next.len() == 0 {
                Err(PathError::OutOfBounds)
            } else {
                apply_steps(steps.drop_first(), next)
            },
            Step::Wildcard => apply_steps(steps.drop_first(), next),
        }
    }
}

/// The path without its `$.` or `$` root.
pub open spec fn path_rest(t: Seq<char>) -> Seq<char> {
    if t.len() >= 2 && t[0] == '$' && t[1] == '.' {
        t.skip(2)
    } else if t.len() >= 1 && t[0] == '$' {
        t.skip(1)
    } else {
        t
    }
}

/// The values a path selects from a value: the value itself for an empty
/// path or a bare root, else the steps of the path applied from it.
pub open spec fn eval_path(v: JsonValue, path: Seq<char>) -> Result<Seq<JsonValue>, PathError> {
    let t = trim(path);
    if t.len() == 0 || path_rest(t).len() == 0 {
        Ok(seq![v])
    } else {
        apply_steps(tokenize(path_rest(t), seq![]), seq![v])
    }
}

/// The values behind a list of references.
pub open spec fn derefs(s: Seq<&JsonValue>) -> Seq<JsonValue> {
    s.map_values(|x: &JsonValue| *x)
}

pub(crate) fn member_lookup<'a>(ms: &'a Vec<JsonMember>, k: &Vec<char>) -> (r: Option<&'a JsonValue>)
    ensures
        match r {
            Some(x) => member_get(ms@, k@) == Some(*x),
            None => member_get(ms@, k@) is None,
        },
{
    let mut i: usize = 0;
    proof {
        assert(ms@.skip(0) =~= ms@);
    }
    while i < ms.len()
        invariant
            i <= ms.len(),
            member_get(ms@, k@) == member_get(ms@.skip(i as int), k@),
        decreases ms.len() - i,
    {
        let key = chars_of(ms[i].key.as_str());
        proof {
            assert(ms@.skip(i as int).drop_first() =~= ms@.skip(i + 1));
            assert(ms@.skip(i as int)[0] == ms@[i as int]);
        }
        if crate::text::seq_eq(&key, k) {
            return Some(&ms[i].value);
        }
        i += 1;
    }
    None
}

fn step_one<'a>(v: &'a JsonValue, st: &PathStep, out: &mut Vec<&'a JsonValue>)
    ensures
        derefs(final(out)@) == derefs(old(out)@) + match st@ {
            Step::Field(k) => opt_seq(get_field(*v, k)),
            Step::Index(i) => opt_seq(get_index(*v, i)),
            Step::Wildcard => wildcard_of(*v),
        },
{
    let ghost before = derefs(out@);
    match st {
        PathStep::Field(name) => {
            let k = chars_of(name.as_str());
            match &v.kind {
                JsonKind::Object(ms) => match member_lookup(ms, &k) {
                    Some(x) => {
                        out.push(x);
                    },
                    None => {},
                },
                _ => {},
            }
            proof {
                assert(derefs(out@) =~= before + opt_seq(get_field(*v, name@)));
            }
        },
        PathStep::Index(i) => {
            match &v.kind {
                JsonKind::Array(a) => {
                    if *i < a.len() {
                        out.push(&a[*i]);
                    }
                },
                _ => {},
            }
            proof {
                assert(derefs(out@) =~= before + opt_seq(get_index(*v, *i as int)));
            }
        },
        PathStep::Wildcard => {
            match &v.kind {
                JsonKind::Array(a) => {
                    let mut j: usize = 0;
                    while j < a.len()
                        invariant
                            j <= a.len(),
                            derefs(out@) == before + a@.take(j as int),
                        decreases a.len() - j,
                    {
                        let ghost d0 = derefs(out@);
                        out.push(&a[j]);
                        j += 1;
                        proof {
                            assert(a@.take(j as int) =~= a@.take(j - 1).push(a@[j - 1]));
                            assert(derefs(out@) =~= d0.push(a@[j - 1]));
                        }
                    }
                    proof {
                        assert(a@.take(a.len() as int) =~= a@);
                    }
                },
                JsonKind::Object(ms) => {
                    let mut j: usize = 0;
                    while j < ms.len()
                        invariant
                            j <= ms.len(),
                            derefs(out@) == before + member_values(ms@.take(j as int)),
                        decreases ms.len() - j,
                    {
                        let ghost d0 = derefs(out@);
                        out.push(&ms[j].value);
                        j += 1;
                        proof {
                            assert(derefs(out@) =~= d0.push(ms@[j - 1].value));
                            assert(member_values(ms@.take(j as int)) =~= member_values(
                                ms@.take(j - 1),
                            ).push(ms@[j - 1].value));
                        }
                    }
                    proof {
                        assert(ms@.take(ms.len() as int) =~= ms@);
                    }
                },
                _ => {
                    out.push(v);
                    proof {
                        assert(derefs(out@) =~= before + seq![*v]);
                    }
                },
            }
        },
    }
}

fn apply_one<'a>(cur: &Vec<&'a JsonValue>, st: &PathStep) -> (r: Vec<&'a JsonValue>)
    ensures
        derefs(r@) == apply_step(derefs(cur@), st@),
{
    let mut out: Vec<&'a JsonValue> = Vec::new();
    let mut i: usize = 0;
    let ghost dc = derefs(cur@);
    proof {
        assert(dc.take(0) =~= Seq::<JsonValue>::empty());
        assert(derefs(out@) =~= Seq::<JsonValue>::empty());
    }
    while i < cur.len()
        invariant
            i <= cur.len(),
            dc == derefs(cur@),
            derefs(out@) == apply_step(dc.take(i as int), st@),
        decreases cur.len() - i,
    {
        proof {
            assert(dc.take(i + 1).drop_last() =~= dc.take(i as int));
            assert(dc.take(i + 1).last() == *cur@[i as int]);
        }
        step_one(cur[i], st, &mut out);
        i += 1;
    }
    proof {
        assert(dc.take(cur.len() as int) =~= dc);
    }
    out
}

/// The values a JSONPath selects from a value ([`eval_path`]): `$.items[*].id`,
/// `$.items[0].name`, `$['key']`, chained at any depth.
pub fn eval_json_path<'a>(value: &'a JsonValue, path: &str) -> (r: Result<Vec<&'a JsonValue>, PathError>)
    ensures
        match r {
            Ok(v) => eval_path(*value, path@) == Ok::<Seq<JsonValue>, PathError>(derefs(v@)),
            Err(e) => eval_path(*value, path@) == Err::<Seq<JsonValue>, PathError>(e),
        },
{
    let p = chars_of(path);
    let t = trim_chars(&p);
    let mut cur: Vec<&'a JsonValue> = Vec::new();
    cur.push(value);
    proof {
        assert(derefs(cur@) =~= seq![*value]);
    }
    if t.len() == 0 {
        return Ok(cur);
    }
    let start: usize = if t.len() >= 2 && t[0] == '$' && t[1] == '.' {
        2
    } else if t.len() >= 1 && t[0] == '$' {
        1
    } else {
        0
    };
    let rest = crate::text::slice_chars(&t, start, t.len());
    proof {
        assert(rest@ =~= path_rest(t@));
    }
    if rest.len() == 0 {
        return Ok(cur);
    }
    let rs = string_of(&rest);
    let steps = tokenize_path_steps(rs.as_str());
    let ghost sv = step_views(steps@);
    let mut i: usize = 0;
    proof {
        assert(sv.skip(0) =~= sv);
    }
    while i < steps.len()
        invariant
            i <= steps.len(),
            sv == step_views(steps@),
            sv == tokenize(path_rest(trim(path@)), seq![]),
            apply_steps(sv.skip(i as int), derefs(cur@)) == eval_path(*value, path@),
        decreases steps.len() - i,
    {
        let next = apply_one(&cur, &steps[i]);
        proof {
            assert(sv.skip(i as int)[0] == steps@[i as int]@);
            assert(sv.skip(i as int).drop_first() =~= sv.skip(i + 1));
        }
        match &steps[i] {
            PathStep::Field(_) => {
                if next.len() == 0 {
                    return Err(PathError::NotFound);
                }
            },
            PathStep::Index(_) => {
                if next.len() == 0 {
                    return Err(PathError::OutOfBounds);
                }
            },
            PathStep::Wildcard => {},
        }
        cur = next;
        i += 1;
    }
    proof {
        assert(sv.skip(i as int) =~= Seq::<Step>::empty());
    }
    Ok(cur)
}


// ---------------------------------------------------------------------------
// Values of JSON items
// ---------------------------------------------------------------------------

/// The text of a field value: a string as it is, `null` as nothing, other
/// values as their JSON text.
pub open spec fn scalar_text(v: JsonValue) -> Seq<char> {
    match v.kind {
        JsonKind::Str(s) => s@,
        JsonKind::Null => seq![],
        _ => v.text@,
    }
}

/// The text of a field value ([`scalar_text`]).
pub fn scalar_to_string(v: &JsonValue) -> (r: String)
    ensures
        r@ == scalar_text(*v),
{
    match &v.kind {
        JsonKind::Str(s) => s.clone(),
        JsonKind::Null => String::new(),
        _ => v.text.clone(),
    }
}

/// Whether a key names an image: its ASCII lower case contains `image`,
/// `img`, `avatar`, `cover` or `photo`.
pub open spec fn image_key(k: Seq<char>) -> bool {
    let l = crate::text::lower(k);
    crate::text::contains(l, "image"@) || crate::text::contains(l, "img"@) || crate::text::contains(
        l,
        "avatar"@,
    ) || crate::text::contains(l, "cover"@) || crate::text::contains(l, "photo"@)
}

/// The strings directly in a value: itself when a string, its string
/// elements when an array.
pub open spec fn direct_strings(v: JsonValue) -> Seq<Seq<char>> {
    match v.kind {
        JsonKind::Str(s) => seq![s@],
        JsonKind::Array(a) => string_elems(a@),
        _ => seq![],
    }
}

pub open spec fn string_elems(a: Seq<JsonValue>) -> Seq<Seq<char>>
    decreases a.len(),
{
    if a.len() == 0 {
        seq![]
    } else {
        string_elems(a.drop_last()) + match a.last().kind {
            JsonKind::Str(s) => seq![s@],
            _ => seq![],
        }
    }
}

/// Image URLs found in a JSON value, depth first: under every key that names
/// an image, its string or its string elements, then what lies below.
pub open spec fn json_images(v: JsonValue) -> Seq<Seq<char>>
    decreases v,
{
    match v.kind {
        JsonKind::Array(a) => list_images(a@),
        JsonKind::Object(ms) => member_images(ms@),
        _ => seq![],
    }
}

pub open spec fn list_images(a: Seq<JsonValue>) -> Seq<Seq<char>>
    decreases a,
{
    if a.len() == 0 {
        seq![]
    } else {
        list_images(a.drop_last()) + json_images(a.last())
    }
}

pub open spec fn member_images(ms: Seq<JsonMember>) -> Seq<Seq<char>>
    decreases ms,
{
    if ms.len() == 0 {
        seq![]
    } else {
        let m = ms.last();
        member_images(ms.drop_last()) + (if image_key(m.key@) {
            direct_strings(m.value)
        } else {
            seq![]
        }) + json_images(m.value)
    }
}


/// The character sequences of a list of strings.
pub open spec fn str_views(s: Seq<String>) -> Seq<Seq<char>> {
    s.map_values(|x: String| x@)
}

fn push_str_view(out: &mut Vec<String>, x: String)
    ensures
        str_views(final(out)@) == str_views(old(out)@).push(x@),
{
    let ghost before = str_views(out@);
    out.push(x);
    proof {
        assert(str_views(out@) =~= before.push(x@));
    }
}

fn is_image_key(k: &String) -> (r: bool)
    ensures
        r == image_key(k@),
{
    let kc = chars_of(k.as_str());
    let l = crate::text::lower_chars(&kc);
    let p1 = chars_of("image");
    let p2 = chars_of("img");
    let p3 = chars_of("avatar");
    let p4 = chars_of("cover");
    let p5 = chars_of("photo");
    crate::text::contains_chars(&l, &p1) || crate::text::contains_chars(&l, &p2)
        || crate::text::contains_chars(&l, &p3) || crate::text::contains_chars(&l, &p4)
        || crate::text::contains_chars(&l, &p5)
}

fn push_direct_strings(v: &JsonValue, out: &mut Vec<String>)
    ensures
        str_views(final(out)@) == str_views(old(out)@) + direct_strings(*v),
{
    let ghost base = str_views(out@);
    match &v.kind {
        JsonKind::Str(s) => {
            push_str_view(out, s.clone());
            proof {
                assert(str_views(out@) =~= base + seq![s@]);
            }
        },
        JsonKind::Array(a) => {
            let mut i: usize = 0;
            proof {
                assert(a@.take(0) =~= Seq::<JsonValue>::empty());
                assert(str_views(out@) =~= base + string_elems(a@.take(0)));
            }
            while i < a.len()
                invariant
                    i <= a.len(),
                    str_views(out@) == base + string_elems(a@.take(i as int)),
                decreases a.len() - i,
            {
                proof {
                    assert(a@.take(i + 1).drop_last() =~= a@.take(i as int));
                    assert(a@.take(i + 1).last() == a@[i as int]);
                }
                let ghost before = str_views(out@);
                match &a[i].kind {
                    JsonKind::Str(s) => {
                        push_str_view(out, s.clone());
                        proof {
                            assert(str_views(out@) =~= before + seq![s@]);
                        }
                    },
                    _ => {
                        proof {
                            assert(str_views(out@) =~= before + Seq::<Seq<char>>::empty());
                        }
                    },
                }
                i += 1;
            }
            proof {
                assert(a@.take(a.len() as int) =~= a@);
            }
        },
        _ => {
            proof {
                assert(str_views(out@) =~= base + Seq::<Seq<char>>::empty());
            }
        },
    }
}

/// Appends the image URLs of a JSON value ([`json_images`]).
pub fn collect_json_images(v: &JsonValue, out: &mut Vec<String>)
    ensures
        str_views(final(out)@) == str_views(old(out)@) + json_images(*v),
    decreases v,
{
    let ghost base = str_views(out@);
    match &v.kind {
        JsonKind::Array(a) => {
            let mut i: usize = 0;
            proof {
                assert(a@.take(0) =~= Seq::<JsonValue>::empty());
                assert(str_views(out@) =~= base + list_images(a@.take(0)));
            }
            while i < a.len()
                invariant
                    i <= a.len(),
                    v.kind == JsonKind::Array(*a),
                    str_views(out@) == base + list_images(a@.take(i as int)),
                decreases a.len() - i,
            {
                proof {
                    assert(a@.take(i + 1).drop_last() =~= a@.take(i as int));
                    assert(a@.take(i + 1).last() == a@[i as int]);
                }
                proof {
                    assert(decreases_to!(*v => v.kind));
                    assert(decreases_to!(v.kind => v.kind->Array_0));
                    assert(v.kind->Array_0 == *a);
                    assert(decreases_to!(*a => a@));
                    assert(decreases_to!(a@ => a@[i as int]));
                }
                collect_json_images(&a[i], out);
                proof {
                    assert(str_views(out@) =~= base + list_images(a@.take(i + 1)));
                }
                i += 1;
            }
            proof {
                assert(a@.take(a.len() as int) =~= a@);
            }
        },
        JsonKind::Object(ms) => {
            let mut i: usize = 0;
            proof {
                assert(ms@.take(0) =~= Seq::<JsonMember>::empty());
                assert(str_views(out@) =~= base + member_images(ms@.take(0)));
            }
            while i < ms.len()
                invariant
                    i <= ms.len(),
                    v.kind == JsonKind::Object(*ms),
                    str_views(out@) == base + member_images(ms@.take(i as int)),
                decreases ms.len() - i,
            {
                proof {
                    assert(ms@.take(i + 1).drop_last() =~= ms@.take(i as int));
                    assert(ms@.take(i + 1).last() == ms@[i as int]);
                }
                let ghost before = str_views(out@);
                if is_image_key(&ms[i].key) {
                    push_direct_strings(&ms[i].value, out);
                } else {
                    proof {
                        assert(str_views(out@) =~= before + Seq::<Seq<char>>::empty());
                    }
                }
                proof {
                    assert(decreases_to!(*v => v.kind));
                    assert(decreases_to!(v.kind => v.kind->Object_0));
                    assert(v.kind->Object_0 == *ms);
                    assert(decreases_to!(*ms => ms@));
                    assert(decreases_to!(ms@ => ms@[i as int]));
                    assert(decreases_to!(ms@[i as int] => ms@[i as int].value));
                }
                collect_json_images(&ms[i].value, out);
                proof {
                    assert(str_views(out@) =~= base + member_images(ms@.take(i + 1)));
                }
                i += 1;
            }
            proof {
                assert(ms@.take(ms.len() as int) =~= ms@);
            }
        },
        _ => {
            proof {
                assert(str_views(out@) =~= base + Seq::<Seq<char>>::empty());
            }
        },
    }
}


// ---------------------------------------------------------------------------
// Fields of an item
// ---------------------------------------------------------------------------

/// Names and values of fields, in order.
pub open spec fn field_pairs(fs: Seq<Field>) -> Seq<(Seq<char>, Seq<char>)> {
    fs.map_values(|f: Field| (f.name@, f.value@))
}

/// A field set as a map insert does it: the value of an existing name
/// replaced in place, a new name added at the end.
pub open spec fn set_pair(ps: Seq<(Seq<char>, Seq<char>)>, k: Seq<char>, v: Seq<char>) -> Seq<
    (Seq<char>, Seq<char>),
>
    decreases ps.len(),
{
    if ps.len() == 0 {
        seq![(k, v)]
    } else if ps[0].0 == k {
        ps.update(0, (k, v))
    } else {
        seq![ps[0]] + set_pair(ps.drop_first(), k, v)
    }
}

proof fn lemma_set_pair_at(ps: Seq<(Seq<char>, Seq<char>)>, k: Seq<char>, v: Seq<char>, i: int)
    requires
        0 <= i < ps.len(),
        ps[i].0 == k,
        forall|j: int| 0 <= j < i ==> ps[j].0 != k,
    ensures
        set_pair(ps, k, v) == ps.update(i, (k, v)),
    decreases i,
{
    if i > 0 {
        lemma_set_pair_at(ps.drop_first(), k, v, i - 1);
        assert(seq![ps[0]] + ps.drop_first().update(i - 1, (k, v)) =~= ps.update(i, (k, v)));
    }
}

proof fn lemma_set_pair_new(ps: Seq<(Seq<char>, Seq<char>)>, k: Seq<char>, v: Seq<char>)
    requires
        forall|j: int| 0 <= j < ps.len() ==> ps[j].0 != k,
    ensures
        set_pair(ps, k, v) == ps.push((k, v)),
    decreases ps.len(),
{
    if ps.len() > 0 {
        lemma_set_pair_new(ps.drop_first(), k, v);
        assert(seq![ps[0]] + ps.drop_first().push((k, v)) =~= ps.push((k, v)));
    }
}

/// Sets a field as a map insert does ([`set_pair`]).
pub fn set_field(fs: &mut Vec<Field>, name: String, value: String)
    ensures
        field_pairs(final(fs)@) == set_pair(field_pairs(old(fs)@), name@, value@),
{
    let ghost ps = field_pairs(fs@);
    let mut i: usize = 0;
    let k = chars_of(name.as_str());
    while i < fs.len()
        invariant
            i <= fs.len(),
            ps == field_pairs(fs@),
            ps == field_pairs(old(fs)@),
            k@ == name@,
            forall|j: int| 0 <= j < i ==> ps[j].0 != name@,
        decreases fs.len() - i,
    {
        let n = chars_of(fs[i].name.as_str());
        if crate::text::seq_eq(&n, &k) {
            let ghost nm = name@;
            let ghost nv = value@;
            proof {
                assert(ps[i as int].0 == nm);
                lemma_set_pair_at(ps, nm, nv, i as int);
            }
            fs.set(i, Field { name, value });
            proof {
                assert(field_pairs(fs@) =~= ps.update(i as int, (nm, nv)));
            }
            return;
        }
        i += 1;
    }
    proof {
        lemma_set_pair_new(ps, name@, value@);
    }
    let ghost nv = value@;
    fs.push(Field { name, value });
    proof {
        assert(field_pairs(fs@) =~= ps.push((k@, nv)));
    }
}

/// A stable id: the `id` field when it is not empty, else the prefix and the
/// item's position.
pub open spec fn id_or_index(fs: Seq<Field>, prefix: Seq<char>, idx: int) -> Seq<char> {
    match lookup(fs, "id"@) {
        Some(x) => if x.len() > 0 {
            x
        } else {
            prefix + crate::text::nat_dec(idx as nat)
        },
        None => prefix + crate::text::nat_dec(idx as nat),
    }
}

fn stable_id_of(fs: &Vec<Field>, prefix: &str, idx: usize) -> (r: String)
    ensures
        r@ == id_or_index(fs@, prefix@, idx as int),
{
    let key = chars_of("id");
    proof {
        reveal_strlit("id");
    }
    match find_field(fs, &key) {
        Some(i) => {
            if !fs[i].value.as_str().is_empty() {
                return fs[i].value.clone();
            }
        },
        None => {},
    }
    let mut out = chars_of(prefix);
    let d = crate::text::u64_dec(idx as u64);
    crate::text::append_chars(&mut out, &d);
    string_of(&out)
}

// ---------------------------------------------------------------------------
// Items of a JSON document
// ---------------------------------------------------------------------------

/// Why extraction failed.
#[derive(Debug, Clone, Copy, PartialEq, Eq, Structural)]
pub enum ExtractError {
    /// The document is not JSON.
    InvalidJson,
    /// The JSONPath selects nothing.
    Path(PathError),
    /// The CSS selector does not parse.
    InvalidSelector,
}

/// The members of an object as fields.
pub open spec fn object_pairs(ms: Seq<JsonMember>) -> Seq<(Seq<char>, Seq<char>)>
    decreases ms.len(),
{
    if ms.len() == 0 {
        seq![]
    } else {
        set_pair(object_pairs(ms.drop_last()), ms.last().key@, scalar_text(ms.last().value))
    }
}

/// The value of a configured field of a JSON item: the first value its path
/// selects, else the member of the same name, as text; empty when missing.
pub open spec fn json_field_value(v: JsonValue, f: ItemField) -> Seq<char> {
    match f.path {
        Some(p) => match eval_path(v, p@) {
            Ok(vs) => if vs.len() > 0 {
                scalar_text(vs[0])
            } else {
                seq![]
            },
            Err(_) => seq![],
        },
        None => match v.kind {
            JsonKind::Object(ms) => match member_get(ms@, f.name@) {
                Some(x) => scalar_text(x),
                None => seq![],
            },
            _ => seq![],
        },
    }
}

pub open spec fn configured_pairs(v: JsonValue, fields: Seq<ItemField>) -> Seq<(Seq<char>, Seq<char>)>
    decreases fields.len(),
{
    if fields.len() == 0 {
        seq![]
    } else {
        set_pair(
            configured_pairs(v, fields.drop_last()),
            fields.last().name@,
            json_field_value(v, fields.last()),
        )
    }
}

/// The fields of a JSON item: every member of an object when no field is
/// configured, else the configured fields.
pub open spec fn json_item_pairs(v: JsonValue, fields: Seq<ItemField>) -> Seq<(Seq<char>, Seq<char>)> {
    if fields.len() == 0 {
        match v.kind {
            JsonKind::Object(ms) => object_pairs(ms@),
            _ => seq![],
        }
    } else {
        configured_pairs(v, fields)
    }
}

/// The item made of the `idx`-th value a path selects.
pub open spec fn json_item_ok(it: Item, v: JsonValue, fields: Seq<ItemField>, idx: int) -> bool {
    &&& field_pairs(it.fields@) == json_item_pairs(v, fields)
    &&& it.stable_id@ == id_or_index(it.fields@, "json-"@, idx)
    &&& str_views(it.image_urls@) == json_images(v)
    &&& it.text@ == v.text@
}

fn json_field_text(v: &JsonValue, f: &ItemField) -> (r: String)
    ensures
        r@ == json_field_value(*v, *f),
{
    match &f.path {
        Some(p) => match eval_json_path(v, p.as_str()) {
            Ok(vs) => {
                if vs.len() > 0 {
                    proof {
                        assert(derefs(vs@)[0] == *vs@[0]);
                    }
                    scalar_to_string(vs[0])
                } else {
                    String::new()
                }
            },
            Err(_) => String::new(),
        },
        None => match &v.kind {
            JsonKind::Object(ms) => {
                let k = chars_of(f.name.as_str());
                match member_lookup(ms, &k) {
                    Some(x) => scalar_to_string(x),
                    None => String::new(),
                }
            },
            _ => String::new(),
        },
    }
}

fn json_item_fields(v: &JsonValue, fields: &[ItemField]) -> (r: Vec<Field>)
    ensures
        field_pairs(r@) == json_item_pairs(*v, fields@),
{
    let mut fs: Vec<Field> = Vec::new();
    if fields.len() == 0 {
        match &v.kind {
            JsonKind::Object(ms) => {
                let mut i: usize = 0;
                proof {
                    assert(ms@.take(0) =~= Seq::<JsonMember>::empty());
                    assert(field_pairs(fs@) =~= object_pairs(ms@.take(0)));
                }
                while i < ms.len()
                    invariant
                        i <= ms.len(),
                        field_pairs(fs@) == object_pairs(ms@.take(i as int)),
                    decreases ms.len() - i,
                {
                    proof {
                        assert(ms@.take(i + 1).drop_last() =~= ms@.take(i as int));
                        assert(ms@.take(i + 1).last() == ms@[i as int]);
                    }
                    let val = scalar_to_string(&ms[i].value);
                    set_field(&mut fs, ms[i].key.clone(), val);
                    i += 1;
                }
                proof {
                    assert(ms@.take(ms.len() as int) =~= ms@);
                }
            },
            _ => {
                proof {
                    assert(field_pairs(fs@) =~= Seq::<(Seq<char>, Seq<char>)>::empty());
                }
            },
        }
        return fs;
    }
    let mut i: usize = 0;
    proof {
        assert(fields@.take(0) =~= Seq::<ItemField>::empty());
        assert(field_pairs(fs@) =~= configured_pairs(*v, fields@.take(0)));
    }
    while i < fields.len()
        invariant
            i <= fields.len(),
            field_pairs(fs@) == configured_pairs(*v, fields@.take(i as int)),
        decreases fields.len() - i,
    {
        proof {
            assert(fields@.take(i + 1).drop_last() =~= fields@.take(i as int));
            assert(fields@.take(i + 1).last() == fields@[i as int]);
        }
        let val = json_field_text(v, &fields[i]);
        set_field(&mut fs, fields[i].name.clone(), val);
        i += 1;
    }
    proof {
        assert(fields@.take(fields.len() as int) =~= fields@);
    }
    fs
}

/// The items of a JSON document: one per value the path selects, with the
/// fields of [`json_item_pairs`], the id of [`id_or_index`] (prefix `json-`),
/// the image URLs of [`json_images`] and the value's JSON text.
pub fn extract_json_items(text: &str, path: &str, fields: &[ItemField]) -> (r: Result<
    Vec<Item>,
    ExtractError,
>)
    ensures
        match json_parse(text@) {
            None => r == Err::<Vec<Item>, ExtractError>(ExtractError::InvalidJson),
            Some(v) => match eval_path(v, path@) {
                Err(e) => r == Err::<Vec<Item>, ExtractError>(ExtractError::Path(e)),
                Ok(ms) => r matches Ok(items) && items@.len() == ms.len() && forall|j: int|
                    0 <= j < ms.len() ==> json_item_ok(#[trigger] items@[j], ms[j], fields@, j),
            },
        },
{
    let value = match parse_json(text) {
        Some(v) => v,
        None => return Err(ExtractError::InvalidJson),
    };
    let matches = match eval_json_path(&value, path) {
        Ok(m) => m,
        Err(e) => return Err(ExtractError::Path(e)),
    };
    let ghost ms = derefs(matches@);
    let mut items: Vec<Item> = Vec::new();
    let mut idx: usize = 0;
    while idx < matches.len()
        invariant
            idx <= matches.len(),
            ms == derefs(matches@),
            items@.len() == idx,
            forall|j: int| 0 <= j < idx ==> json_item_ok(#[trigger] items@[j], ms[j], fields@, j),
        decreases matches.len() - idx,
    {
        let v = matches[idx];
        let fs = json_item_fields(v, fields);
        let sid = stable_id_of(&fs, "json-", idx);
        let mut imgs: Vec<String> = Vec::new();
        proof {
            assert(str_views(imgs@) =~= Seq::<Seq<char>>::empty());
        }
        collect_json_images(v, &mut imgs);
        let it = Item { stable_id: sid, fields: fs, image_urls: imgs, text: v.text.clone() };
        proof {
            assert(ms[idx as int] == *v);
            assert(str_views(it.image_urls@) =~= json_images(*v));
            assert(json_item_ok(it, ms[idx as int], fields@, idx as int));
        }
        items.push(it);
        idx += 1;
    }
    Ok(items)
}


// ---------------------------------------------------------------------------
// HTML documents
// ---------------------------------------------------------------------------

/// An HTML element as the extraction reads it.
pub struct HtmlElement {
    /// Local tag name.
    pub name: String,
    /// The values of the attributes asked for, in the order asked.
    pub attrs: Vec<Option<String>>,
    /// The descendant text nodes, in document order.
    pub texts: Vec<String>,
}

/// An element matched by a selector, with what the extraction reads around it.
pub struct CssMatch {
    pub element: HtmlElement,
    /// For each inner selector asked for: its matches among the element's
    /// descendants, `None` when the selector does not parse.
    pub inner: Vec<Option<Vec<HtmlElement>>>,
    /// The element children of the parent when the parent is an element, each
    /// flagged when it is the matched element itself.
    pub parent_children: Vec<(bool, HtmlElement)>,
}

/// Whether `scraper::Selector::parse` accepts a selector.
pub uninterp spec fn css_selector_valid(selector: Seq<char>) -> bool;

/// How many elements `Html::select` yields for a selector on a document.
pub uninterp spec fn css_match_count(html: Seq<char>, selector: Seq<char>) -> nat;

/// The elements a selector matches on a document, in document order, each
/// with the element children of its parent (flagged when it is the element
/// itself; none when the parent is not an element), elements read with the
/// given attributes.
pub uninterp spec fn css_selected(html: Seq<char>, selector: Seq<char>, attrs: Seq<Seq<char>>) -> Seq<
    (HtmlElement, Vec<(bool, HtmlElement)>),
>;

/// For each element a selector matches, the matches of each inner selector
/// among its descendants (`None` for an inner selector that does not parse).
pub uninterp spec fn css_inner_matches(
    html: Seq<char>,
    selector: Seq<char>,
    inner: Seq<Seq<char>>,
    attrs: Seq<Seq<char>>,
) -> Seq<Vec<Option<Vec<HtmlElement>>>>;

/// `Html::parse_document`, `Selector::parse`, `select`, and for each match
/// `parent` and `child_elements`, elements read with `value().name()`,
/// `attr(..)` and `text()`; named by [`css_selected`].
#[verifier::external_body]
fn css_select(html: &str, selector: &str, attrs: &Vec<String>) -> (r: Option<
    Vec<(HtmlElement, Vec<(bool, HtmlElement)>)>,
>)
    ensures
        r is Some <==> css_selector_valid(selector@),
        r matches Some(v) ==> v@ == css_selected(html@, selector@, str_views(attrs@)) && v@.len()
            == css_match_count(html@, selector@),
{
    let s = Selector::parse(selector).ok()?;
    let el = |e: ElementRef| HtmlElement { name: e.value().name().into(), attrs: attrs.iter().map(|a| e.attr(a).map(String::from)).collect(), texts: e.text().map(String::from).collect() };
    Some(Html::parse_document(html).select(&s).map(|e| (el(e), e.parent().and_then(ElementRef::wrap).map_or(Vec::new(), |p| p.child_elements().map(|c| (c.id() == e.id(), el(c))).collect()))).collect())
}

/// `Html::parse_document`, `Selector::parse`, `select`, and for each match
/// `ElementRef::select` with each inner selector; named by
/// [`css_inner_matches`].
#[verifier::external_body]
fn css_inner(html: &str, selector: &str, inner: &Vec<String>, attrs: &Vec<String>) -> (r: Option<
    Vec<Vec<Option<Vec<HtmlElement>>>>,
>)
    ensures
        r is Some <==> css_selector_valid(selector@),
        r matches Some(v) ==> v@ == css_inner_matches(html@, selector@, str_views(inner@), str_views(attrs@))
            && v@.len() == css_match_count(html@, selector@),
{
    let s = Selector::parse(selector).ok()?;
    let ins: Vec<_> = inner.iter().map(|x| Selector::parse(x).ok()).collect();
    let el = |e: ElementRef| HtmlElement { name: e.value().name().into(), attrs: attrs.iter().map(|a| e.attr(a).map(String::from)).collect(), texts: e.text().map(String::from).collect() };
    Some(Html::parse_document(html).select(&s).map(|e| ins.iter().map(|o| o.as_ref().map(|x| e.select(x).map(el).collect())).collect()).collect())
}

/// What the extraction reads of a document for a selector: `None` when the
/// selector does not parse, else each match in document order with its inner
/// matches and the children of its parent.
pub open spec fn css_query(
    html: Seq<char>,
    selector: Seq<char>,
    inner: Seq<Seq<char>>,
    attrs: Seq<Seq<char>>,
) -> Option<Seq<CssMatch>> {
    if !css_selector_valid(selector) {
        None
    } else {
        let a = css_selected(html, selector, attrs);
        let b = css_inner_matches(html, selector, inner, attrs);
        Some(
            Seq::new(
                css_match_count(html, selector),
                |j: int| CssMatch { element: a[j].0, inner: b[j], parent_children: a[j].1 },
            ),
        )
    }
}

/// Queries a document ([`css_query`]).
pub(crate) fn css_query_doc(html: &str, selector: &str, inner: &Vec<String>, attrs: &Vec<String>) -> (r: Option<
    Vec<CssMatch>,
>)
    ensures
        match r {
            Some(v) => css_query(html@, selector@, str_views(inner@), str_views(attrs@)) == Some(v@),
            None => css_query(html@, selector@, str_views(inner@), str_views(attrs@)) is None,
        },
{
    let a = match css_select(html, selector, attrs) {
        Some(a) => a,
        None => return None,
    };
    let b = match css_inner(html, selector, inner, attrs) {
        Some(b) => b,
        None => return None,
    };
    let ghost av = a@;
    let ghost bv = b@;
    let mut a = a;
    let mut b = b;
    let mut out: Vec<CssMatch> = Vec::new();
    let n = a.len();
    while a.len() > 0
        invariant
            a.len() == b.len(),
            a.len() <= n,
            n == av.len(),
            av.len() == bv.len(),
            a@ == av.take(a.len() as int),
            b@ == bv.take(b.len() as int),
            out@.len() == n - a.len(),
            forall|k: int|
                0 <= k < out@.len() ==> #[trigger] out@[k] == (CssMatch {
                    element: av[n - 1 - k].0,
                    inner: bv[n - 1 - k],
                    parent_children: av[n - 1 - k].1,
                }),
        decreases a.len(),
    {
        let (e, pc) = a.pop().unwrap();
        let ins = b.pop().unwrap();
        proof {
            assert(av.take(a.len() + 1).last() == (e, pc));
            assert(bv.take(b.len() + 1).last() == ins);
            assert(av.take(a.len() + 1).drop_last() =~= av.take(a.len() as int));
            assert(bv.take(b.len() + 1).drop_last() =~= bv.take(b.len() as int));
        }
        out.push(CssMatch { element: e, inner: ins, parent_children: pc });
    }
    let mut rev: Vec<CssMatch> = Vec::new();
    while out.len() > 0
        invariant
            out@.len() + rev@.len() == n,
            n == av.len(),
            av.len() == bv.len(),
            forall|k: int|
                0 <= k < out@.len() ==> #[trigger] out@[k] == (CssMatch {
                    element: av[n - 1 - k].0,
                    inner: bv[n - 1 - k],
                    parent_children: av[n - 1 - k].1,
                }),
            forall|k: int|
                0 <= k < rev@.len() ==> #[trigger] rev@[k] == (CssMatch {
                    element: av[k].0,
                    inner: bv[k],
                    parent_children: av[k].1,
                }),
        decreases out.len(),
    {
        let m = out.pop().unwrap();
        rev.push(m);
    }
    proof {
        let q = css_query(html@, selector@, str_views(inner@), str_views(attrs@));
        assert(q == Some(rev@));
    }
    Some(rev)
}

/// The text of an element: its text nodes joined with a space, trimmed.
pub open spec fn element_text(e: HtmlElement) -> Seq<char> {
    trim(crate::text::join(str_views(e.texts@), " "@))
}

pub(crate) fn element_text_of(e: &HtmlElement) -> (r: String)
    ensures
        r@ == element_text(*e),
{
    let parts = crate::text::chars_of_all(e.texts.as_slice());
    let sep = chars_of(" ");
    proof {
        assert(crate::text::views(parts@) =~= str_views(e.texts@));
    }
    let j = crate::text::join_chars(&parts, &sep);
    let t = trim_chars(&j);
    string_of(&t)
}

/// The value in an attribute slot, as a list of at most one.
pub open spec fn slot(e: HtmlElement, i: int) -> Seq<Seq<char>> {
    if 0 <= i < e.attrs@.len() {
        match e.attrs@[i] {
            Some(v) => seq![v@],
            None => seq![],
        }
    } else {
        seq![]
    }
}

/// The image attributes present on an element (`src`, `data-src`,
/// `data-lazy-src`, the first three slots), all of them.
pub open spec fn present_attrs(e: HtmlElement) -> Seq<Seq<char>> {
    slot(e, 0) + slot(e, 1) + slot(e, 2)
}

/// The first image attribute present on an element.
pub open spec fn first_attr(e: HtmlElement) -> Seq<Seq<char>> {
    if slot(e, 0).len() > 0 {
        slot(e, 0)
    } else if slot(e, 1).len() > 0 {
        slot(e, 1)
    } else {
        slot(e, 2)
    }
}

/// Every image attribute of every element, in order.
pub open spec fn imgs_present(l: Seq<HtmlElement>) -> Seq<Seq<char>>
    decreases l.len(),
{
    if l.len() == 0 {
        seq![]
    } else {
        imgs_present(l.drop_last()) + present_attrs(l.last())
    }
}

/// The image URLs inside a matched element: its `<img>` descendants (the
/// first inner selector), every image attribute of each.
pub open spec fn element_imgs(m: CssMatch) -> Seq<Seq<char>> {
    if m.inner@.len() > 0 {
        match m.inner@[0] {
            Some(l) => imgs_present(l@),
            None => seq![],
        }
    } else {
        seq![]
    }
}

/// The direct `<img>` siblings of a matched element, the first image
/// attribute of each.
pub open spec fn sibling_imgs(pc: Seq<(bool, HtmlElement)>) -> Seq<Seq<char>>
    decreases pc.len(),
{
    if pc.len() == 0 {
        seq![]
    } else {
        let c = pc.last();
        sibling_imgs(pc.drop_last()) + if !c.0 && c.1.name@ == "img"@ {
            first_attr(c.1)
        } else {
            seq![]
        }
    }
}

fn push_slot(e: &HtmlElement, i: usize, out: &mut Vec<String>)
    ensures
        str_views(final(out)@) == str_views(old(out)@) + slot(*e, i as int),
{
    let ghost before = str_views(out@);
    if i < e.attrs.len() {
        match &e.attrs[i] {
            Some(v) => {
                push_str_view(out, v.clone());
                proof {
                    assert(str_views(out@) =~= before + seq![v@]);
                }
            },
            None => {
                proof {
                    assert(str_views(out@) =~= before + Seq::<Seq<char>>::empty());
                }
            },
        }
    } else {
        proof {
            assert(str_views(out@) =~= before + Seq::<Seq<char>>::empty());
        }
    }
}

fn has_slot(e: &HtmlElement, i: usize) -> (r: bool)
    ensures
        r == (slot(*e, i as int).len() > 0),
{
    i < e.attrs.len() && e.attrs[i].is_some()
}

fn push_present(e: &HtmlElement, out: &mut Vec<String>)
    ensures
        str_views(final(out)@) == str_views(old(out)@) + present_attrs(*e),
{
    let ghost before = str_views(out@);
    push_slot(e, 0, out);
    push_slot(e, 1, out);
    push_slot(e, 2, out);
    proof {
        assert(str_views(out@) =~= before + present_attrs(*e));
    }
}

fn push_first(e: &HtmlElement, out: &mut Vec<String>)
    ensures
        str_views(final(out)@) == str_views(old(out)@) + first_attr(*e),
{
    if has_slot(e, 0) {
        push_slot(e, 0, out);
    } else if has_slot(e, 1) {
        push_slot(e, 1, out);
    } else {
        push_slot(e, 2, out);
    }
}

fn push_element_imgs(m: &CssMatch, out: &mut Vec<String>)
    ensures
        str_views(final(out)@) == str_views(old(out)@) + element_imgs(*m),
{
    let ghost base = str_views(out@);
    if m.inner.len() > 0 {
        match &m.inner[0] {
            Some(l) => {
                let mut i: usize = 0;
                proof {
                    assert(l@.take(0) =~= Seq::<HtmlElement>::empty());
                    assert(str_views(out@) =~= base + imgs_present(l@.take(0)));
                }
                while i < l.len()
                    invariant
                        i <= l.len(),
                        str_views(out@) == base + imgs_present(l@.take(i as int)),
                    decreases l.len() - i,
                {
                    proof {
                        assert(l@.take(i + 1).drop_last() =~= l@.take(i as int));
                        assert(l@.take(i + 1).last() == l@[i as int]);
                    }
                    push_present(&l[i], out);
                    i += 1;
                }
                proof {
                    assert(l@.take(l.len() as int) =~= l@);
                }
            },
            None => {
                proof {
                    assert(str_views(out@) =~= base + Seq::<Seq<char>>::empty());
                }
            },
        }
    } else {
        proof {
            assert(str_views(out@) =~= base + Seq::<Seq<char>>::empty());
        }
    }
}

fn is_img(e: &HtmlElement) -> (r: bool)
    ensures
        r == (e.name@ == "img"@),
{
    let n = chars_of(e.name.as_str());
    let img = chars_of("img");
    crate::text::seq_eq(&n, &img)
}

fn push_sibling_imgs(pc: &Vec<(bool, HtmlElement)>, out: &mut Vec<String>)
    ensures
        str_views(final(out)@) == str_views(old(out)@) + sibling_imgs(pc@),
{
    let ghost base = str_views(out@);
    let mut i: usize = 0;
    proof {
        assert(pc@.take(0) =~= Seq::<(bool, HtmlElement)>::empty());
        assert(str_views(out@) =~= base + sibling_imgs(pc@.take(0)));
    }
    while i < pc.len()
        invariant
            i <= pc.len(),
            str_views(out@) == base + sibling_imgs(pc@.take(i as int)),
        decreases pc.len() - i,
    {
        proof {
            assert(pc@.take(i + 1).drop_last() =~= pc@.take(i as int));
            assert(pc@.take(i + 1).last() == pc@[i as int]);
        }
        let ghost before = str_views(out@);
        if !pc[i].0 && is_img(&pc[i].1) {
            push_first(&pc[i].1, out);
        } else {
            proof {
                assert(str_views(out@) =~= before + Seq::<Seq<char>>::empty());
            }
        }
        i += 1;
    }
    proof {
        assert(pc@.take(pc.len() as int) =~= pc@);
    }
}

/// Each string once, at its first place.
pub open spec fn dedupe(s: Seq<Seq<char>>) -> Seq<Seq<char>>
    decreases s.len(),
{
    if s.len() == 0 {
        seq![]
    } else {
        let prev = dedupe(s.drop_last());
        if prev.contains(s.last()) {
            prev
        } else {
            prev.push(s.last())
        }
    }
}

fn str_listed(v: &[String], x: &Vec<char>) -> (r: bool)
    ensures
        r == str_views(v@).contains(x@),
{
    let mut j: usize = 0;
    while j < v.len()
        invariant
            j <= v.len(),
            forall|k: int| 0 <= k < j ==> v@[k]@ != x@,
        decreases v.len() - j,
    {
        let c = chars_of(v[j].as_str());
        if crate::text::seq_eq(&c, x) {
            proof {
                assert(str_views(v@)[j as int] == x@);
            }
            return true;
        }
        j += 1;
    }
    proof {
        let m = str_views(v@);
        if m.contains(x@) {
            let k = choose|k: int| 0 <= k < m.len() && #[trigger] m[k] == x@;
            assert(v@[k]@ == x@);
        }
    }
    false
}

/// URLs without repeats, first occurrences kept in order ([`dedupe`]).
pub fn dedupe_urls(urls: Vec<String>) -> (r: Vec<String>)
    ensures
        str_views(r@) == dedupe(str_views(urls@)),
{
    let ghost all = str_views(urls@);
    let mut out: Vec<String> = Vec::new();
    let mut i: usize = 0;
    proof {
        assert(all.take(0) =~= Seq::<Seq<char>>::empty());
        assert(str_views(out@) =~= dedupe(all.take(0)));
    }
    while i < urls.len()
        invariant
            i <= urls.len(),
            all == str_views(urls@),
            str_views(out@) == dedupe(all.take(i as int)),
        decreases urls.len() - i,
    {
        proof {
            assert(all.take(i + 1).drop_last() =~= all.take(i as int));
            assert(all.take(i + 1).last() == urls@[i as int]@);
        }
        let c = chars_of(urls[i].as_str());
        if !str_listed(out.as_slice(), &c) {
            push_str_view(&mut out, urls[i].clone());
        }
        i += 1;
    }
    proof {
        assert(all.take(urls.len() as int) =~= all);
    }
    out
}


// ---------------------------------------------------------------------------
// Items of an HTML document
// ---------------------------------------------------------------------------

/// The inner selectors asked for items: `img`, then each field's selector
/// (empty when it has none).
pub open spec fn inner_list(fields: Seq<ItemField>) -> Seq<Seq<char>> {
    seq!["img"@] + fields.map_values(
        |f: ItemField|
            match f.selector {
                Some(x) => x@,
                None => seq![],
            },
    )
}

/// The attributes asked for items: the three image attributes, then each
/// field's attribute (empty when it has none).
pub open spec fn attr_list(fields: Seq<ItemField>) -> Seq<Seq<char>> {
    seq!["src"@, "data-src"@, "data-lazy-src"@] + fields.map_values(
        |f: ItemField|
            match f.attr {
                Some(x) => x@,
                None => seq![],
            },
    )
}

/// The value of the `k`-th configured field of a matched element: its
/// attribute when set and present, else the text of the first match of its
/// selector when set and matching, else the element's text.
pub open spec fn css_field_value(m: CssMatch, f: ItemField, k: int) -> Seq<char> {
    let a = slot(m.element, 3 + k);
    if f.attr is Some && a.len() > 0 {
        a[0]
    } else if f.selector is Some && 1 + k < m.inner@.len() && (m.inner@[1 + k] matches Some(l)
        && l@.len() > 0) {
        element_text(m.inner@[1 + k]->0@[0])
    } else {
        element_text(m.element)
    }
}

pub open spec fn css_configured_pairs(m: CssMatch, fields: Seq<ItemField>) -> Seq<
    (Seq<char>, Seq<char>),
>
    decreases fields.len(),
{
    if fields.len() == 0 {
        seq![]
    } else {
        let k = fields.len() - 1;
        set_pair(
            css_configured_pairs(m, fields.drop_last()),
            fields[k].name@,
            css_field_value(m, fields[k], k),
        )
    }
}

/// The fields of an HTML item: `text`, the element's text, when no field is
/// configured; else the configured fields.
pub open spec fn css_item_pairs(m: CssMatch, fields: Seq<ItemField>) -> Seq<(Seq<char>, Seq<char>)> {
    if fields.len() == 0 {
        seq![("text"@, element_text(m.element))]
    } else {
        css_configured_pairs(m, fields)
    }
}

/// The text of an HTML item: its `title` field, else its `text` field.
pub open spec fn css_item_text(fs: Seq<Field>) -> Seq<char> {
    match lookup(fs, "title"@) {
        Some(t) => t,
        None => match lookup(fs, "text"@) {
            Some(t) => t,
            None => seq![],
        },
    }
}

/// The item made of the `idx`-th matched element.
pub open spec fn css_item_ok(it: Item, m: CssMatch, fields: Seq<ItemField>, idx: int) -> bool {
    &&& field_pairs(it.fields@) == css_item_pairs(m, fields)
    &&& it.stable_id@ == id_or_index(it.fields@, "item-"@, idx)
    &&& str_views(it.image_urls@) == element_imgs(m)
    &&& it.text@ == css_item_text(it.fields@)
}

fn query_lists(fields: &[ItemField]) -> (r: (Vec<String>, Vec<String>))
    ensures
        str_views(r.0@) == inner_list(fields@),
        str_views(r.1@) == attr_list(fields@),
{
    let mut inner: Vec<String> = Vec::new();
    let mut attrs: Vec<String> = Vec::new();
    push_str_view(&mut inner, crate::config::str_to_string("img"));
    push_str_view(&mut attrs, crate::config::str_to_string("src"));
    push_str_view(&mut attrs, crate::config::str_to_string("data-src"));
    push_str_view(&mut attrs, crate::config::str_to_string("data-lazy-src"));
    let ghost i0 = str_views(inner@);
    let ghost a0 = str_views(attrs@);
    let mut i: usize = 0;
    while i < fields.len()
        invariant
            i <= fields.len(),
            i0 == seq!["img"@],
            a0 == seq!["src"@, "data-src"@, "data-lazy-src"@],
            str_views(inner@) == i0 + fields@.take(i as int).map_values(
                |f: ItemField|
                    match f.selector {
                        Some(x) => x@,
                        None => seq![],
                    },
            ),
            str_views(attrs@) == a0 + fields@.take(i as int).map_values(
                |f: ItemField|
                    match f.attr {
                        Some(x) => x@,
                        None => seq![],
                    },
            ),
        decreases fields.len() - i,
    {
        let sel = match &fields[i].selector {
            Some(x) => x.clone(),
            None => String::new(),
        };
        let at = match &fields[i].attr {
            Some(x) => x.clone(),
            None => String::new(),
        };
        push_str_view(&mut inner, sel);
        push_str_view(&mut attrs, at);
        i += 1;
        proof {
            assert(fields@.take(i as int) =~= fields@.take(i - 1).push(fields@[i - 1]));
        }
    }
    proof {
        assert(fields@.take(fields.len() as int) =~= fields@);
    }
    (inner, attrs)
}

fn css_field_text(m: &CssMatch, f: &ItemField, k: usize) -> (r: String)
    requires
        k + 3 <= usize::MAX,
    ensures
        r@ == css_field_value(*m, *f, k as int),
{
    if f.attr.is_some() && has_slot(&m.element, 3 + k) {
        match &m.element.attrs[3 + k] {
            Some(v) => return v.clone(),
            None => {},
        }
    }
    if f.selector.is_some() && 1 + k < m.inner.len() {
        match &m.inner[1 + k] {
            Some(l) => {
                if l.len() > 0 {
                    return element_text_of(&l[0]);
                }
            },
            None => {},
        }
    }
    element_text_of(&m.element)
}

fn css_item(m: &CssMatch, fields: &[ItemField], idx: usize) -> (r: Item)
    requires
        fields@.len() + 3 <= usize::MAX,
    ensures
        css_item_ok(r, *m, fields@, idx as int),
{
    let mut fs: Vec<Field> = Vec::new();
    if fields.len() == 0 {
        let t = element_text_of(&m.element);
        set_field(&mut fs, crate::config::str_to_string("text"), t);
        proof {
            assert(field_pairs(Seq::<Field>::empty()) =~= Seq::<(Seq<char>, Seq<char>)>::empty());
        }
    } else {
        let mut i: usize = 0;
        proof {
            assert(fields@.take(0) =~= Seq::<ItemField>::empty());
            assert(field_pairs(fs@) =~= css_configured_pairs(*m, fields@.take(0)));
        }
        while i < fields.len()
            invariant
                i <= fields.len(),
                fields@.len() + 3 <= usize::MAX,
                field_pairs(fs@) == css_configured_pairs(*m, fields@.take(i as int)),
            decreases fields.len() - i,
        {
            proof {
                assert(fields@.take(i + 1).drop_last() =~= fields@.take(i as int));
                assert(fields@.take(i + 1)[i as int] == fields@[i as int]);
            }
            let v = css_field_text(m, &fields[i], i);
            set_field(&mut fs, fields[i].name.clone(), v);
            i += 1;
        }
        proof {
            assert(fields@.take(fields.len() as int) =~= fields@);
        }
    }
    let sid = stable_id_of(&fs, "item-", idx);
    let mut imgs: Vec<String> = Vec::new();
    proof {
        assert(str_views(imgs@) =~= Seq::<Seq<char>>::empty());
    }
    push_element_imgs(m, &mut imgs);
    let title_k = chars_of("title");
    let text_k = chars_of("text");
    proof {
        reveal_strlit("title");
        reveal_strlit("text");
    }
    let text = match find_field(&fs, &title_k) {
        Some(i) => fs[i].value.clone(),
        None => match find_field(&fs, &text_k) {
            Some(i) => fs[i].value.clone(),
            None => String::new(),
        },
    };
    proof {
        assert(str_views(imgs@) =~= element_imgs(*m));
    }
    Item { stable_id: sid, fields: fs, image_urls: imgs, text }
}

/// The items of an HTML document: one per element the selector matches, with
/// the fields of [`css_item_pairs`], the id of [`id_or_index`] (prefix
/// `item-`), the image URLs inside the element, and the `title` (else `text`)
/// field as text. A selector that does not parse is refused.
pub fn extract_css_items(html: &str, selector: &str, fields: &[ItemField]) -> (r: Result<
    Vec<Item>,
    ExtractError,
>)
    requires
        fields@.len() + 3 <= usize::MAX,
    ensures
        match css_query(html@, selector@, inner_list(fields@), attr_list(fields@)) {
            None => r == Err::<Vec<Item>, ExtractError>(ExtractError::InvalidSelector),
            Some(ms) => r matches Ok(items) && items@.len() == ms.len() && forall|j: int|
                0 <= j < ms.len() ==> css_item_ok(#[trigger] items@[j], ms[j], fields@, j),
        },
{
    let (inner, attrs) = query_lists(fields);
    let matches = match css_query_doc(html, selector, &inner, &attrs) {
        Some(m) => m,
        None => return Err(ExtractError::InvalidSelector),
    };
    let mut items: Vec<Item> = Vec::new();
    let mut idx: usize = 0;
    while idx < matches.len()
        invariant
            idx <= matches.len(),
            fields@.len() + 3 <= usize::MAX,
            items@.len() == idx,
            forall|j: int| 0 <= j < idx ==> css_item_ok(#[trigger] items@[j], matches@[j], fields@, j),
        decreases matches.len() - idx,
    {
        let it = css_item(&matches[idx], fields, idx);
        items.push(it);
        idx += 1;
    }
    Ok(items)
}


// ---------------------------------------------------------------------------
// Documents
// ---------------------------------------------------------------------------

/// The part of a header value before its first `;`.
pub open spec fn before_semicolon(s: Seq<char>) -> Seq<char> {
    match find(s, ';') {
        Some(i) => s.take(i),
        None => s,
    }
}

/// Whether a document is HTML: by its content type when it has one (the
/// lower-cased media type is `text/html` or ends with `/xhtml+xml`), else by
/// its text starting with `<` after white space.
pub open spec fn is_html(content_type: Option<String>, text: Seq<char>) -> bool {
    match content_type {
        Some(ct) => {
            let media = crate::text::lower(trim(before_semicolon(ct@)));
            media == "text/html"@ || crate::text::ends_with(media, "/xhtml+xml"@)
        },
        None => {
            let t = crate::text::trim_start(text);
            t.len() > 0 && t[0] == '<'
        },
    }
}

/// Whether a fetched document is HTML ([`is_html`]). The media type is
/// compared in ASCII lower case, which for these names decides as Unicode
/// lower-casing does.
pub fn is_html_doc(doc: &FetchedDocument) -> (r: bool)
    ensures
        r == is_html(doc.content_type, doc.text@),
{
    match &doc.content_type {
        Some(ct) => {
            let c = chars_of(ct.as_str());
            let head = match crate::text::find_char(&c, ';') {
                Some(i) => crate::text::slice_chars(&c, 0, i),
                None => c,
            };
            proof {
                assert(head@ =~= before_semicolon(ct@));
            }
            let t = trim_chars(&head);
            let m = crate::text::lower_chars(&t);
            let html = chars_of("text/html");
            let xhtml = chars_of("/xhtml+xml");
            crate::text::seq_eq(&m, &html) || crate::text::ends_with_chars(&m, &xhtml)
        },
        None => {
            let c = chars_of(doc.text.as_str());
            let mut i: usize = 0;
            proof {
                assert(c@.skip(0) =~= c@);
            }
            while i < c.len() && crate::text::char_is_ws(c[i])
                invariant
                    i <= c.len(),
                    crate::text::trim_start(c@) == crate::text::trim_start(c@.skip(i as int)),
                decreases c.len() - i,
            {
                proof {
                    assert(c@.skip(i as int).drop_first() =~= c@.skip(i + 1));
                }
                i += 1;
            }
            proof {
                if i < c.len() {
                    assert(c@.skip(i as int)[0] == c@[i as int]);
                } else {
                    assert(c@.skip(i as int) =~= Seq::<char>::empty());
                }
            }
            i < c.len() && c[i] == '<'
        },
    }
}

/// The image attributes of matched elements: the first one of an `<img>`,
/// every one of the `<img>` elements inside any other element.
pub open spec fn match_imgs(ms: Seq<CssMatch>) -> Seq<Seq<char>>
    decreases ms.len(),
{
    if ms.len() == 0 {
        seq![]
    } else {
        let m = ms.last();
        match_imgs(ms.drop_last()) + if m.element.name@ == "img"@ {
            first_attr(m.element)
        } else {
            element_imgs(m)
        }
    }
}

/// The images a CSS image selector picks on a page, without repeats.
pub open spec fn doc_css_images(html: Seq<char>, selector: Seq<char>) -> Seq<Seq<char>> {
    match css_query(html, selector, seq!["img"@], seq!["src"@, "data-src"@, "data-lazy-src"@]) {
        None => seq![],
        Some(ms) => dedupe(match_imgs(ms)),
    }
}

fn img_query_lists() -> (r: (Vec<String>, Vec<String>))
    ensures
        str_views(r.0@) == seq!["img"@],
        str_views(r.1@) == seq!["src"@, "data-src"@, "data-lazy-src"@],
{
    let mut inner: Vec<String> = Vec::new();
    let mut attrs: Vec<String> = Vec::new();
    push_str_view(&mut inner, crate::config::str_to_string("img"));
    push_str_view(&mut attrs, crate::config::str_to_string("src"));
    push_str_view(&mut attrs, crate::config::str_to_string("data-src"));
    push_str_view(&mut attrs, crate::config::str_to_string("data-lazy-src"));
    proof {
        assert(str_views(inner@) =~= seq!["img"@]);
        assert(str_views(attrs@) =~= seq!["src"@, "data-src"@, "data-lazy-src"@]);
    }
    (inner, attrs)
}

fn collect_img_urls_from_doc(html: &str, selector: &str) -> (r: Vec<String>)
    ensures
        str_views(r@) == doc_css_images(html@, selector@),
{
    let (inner, attrs) = img_query_lists();
    let ms = match css_query_doc(html, selector, &inner, &attrs) {
        Some(m) => m,
        None => {
            let e: Vec<String> = Vec::new();
            proof {
                assert(str_views(e@) =~= Seq::<Seq<char>>::empty());
            }
            return e;
        },
    };
    let mut urls: Vec<String> = Vec::new();
    let mut i: usize = 0;
    proof {
        assert(ms@.take(0) =~= Seq::<CssMatch>::empty());
        assert(str_views(urls@) =~= match_imgs(ms@.take(0)));
    }
    while i < ms.len()
        invariant
            i <= ms.len(),
            str_views(urls@) == match_imgs(ms@.take(i as int)),
        decreases ms.len() - i,
    {
        proof {
            assert(ms@.take(i + 1).drop_last() =~= ms@.take(i as int));
            assert(ms@.take(i + 1).last() == ms@[i as int]);
        }
        if is_img(&ms[i].element) {
            push_first(&ms[i].element, &mut urls);
        } else {
            push_element_imgs(&ms[i], &mut urls);
        }
        i += 1;
    }
    proof {
        assert(ms@.take(ms.len() as int) =~= ms@);
    }
    dedupe_urls(urls)
}

/// The image URLs of all items, in order.
pub open spec fn item_image_list(items: Seq<Item>) -> Seq<Seq<char>>
    decreases items.len(),
{
    if items.len() == 0 {
        seq![]
    } else {
        item_image_list(items.drop_last()) + str_views(items.last().image_urls@)
    }
}

/// The images a selector picks for a notification: none, the items' images,
/// or the images a CSS selector matches on an HTML page, without repeats. The
/// changed-elements mode is resolved later against the change.
pub open spec fn chosen_images(doc: FetchedDocument, items: Seq<Item>, sel: Option<ImageSelector>) -> Seq<
    Seq<char>,
> {
    match sel {
        None => seq![],
        Some(ImageSelector::NoImage) => seq![],
        Some(ImageSelector::Items) => dedupe(item_image_list(items)),
        Some(ImageSelector::Changed) => seq![],
        Some(ImageSelector::Css { selector }) => if is_html(doc.content_type, doc.text@) {
            doc_css_images(doc.text@, selector@)
        } else {
            seq![]
        },
    }
}

/// The image URLs to attach, as [`chosen_images`] picks them.
pub fn collect_image_urls(doc: &FetchedDocument, items: &[Item], selector: &Option<ImageSelector>) -> (r:
    Vec<String>)
    ensures
        str_views(r@) == chosen_images(*doc, items@, *selector),
{
    let empty: Vec<String> = Vec::new();
    proof {
        assert(str_views(empty@) =~= Seq::<Seq<char>>::empty());
    }
    match selector {
        None => empty,
        Some(ImageSelector::NoImage) => empty,
        Some(ImageSelector::Changed) => empty,
        Some(ImageSelector::Items) => {
            let mut urls: Vec<String> = Vec::new();
            let mut i: usize = 0;
            proof {
                assert(items@.take(0) =~= Seq::<Item>::empty());
                assert(str_views(urls@) =~= item_image_list(items@.take(0)));
            }
            while i < items.len()
                invariant
                    i <= items.len(),
                    str_views(urls@) == item_image_list(items@.take(i as int)),
                decreases items.len() - i,
            {
                proof {
                    assert(items@.take(i + 1).drop_last() =~= items@.take(i as int));
                    assert(items@.take(i + 1).last() == items@[i as int]);
                }
                let mut j: usize = 0;
                let ghost base = str_views(urls@);
                let ghost im = items@[i as int].image_urls@;
                while j < items[i].image_urls.len()
                    invariant
                        i < items.len(),
                        j <= im.len(),
                        im == items@[i as int].image_urls@,
                        str_views(urls@) == base + str_views(im.take(j as int)),
                    decreases im.len() - j,
                {
                    push_str_view(&mut urls, items[i].image_urls[j].clone());
                    j += 1;
                    proof {
                        assert(str_views(im.take(j as int)) =~= str_views(im.take(j - 1)).push(
                            im[j - 1]@,
                        ));
                    }
                }
                proof {
                    assert(im.take(im.len() as int) =~= im);
                }
                i += 1;
            }
            proof {
                assert(items@.take(items.len() as int) =~= items@);
            }
            dedupe_urls(urls)
        },
        Some(ImageSelector::Css { selector }) => {
            if !is_html_doc(doc) {
                return empty;
            }
            collect_img_urls_from_doc(doc.text.as_str(), selector.as_str())
        },
    }
}

/// Position of the first field named `name`.
pub open spec fn first_named(fields: Seq<ItemField>, name: Seq<char>) -> Option<int>
    decreases fields.len(),
{
    if fields.len() == 0 {
        None
    } else if fields[0].name@ == name {
        Some(0)
    } else {
        match first_named(fields.drop_first(), name) {
            Some(i) => Some(i + 1),
            None => None,
        }
    }
}

proof fn lemma_first_named(fields: Seq<ItemField>, name: Seq<char>)
    ensures
        match first_named(fields, name) {
            Some(i) => 0 <= i < fields.len() && fields[i].name@ == name,
            None => true,
        },
    decreases fields.len(),
{
    if fields.len() > 0 {
        lemma_first_named(fields.drop_first(), name);
    }
}

/// The id an HTML item gets: `item-<idx>` without configured fields, else the
/// value of the first field named `id` when not empty, else `item-<idx>`.
pub open spec fn element_stable_id(m: CssMatch, fields: Seq<ItemField>, idx: int) -> Seq<char> {
    let fallback = "item-"@ + crate::text::nat_dec(idx as nat);
    if fields.len() == 0 {
        fallback
    } else {
        match first_named(fields, "id"@) {
            Some(k) => {
                let v = css_field_value(m, fields[k], k);
                if v.len() > 0 {
                    v
                } else {
                    fallback
                }
            },
            None => fallback,
        }
    }
}

/// Images of the changed elements among the first `n` matches: the images
/// inside each element whose id is listed, then its direct `<img>` siblings.
pub open spec fn changed_match_imgs(
    ms: Seq<CssMatch>,
    fields: Seq<ItemField>,
    changed: Seq<Seq<char>>,
    n: int,
) -> Seq<Seq<char>>
    decreases n,
{
    if n <= 0 {
        seq![]
    } else {
        let m = ms[n - 1];
        changed_match_imgs(ms, fields, changed, n - 1) + if changed.contains(
            element_stable_id(m, fields, n - 1),
        ) {
            element_imgs(m) + sibling_imgs(m.parent_children@)
        } else {
            seq![]
        }
    }
}

/// The images of the elements that changed, without repeats: only for HTML
/// pages and CSS item selectors.
pub open spec fn changed_images(
    doc: FetchedDocument,
    item_selector: ItemSelector,
    fields: Seq<ItemField>,
    changed: Seq<Seq<char>>,
) -> Seq<Seq<char>> {
    if !is_html(doc.content_type, doc.text@) {
        seq![]
    } else {
        match item_selector {
            ItemSelector::JsonPath { .. } => seq![],
            ItemSelector::Css { selector } => match css_query(
                doc.text@,
                selector@,
                inner_list(fields),
                attr_list(fields),
            ) {
                None => seq![],
                Some(ms) => dedupe(changed_match_imgs(ms, fields, changed, ms.len() as int)),
            },
        }
    }
}

fn first_field_named(fields: &[ItemField], name: &str) -> (r: Option<usize>)
    ensures
        match r {
            Some(i) => first_named(fields@, name@) == Some(i as int),
            None => first_named(fields@, name@) is None,
        },
{
    let k = chars_of(name);
    let mut i: usize = 0;
    proof {
        assert(fields@.skip(0) =~= fields@);
    }
    while i < fields.len()
        invariant
            i <= fields.len(),
            k@ == name@,
            forall|j: int| 0 <= j < i ==> fields@[j].name@ != name@,
            first_named(fields@, name@) == (match first_named(fields@.skip(i as int), name@) {
                Some(x) => Some(x + i),
                None => None,
            }),
        decreases fields.len() - i,
    {
        let n = chars_of(fields[i].name.as_str());
        proof {
            assert(fields@.skip(i as int).drop_first() =~= fields@.skip(i + 1));
            assert(fields@.skip(i as int)[0] == fields@[i as int]);
        }
        if crate::text::seq_eq(&n, &k) {
            return Some(i);
        }
        i += 1;
    }
    proof {
        assert(fields@.skip(i as int) =~= Seq::<ItemField>::empty());
    }
    None
}

fn index_id(idx: usize) -> (r: String)
    ensures
        r@ == "item-"@ + crate::text::nat_dec(idx as nat),
{
    let mut out = chars_of("item-");
    let d = crate::text::u64_dec(idx as u64);
    crate::text::append_chars(&mut out, &d);
    string_of(&out)
}

fn element_id(m: &CssMatch, fields: &[ItemField], idx: usize) -> (r: String)
    requires
        fields@.len() + 3 <= usize::MAX,
    ensures
        r@ == element_stable_id(*m, fields@, idx as int),
{
    if fields.len() == 0 {
        return index_id(idx);
    }
    proof {
        reveal_strlit("id");
        lemma_first_named(fields@, "id"@);
    }
    match first_field_named(fields, "id") {
        Some(k) => {
            let v = css_field_text(m, &fields[k], k);
            if !v.as_str().is_empty() {
                v
            } else {
                index_id(idx)
            }
        },
        None => index_id(idx),
    }
}

/// The images of the elements that changed ([`changed_images`]); `changed`
/// holds the ids of the new and updated items.
pub fn collect_changed_element_images(
    doc: &FetchedDocument,
    item_selector: &ItemSelector,
    fields: &[ItemField],
    changed: &[String],
) -> (r: Vec<String>)
    requires
        fields@.len() + 3 <= usize::MAX,
    ensures
        str_views(r@) == changed_images(*doc, *item_selector, fields@, str_views(changed@)),
{
    let empty: Vec<String> = Vec::new();
    proof {
        assert(str_views(empty@) =~= Seq::<Seq<char>>::empty());
    }
    if !is_html_doc(doc) {
        return empty;
    }
    let selector = match item_selector {
        ItemSelector::Css { selector } => selector,
        ItemSelector::JsonPath { .. } => return empty,
    };
    let (inner, attrs) = query_lists(fields);
    let ms = match css_query_doc(doc.text.as_str(), selector.as_str(), &inner, &attrs) {
        Some(m) => m,
        None => return empty,
    };
    let mut urls: Vec<String> = Vec::new();
    let mut i: usize = 0;
    proof {
        assert(str_views(urls@) =~= Seq::<Seq<char>>::empty());
    }
    while i < ms.len()
        invariant
            i <= ms.len(),
            fields@.len() + 3 <= usize::MAX,
            str_views(urls@) == changed_match_imgs(ms@, fields@, str_views(changed@), i as int),
        decreases ms.len() - i,
    {
        let sid = element_id(&ms[i], fields, i);
        let sc = chars_of(sid.as_str());
        let ghost before = str_views(urls@);
        if str_listed(changed, &sc) {
            push_element_imgs(&ms[i], &mut urls);
            push_sibling_imgs(&ms[i].parent_children, &mut urls);
        } else {
            proof {
                assert(str_views(urls@) =~= before + Seq::<Seq<char>>::empty());
            }
        }
        i += 1;
    }
    dedupe_urls(urls)
}


// ---------------------------------------------------------------------------
// Whole pipeline
// ---------------------------------------------------------------------------

/// The single item of a whole-page comparison: id `page`, no field, no
/// image, the page text.
pub fn whole_page_item(doc: &FetchedDocument) -> (r: Item)
    ensures
        r.stable_id@ == "page"@,
        r.fields@.len() == 0,
        r.image_urls@.len() == 0,
        r.text == doc.text,
{
    Item {
        stable_id: crate::config::str_to_string("page"),
        fields: Vec::new(),
        image_urls: Vec::new(),
        text: doc.text.clone(),
    }
}

/// The de-duplication key of an item: the template with each `{{name}}`
/// replaced by the field's value, field after field.
pub open spec fn key_of(template: Seq<char>, ps: Seq<(Seq<char>, Seq<char>)>) -> Seq<char>
    decreases ps.len(),
{
    if ps.len() == 0 {
        template
    } else {
        crate::text::replace(
            key_of(template, ps.drop_last()),
            "{{"@ + ps.last().0 + "}}"@,
            ps.last().1,
        )
    }
}

/// A placeholder is replaced by its field's value: the key of the template
/// `{{name}}` for an item whose one field is `name` is that field's value, so
/// items whose values differ get different keys.
pub proof fn law_key_substitutes_field(name: Seq<char>, v: Seq<char>, w: Seq<char>)
    ensures
        key_of("{{"@ + name + "}}"@, seq![(name, v)]) == v,
        v != w ==> key_of("{{"@ + name + "}}"@, seq![(name, v)]) != key_of(
            "{{"@ + name + "}}"@,
            seq![(name, w)],
        ),
{
    lemma_key_single(name, v);
    lemma_key_single(name, w);
}

proof fn lemma_key_single(name: Seq<char>, v: Seq<char>)
    ensures
        key_of("{{"@ + name + "}}"@, seq![(name, v)]) == v,
{
    reveal_strlit("{{");
    reveal_strlit("}}");
    let p = "{{"@ + name + "}}"@;
    let ps = seq![(name, v)];
    assert(ps.drop_last() =~= Seq::<(Seq<char>, Seq<char>)>::empty());
    assert(ps.last() == (name, v));
    assert(key_of(p, ps.drop_last()) == p);
    assert(p.len() > 0);
    assert(p.take(p.len() as int) =~= p);
    assert(p.skip(p.len() as int) =~= Seq::<char>::empty());
    assert(crate::text::replace(Seq::<char>::empty(), p, v) == Seq::<char>::empty());
    assert(crate::text::replace(p, p, v) =~= v);
}

/// Items whose keys all differ are all kept, in order.
pub proof fn law_distinct_keys_all_kept(keys: Seq<Seq<char>>, n: int)
    requires
        0 <= n <= keys.len(),
        forall|i: int, j: int| 0 <= i < j < n ==> keys[i] != keys[j],
    ensures
        first_of_keys(keys, n) =~= Seq::new(n as nat, |i: int| i),
    decreases n,
{
    if n > 0 {
        law_distinct_keys_all_kept(keys, n - 1);
        assert(key_is_new(keys, n - 1));
    }
}

/// De-duplication by a `{{name}}` key keeps every item when each item's one
/// field is `name` and no two values are equal.
pub proof fn law_dedupe_keeps_distinct_values(items: Seq<Item>, name: Seq<char>)
    requires
        forall|i: int| 0 <= i < items.len() ==> (#[trigger] items[i]).fields@.len() == 1
            && items[i].fields@[0].name@ == name,
        forall|i: int, j: int| 0 <= i < j < items.len() ==> items[i].fields@[0].value@
            != items[j].fields@[0].value@,
    ensures
        first_of_keys(item_keys(items, "{{"@ + name + "}}"@), items.len() as int) =~= Seq::new(
            items.len(),
            |i: int| i,
        ),
{
    let t = "{{"@ + name + "}}"@;
    let keys = item_keys(items, t);
    assert forall|i: int| 0 <= i < items.len() implies #[trigger] keys[i] == items[i].fields@[0].value@ by {
        let f = items[i].fields@[0];
        assert(field_pairs(items[i].fields@) =~= seq![(name, f.value@)]);
        lemma_key_single(name, f.value@);
    }
    assert forall|i: int, j: int| 0 <= i < j < items.len() implies keys[i] != keys[j] by {
        assert(keys[i] == items[i].fields@[0].value@);
        assert(keys[j] == items[j].fields@[0].value@);
    }
    law_distinct_keys_all_kept(keys, items.len() as int);
}

/// Whether the `i`-th key differs from every earlier one.
pub open spec fn key_is_new(keys: Seq<Seq<char>>, i: int) -> bool {
    forall|j: int| 0 <= j < i ==> keys[j] != keys[i]
}

/// Positions, among the first `n`, of the first item of each key.
pub open spec fn first_of_keys(keys: Seq<Seq<char>>, n: int) -> Seq<int>
    decreases n,
{
    if n <= 0 {
        seq![]
    } else if key_is_new(keys, n - 1) {
        first_of_keys(keys, n - 1).push(n - 1)
    } else {
        first_of_keys(keys, n - 1)
    }
}

/// The keys of a list of items.
pub open spec fn item_keys(items: Seq<Item>, template: Seq<char>) -> Seq<Seq<char>> {
    items.map_values(|it: Item| key_of(template, field_pairs(it.fields@)))
}

fn key_for(item: &Item, template: &str) -> (r: Vec<char>)
    ensures
        r@ == key_of(template@, field_pairs(item.fields@)),
{
    let mut key = chars_of(template);
    let mut i: usize = 0;
    let ghost ps = field_pairs(item.fields@);
    proof {
        assert(ps.take(0) =~= Seq::<(Seq<char>, Seq<char>)>::empty());
    }
    while i < item.fields.len()
        invariant
            i <= item.fields.len(),
            ps == field_pairs(item.fields@),
            key@ == key_of(template@, ps.take(i as int)),
        decreases item.fields.len() - i,
    {
        let mut pat = chars_of("{{");
        let n = chars_of(item.fields[i].name.as_str());
        crate::text::append_chars(&mut pat, &n);
        let close = chars_of("}}");
        crate::text::append_chars(&mut pat, &close);
        let v = chars_of(item.fields[i].value.as_str());
        proof {
            reveal_strlit("{{");
            assert(pat@.len() > 0);
            assert(ps.take(i + 1).drop_last() =~= ps.take(i as int));
            assert(ps.take(i + 1).last() == ps[i as int]);
        }
        key = crate::text::replace_chars(&key, &pat, &v);
        i += 1;
    }
    proof {
        assert(ps.take(item.fields.len() as int) =~= ps);
    }
    key
}

/// The items whose key is the first of its kind, in order ([`first_of_keys`]).
pub fn dedupe_items(items: Vec<Item>, key_template: &str) -> (r: Vec<Item>)
    ensures
        r@.len() == first_of_keys(item_keys(items@, key_template@), items@.len() as int).len(),
        forall|k: int|
            0 <= k < r@.len() ==> (#[trigger] r@[k])@ == items@[first_of_keys(
                item_keys(items@, key_template@),
                items@.len() as int,
            )[k]]@,
{
    let ghost keys = item_keys(items@, key_template@);
    let mut seen: Vec<Vec<char>> = Vec::new();
    let mut out: Vec<Item> = Vec::new();
    let mut i: usize = 0;
    while i < items.len()
        invariant
            i <= items.len(),
            keys == item_keys(items@, key_template@),
            keys.len() == items@.len(),
            forall|j: int| 0 <= j < i ==> crate::text::views(seen@).contains(#[trigger] keys[j]),
            forall|s: int|
                0 <= s < seen@.len() ==> exists|j: int| 0 <= j < i && keys[j] == #[trigger] seen@[s]@,
            out@.len() == first_of_keys(keys, i as int).len(),
            forall|k: int|
                0 <= k < out@.len() ==> (#[trigger] out@[k])@ == items@[first_of_keys(keys, i as int)[k]]@,
        decreases items.len() - i,
    {
        let key = key_for(&items[i], key_template);
        proof {
            assert(keys[i as int] == key@);
        }
        let mut found = false;
        let mut s: usize = 0;
        while s < seen.len()
            invariant
                s <= seen.len(),
                !found ==> forall|t: int| 0 <= t < s ==> seen@[t]@ != key@,
                found ==> crate::text::views(seen@).contains(key@),
            decreases seen.len() - s,
        {
            if crate::text::seq_eq(&seen[s], &key) {
                proof {
                    assert(crate::text::views(seen@)[s as int] == key@);
                }
                found = true;
            }
            s += 1;
        }
        proof {
            if found {
                let m = crate::text::views(seen@);
                let t = choose|t: int| 0 <= t < m.len() && #[trigger] m[t] == key@;
                let j = choose|j: int| 0 <= j < i && keys[j] == #[trigger] seen@[t]@;
                assert(keys[j] == keys[i as int]);
                assert(!key_is_new(keys, i as int));
            } else {
                assert forall|j: int| 0 <= j < i implies keys[j] != keys[i as int] by {
                    let m = crate::text::views(seen@);
                    assert(m.contains(keys[j]));
                    let t = choose|t: int| 0 <= t < m.len() && #[trigger] m[t] == keys[j];
                    assert(seen@[t]@ == keys[j]);
                }
                assert(key_is_new(keys, i as int));
            }
        }
        if !found {
            let ghost old_seen = seen@;
            seen.push(key);
            out.push(items[i].clone());
            proof {
                assert forall|j: int| 0 <= j <= i implies crate::text::views(seen@).contains(
                    #[trigger] keys[j],
                ) by {
                    if j < i {
                        let m = crate::text::views(old_seen);
                        assert(m.contains(keys[j]));
                        let t = choose|t: int| 0 <= t < m.len() && #[trigger] m[t] == keys[j];
                        assert(crate::text::views(seen@)[t] == keys[j]);
                    } else {
                        assert(crate::text::views(seen@)[old_seen.len() as int] == keys[j]);
                    }
                }
            }
        } else {
            proof {
                assert forall|j: int| 0 <= j <= i implies crate::text::views(seen@).contains(
                    #[trigger] keys[j],
                ) by {
                    if j == i {
                        assert(crate::text::views(seen@).contains(key@));
                    }
                }
            }
        }
        i += 1;
    }
    out
}

/// `blake3::hash(..).to_hex()`: the hexadecimal BLAKE3 digest of a byte
/// string.
pub uninterp spec fn blake3_hex(bytes: Seq<u8>) -> Seq<char>;

/// `blake3::hash(bytes).to_hex().to_string()`; named by [`blake3_hex`].
#[verifier::external_body]
pub(crate) fn hash_hex(bytes: &[u8]) -> (r: String)
    ensures
        r@ == blake3_hex(bytes@),
{
    blake3::hash(bytes).to_hex().to_string()
}

/// The fingerprint of a round: the digest of the page text when there is no
/// item, else of the items' fingerprints, sorted, joined with `\n---\n`.
pub open spec fn round_fingerprint(items: Seq<ItemView>, text: Seq<char>) -> Seq<char> {
    if items.len() == 0 {
        blake3_hex(vstd::utf8::encode_utf8(text))
    } else {
        blake3_hex(
            vstd::utf8::encode_utf8(
                crate::text::join(
                    crate::text::sort_strs(
                        items.map_values(|i: ItemView| item_fingerprint(i, seq![])),
                    ),
                    "\n---\n"@,
                ),
            ),
        )
    }
}

/// The fingerprint of a round ([`round_fingerprint`]).
pub fn compute_fingerprint(items: &[Item], text: &str) -> (r: String)
    ensures
        r@ == round_fingerprint(item_views(items@), text@),
{
    if items.len() == 0 {
        return hash_hex(text.as_bytes());
    }
    let empty: Vec<String> = Vec::new();
    proof {
        assert(empty@.map_values(|s: String| s@) =~= Seq::<Seq<char>>::empty());
    }
    let mut parts: Vec<Vec<char>> = Vec::new();
    let mut i: usize = 0;
    let ghost fps = item_views(items@).map_values(|i: ItemView| item_fingerprint(i, seq![]));
    while i < items.len()
        invariant
            i <= items.len(),
            empty@.map_values(|s: String| s@) == Seq::<Seq<char>>::empty(),
            fps == item_views(items@).map_values(|i: ItemView| item_fingerprint(i, seq![])),
            crate::text::views(parts@) == fps.take(i as int),
        decreases items.len() - i,
    {
        let f = items[i].fingerprint(empty.as_slice());
        let fc = chars_of(f.as_str());
        let ghost before = crate::text::views(parts@);
        parts.push(fc);
        i += 1;
        proof {
            assert(crate::text::views(parts@) =~= before.push(fc@));
            assert(fps.take(i as int) =~= fps.take(i - 1).push(fps[i - 1]));
        }
    }
    proof {
        assert(fps.take(items.len() as int) =~= fps);
    }
    let sorted = crate::text::sort_char_vecs(&parts);
    let sep = chars_of("\n---\n");
    let joined = crate::text::join_chars(&sorted, &sep);
    let js = string_of(&joined);
    hash_hex(js.as_str().as_bytes())
}


/// What a round of extraction produces.
pub struct PipelineOutput {
    pub items: Vec<Item>,
    pub fingerprint: String,
    pub text: String,
    /// Image URLs to attach to a notification, without repeats, in order.
    pub image_urls: Vec<String>,
}

/// How many raw items an items extraction finds, or why it fails.
pub open spec fn raw_count(doc: FetchedDocument, selector: ItemSelector, fields: Seq<ItemField>) -> Result<
    int,
    ExtractError,
> {
    match selector {
        ItemSelector::Css { selector } => match css_query(
            doc.text@,
            selector@,
            inner_list(fields),
            attr_list(fields),
        ) {
            None => Err(ExtractError::InvalidSelector),
            Some(ms) => Ok(ms.len() as int),
        },
        ItemSelector::JsonPath { path } => match json_parse(doc.text@) {
            None => Err(ExtractError::InvalidJson),
            Some(v) => match eval_path(v, path@) {
                Err(e) => Err(ExtractError::Path(e)),
                Ok(vs) => Ok(vs.len() as int),
            },
        },
    }
}

/// Whether `it` is the `j`-th raw item of an items extraction.
pub open spec fn raw_item_ok(
    doc: FetchedDocument,
    selector: ItemSelector,
    fields: Seq<ItemField>,
    it: Item,
    j: int,
) -> bool {
    match selector {
        ItemSelector::Css { selector } => css_item_ok(
            it,
            css_query(doc.text@, selector@, inner_list(fields), attr_list(fields)).unwrap()[j],
            fields,
            j,
        ),
        ItemSelector::JsonPath { path } => json_item_ok(
            it,
            eval_path(json_parse(doc.text@).unwrap(), path@).unwrap()[j],
            fields,
            j,
        ),
    }
}

/// The fields of the `j`-th raw item of an items extraction.
pub open spec fn raw_pairs(doc: FetchedDocument, selector: ItemSelector, fields: Seq<ItemField>, j: int) -> Seq<
    (Seq<char>, Seq<char>),
> {
    match selector {
        ItemSelector::Css { selector } => css_item_pairs(
            css_query(doc.text@, selector@, inner_list(fields), attr_list(fields)).unwrap()[j],
            fields,
        ),
        ItemSelector::JsonPath { path } => json_item_pairs(
            eval_path(json_parse(doc.text@).unwrap(), path@).unwrap()[j],
            fields,
        ),
    }
}

/// The raw items kept: all of them, or the first of each de-duplication key.
pub open spec fn kept_raw(
    doc: FetchedDocument,
    selector: ItemSelector,
    fields: Seq<ItemField>,
    dedupe_key: Option<String>,
    n: int,
) -> Seq<int> {
    match dedupe_key {
        None => Seq::new(n as nat, |j: int| j),
        Some(t) => first_of_keys(
            Seq::new(n as nat, |j: int| key_of(t@, raw_pairs(doc, selector, fields, j))),
            n,
        ),
    }
}

fn extract_items(doc: &FetchedDocument, selector: &ItemSelector, fields: &[ItemField]) -> (r: Result<
    Vec<Item>,
    ExtractError,
>)
    requires
        fields@.len() + 3 <= usize::MAX,
    ensures
        match raw_count(*doc, *selector, fields@) {
            Err(e) => r == Err::<Vec<Item>, ExtractError>(e),
            Ok(n) => r matches Ok(items) && items@.len() == n && forall|j: int|
                0 <= j < n ==> raw_item_ok(*doc, *selector, fields@, #[trigger] items@[j], j),
        },
{
    match selector {
        ItemSelector::Css { selector } => extract_css_items(doc.text.as_str(), selector.as_str(), fields),
        ItemSelector::JsonPath { path } => extract_json_items(doc.text.as_str(), path.as_str(), fields),
    }
}

proof fn lemma_first_of_keys_bounds(keys: Seq<Seq<char>>, n: int)
    requires
        0 <= n,
    ensures
        first_of_keys(keys, n).len() <= n,
        forall|k: int|
            0 <= k < first_of_keys(keys, n).len() ==> 0 <= #[trigger] first_of_keys(keys, n)[k] < n,
    decreases n,
{
    if n > 0 {
        lemma_first_of_keys_bounds(keys, n - 1);
    }
}

/// Runs the extraction of a source on a fetched document: the whole page as
/// one item, or the items a CSS selector or JSONPath finds (de-duplicated by
/// key when configured); then the round's fingerprint and the images to
/// attach.
pub fn run_pipeline(doc: &FetchedDocument, extract: &ExtractConfig) -> (r: Result<PipelineOutput, ExtractError>)
    requires
        match extract {
            ExtractConfig::Items { fields, .. } => fields@.len() + 3 <= usize::MAX,
            _ => true,
        },
    ensures
        match extract {
            ExtractConfig::Text { images } => r matches Ok(out) && {
                &&& out.items@.len() == 1
                &&& out.items@[0].stable_id@ == "page"@
                &&& out.items@[0].fields@.len() == 0
                &&& out.items@[0].image_urls@.len() == 0
                &&& out.items@[0].text == doc.text
                &&& str_views(out.image_urls@) == chosen_images(*doc, out.items@, *images)
            },
            ExtractConfig::Items { selector, fields, dedupe_key, images } => match raw_count(
                *doc,
                *selector,
                fields@,
            ) {
                Err(e) => r == Err::<PipelineOutput, ExtractError>(e),
                Ok(n) => r matches Ok(out) && {
                    let kept = kept_raw(*doc, *selector, fields@, *dedupe_key, n);
                    &&& out.items@.len() == kept.len()
                    &&& forall|k: int|
                        0 <= k < kept.len() ==> raw_item_ok(
                            *doc,
                            *selector,
                            fields@,
                            #[trigger] out.items@[k],
                            kept[k],
                        )
                    &&& str_views(out.image_urls@) == chosen_images(*doc, out.items@, *images)
                },
            },
        },
        r matches Ok(out) ==> out.fingerprint@ == round_fingerprint(item_views(out.items@), doc.text@)
            && out.text == doc.text,
{
    let (items, images) = match extract {
        ExtractConfig::Text { images } => {
            let mut v: Vec<Item> = Vec::new();
            v.push(whole_page_item(doc));
            (v, images)
        },
        ExtractConfig::Items { selector, fields, dedupe_key, images } => {
            let raw = extract_items(doc, selector, fields.as_slice())?;
            let ghost n = raw@.len() as int;
            let items = match dedupe_key {
                Some(key) => {
                    let d = dedupe_items(raw, key.as_str());
                    proof {
                        let keys = Seq::new(
                            n as nat,
                            |j: int| key_of(key@, raw_pairs(*doc, *selector, fields@, j)),
                        );
                        assert(item_keys(raw@, key@) =~= keys);
                        lemma_first_of_keys_bounds(keys, n);
                        assert forall|k: int| 0 <= k < d@.len() implies raw_item_ok(
                            *doc,
                            *selector,
                            fields@,
                            #[trigger] d@[k],
                            kept_raw(*doc, *selector, fields@, *dedupe_key, n)[k],
                        ) by {
                            let j = first_of_keys(keys, n)[k];
                            assert(raw_item_ok(*doc, *selector, fields@, raw@[j], j));
                            assert(d@[k]@ == raw@[j]@);
                        }
                    }
                    d
                },
                None => {
                    proof {
                        assert(Seq::new(n as nat, |j: int| j).len() == n);
                    }
                    raw
                },
            };
            (items, images)
        },
    };
    let fingerprint = compute_fingerprint(items.as_slice(), doc.text.as_str());
    let image_urls = collect_image_urls(doc, items.as_slice(), images);
    Ok(PipelineOutput { items, fingerprint, text: doc.text.clone(), image_urls })
}

} // verus!
