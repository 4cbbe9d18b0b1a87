//! Character-sequence utilities shared by the parsers and renderers of the
//! library. Every routine works on `Vec<char>` and is specified over the
//! `Seq<char>` it produces.
use vstd::prelude::*;

verus! {

/// The Unicode `White_Space` property, as `char::is_whitespace` tests it.
pub open spec fn is_ws(c: char) -> bool {
    ||| c == ' '
    ||| ('\t' <= c && c <= '\r')
    ||| c == '\u{85}'
    ||| c == '\u{A0}'
    ||| c == '\u{1680}'
    ||| ('\u{2000}' <= c && c <= '\u{200A}')
    ||| c == '\u{2028}'
    ||| c == '\u{2029}'
    ||| c == '\u{202F}'
    ||| c == '\u{205F}'
    ||| c == '\u{3000}'
}

pub fn char_is_ws(c: char) -> (r: bool)
    ensures
        r == is_ws(c),
{
    c == ' ' || ('\t' <= c && c <= '\r') || c == '\u{85}' || c == '\u{A0}' || c == '\u{1680}'
        || ('\u{2000}' <= c && c <= '\u{200A}') || c == '\u{2028}' || c == '\u{2029}'
        || c == '\u{202F}' || c == '\u{205F}' || c == '\u{3000}'
}

pub open spec fn is_ascii_digit(c: char) -> bool {
    '0' <= c && c <= '9'
}

pub open spec fn is_ascii_upper(c: char) -> bool {
    'A' <= c && c <= 'Z'
}

pub open spec fn is_ascii_lower(c: char) -> bool {
    'a' <= c && c <= 'z'
}

pub open spec fn is_ascii_alpha(c: char) -> bool {
    is_ascii_upper(c) || is_ascii_lower(c)
}

pub open spec fn is_ascii_alnum(c: char) -> bool {
    is_ascii_alpha(c) || is_ascii_digit(c)
}

/// `char::to_ascii_lowercase`.
pub open spec fn lower_char(c: char) -> char {
    if is_ascii_upper(c) {
        ((c as u32) + 32) as char
    } else {
        c
    }
}

pub fn char_lower(c: char) -> (r: char)
    ensures
        r == lower_char(c),
{
    if 'A' <= c && c <= 'Z' {
        let u: u32 = (c as u32) + 32;
        assert(0x61 <= u <= 0x7A);
        let r = (u as u8) as char;
        assert(r == ((c as u32) + 32) as char);
        r
    } else {
        c
    }
}

/// ASCII lower-casing of a whole sequence.
pub open spec fn lower(s: Seq<char>) -> Seq<char> {
    s.map_values(|c: char| lower_char(c))
}

/// The character sequences of a list of character vectors.
pub open spec fn views(v: Seq<Vec<char>>) -> Seq<Seq<char>> {
    v.map_values(|x: Vec<char>| x@)
}

/// Leading white space removed (`str::trim_start`).
pub open spec fn trim_start(s: Seq<char>) -> Seq<char>
    decreases s.len(),
{
    if s.len() > 0 && is_ws(s[0]) {
        trim_start(s.drop_first())
    } else {
        s
    }
}

/// Trailing white space removed (`str::trim_end`).
pub open spec fn trim_end(s: Seq<char>) -> Seq<char>
    decreases s.len(),
{
    if s.len() > 0 && is_ws(s.last()) {
        trim_end(s.drop_last())
    } else {
        s
    }
}

/// White space removed at both ends (`str::trim`).
pub open spec fn trim(s: Seq<char>) -> Seq<char> {
    trim_end(trim_start(s))
}

/// Index of the first occurrence of `c`, if any.
pub open spec fn find(s: Seq<char>, c: char) -> Option<int>
    decreases s.len(),
{
    if s.len() == 0 {
        None
    } else if s[0] == c {
        Some(0)
    } else {
        match find(s.drop_first(), c) {
            Some(i) => Some(i + 1),
            None => None,
        }
    }
}

/// `str::split(c)`: the pieces between occurrences of `c`, empty pieces kept.
pub open spec fn split(s: Seq<char>, c: char) -> Seq<Seq<char>>
    decreases s.len(),
{
    match find(s, c) {
        None => seq![s],
        Some(i) => {
            proof {
                lemma_find(s, c);
            }
            seq![s.take(i)] + split(s.skip(i + 1), c)
        },
    }
}

pub proof fn lemma_find(s: Seq<char>, c: char)
    ensures
        match find(s, c) {
            Some(i) => 0 <= i < s.len() && s[i] == c && forall|j: int|
                0 <= j < i ==> s[j] != c,
            None => forall|j: int| 0 <= j < s.len() ==> s[j] != c,
        },
    decreases s.len(),
{
    if s.len() > 0 {
        lemma_find(s.drop_first(), c);
        if s[0] != c {
            assert forall|j: int| 0 < j < s.len() implies s[j] == s.drop_first()[j - 1] by {}
        }
    }
}

pub proof fn lemma_word_len(s: Seq<char>)
    ensures
        0 <= word_len(s) <= s.len(),
        s.len() > 0 && !is_ws(s[0]) ==> word_len(s) >= 1,
        forall|j: int| 0 <= j < word_len(s) ==> !is_ws(#[trigger] s[j]),
        word_len(s) < s.len() ==> is_ws(s[word_len(s)]),
    decreases s.len(),
{
    if s.len() > 0 && !is_ws(s[0]) {
        lemma_word_len(s.drop_first());
        assert forall|j: int| 0 <= j < word_len(s) implies !is_ws(#[trigger] s[j]) by {
            if j > 0 {
                assert(s[j] == s.drop_first()[j - 1]);
            }
        }
    }
}

/// `str::split_once(c)`.
pub open spec fn split_once(s: Seq<char>, c: char) -> Option<(Seq<char>, Seq<char>)> {
    match find(s, c) {
        None => None,
        Some(i) => Some((s.take(i), s.skip(i + 1))),
    }
}

/// `str::split_whitespace`: the maximal runs of non-white-space characters.
pub open spec fn split_ws(s: Seq<char>) -> Seq<Seq<char>>
    decreases s.len(),
{
    if s.len() == 0 {
        seq![]
    } else if is_ws(s[0]) {
        split_ws(s.drop_first())
    } else {
        let w = word_len(s);
        proof {
            lemma_word_len(s);
        }
        seq![s.take(w)] + split_ws(s.skip(w))
    }
}

/// Length of the run of non-white-space characters that starts `s`.
pub open spec fn word_len(s: Seq<char>) -> int
    decreases s.len(),
{
    if s.len() == 0 || is_ws(s[0]) {
        0
    } else {
        1 + word_len(s.drop_first())
    }
}

/// Pieces joined with `sep` between consecutive pieces (`[T]::join`).
pub open spec fn join(parts: Seq<Seq<char>>, sep: Seq<char>) -> Seq<char>
    decreases parts.len(),
{
    if parts.len() == 0 {
        seq![]
    } else if parts.len() == 1 {
        parts[0]
    } else {
        join(parts.drop_last(), sep) + sep + parts.last()
    }
}

/// Value of a run of ASCII digits.
pub open spec fn digits_value(s: Seq<char>) -> int
    decreases s.len(),
{
    if s.len() == 0 {
        0
    } else {
        digits_value(s.drop_last()) * 10 + (s.last() as int - '0' as int)
    }
}

pub open spec fn all_digits(s: Seq<char>) -> bool {
    forall|i: int| 0 <= i < s.len() ==> #[trigger] is_ascii_digit(s[i])
}

/// The integer that `s` denotes under `<i64 as FromStr>` rules restricted to
/// the range `[lo, hi]`: an optional sign followed by at least one digit.
pub open spec fn parse_int_in(s: Seq<char>, lo: int, hi: int) -> Option<int> {
    let neg = s.len() > 0 && s[0] == '-';
    let body = if s.len() > 0 && (s[0] == '-' || s[0] == '+') {
        s.skip(1)
    } else {
        s
    };
    if body.len() == 0 || !all_digits(body) {
        None
    } else {
        let v = if neg {
            -digits_value(body)
        } else {
            digits_value(body)
        };
        if lo <= v <= hi {
            Some(v)
        } else {
            None
        }
    }
}

/// `<i32 as FromStr>::from_str`.
pub open spec fn parse_i32(s: Seq<char>) -> Option<int> {
    parse_int_in(s, i32::MIN as int, i32::MAX as int)
}

/// `<usize as FromStr>::from_str`: an optional `+` followed by at least one
/// digit, the value at most `usize::MAX`.
pub open spec fn parse_usize(s: Seq<char>) -> Option<int> {
    let body = if s.len() > 0 && s[0] == '+' {
        s.skip(1)
    } else {
        s
    };
    if body.len() == 0 || !all_digits(body) || digits_value(body) > usize::MAX {
        None
    } else {
        Some(digits_value(body))
    }
}

/// Decimal digits of a natural number, most significant first, no leading zero.
pub open spec fn nat_dec(n: nat) -> Seq<char>
    decreases n,
{
    if n < 10 {
        seq![('0' as u32 + n) as char]
    } else {
        nat_dec(n / 10).push(('0' as u32 + (n % 10)) as char)
    }
}

/// Reading back the decimal digits of `n` gives `n`: [`nat_dec`] is one to one.
pub proof fn lemma_nat_dec_value(n: nat)
    ensures
        digits_value(nat_dec(n)) == n,
        nat_dec(n).len() > 0,
    decreases n,
{
    if n < 10 {
        let s = nat_dec(n);
        assert(s.drop_last() =~= Seq::<char>::empty());
        assert(('0' as u32 + n) as char as int == '0' as int + n);
        assert(s.last() as int - '0' as int == n);
        assert(digits_value(s) == digits_value(s.drop_last()) * 10 + (s.last() as int - '0' as int));
    } else {
        lemma_nat_dec_value(n / 10);
        let s = nat_dec(n);
        assert(s.drop_last() =~= nat_dec(n / 10));
        assert(('0' as u32 + (n % 10)) as char as int == '0' as int + n % 10);
        assert(s.last() as int - '0' as int == n % 10);
        assert((n / 10) * 10 + n % 10 == n) by (nonlinear_arith);
        assert(digits_value(s) == digits_value(s.drop_last()) * 10 + (s.last() as int - '0' as int));
    }
}

/// `i64::to_string` / `i32::to_string` / `u64::to_string`.
pub open spec fn int_dec(n: int) -> Seq<char> {
    if n < 0 {
        seq!['-'] + nat_dec((-n) as nat)
    } else {
        nat_dec(n as nat)
    }
}

pub open spec fn starts_with(s: Seq<char>, p: Seq<char>) -> bool {
    p.len() <= s.len() && s.take(p.len() as int) == p
}

pub open spec fn ends_with(s: Seq<char>, p: Seq<char>) -> bool {
    p.len() <= s.len() && s.skip(s.len() - p.len()) == p
}

/// `p` occurs in `s` at position `i`.
pub open spec fn occurs_at(s: Seq<char>, p: Seq<char>, i: int) -> bool {
    0 <= i && i + p.len() <= s.len() && s.subrange(i, i + p.len()) == p
}

pub open spec fn contains(s: Seq<char>, p: Seq<char>) -> bool {
    exists|i: int| occurs_at(s, p, i)
}

/// `to` before each character of `s` and after the last one: what
/// `str::replace` does with an empty pattern.
pub open spec fn interleave(s: Seq<char>, to: Seq<char>) -> Seq<char>
    decreases s.len(),
{
    if s.len() == 0 {
        to
    } else {
        to + seq![s[0]] + interleave(s.drop_first(), to)
    }
}

/// `str::replace(from, to)`: occurrences replaced from left to right, without
/// overlap; an empty `from` matches at every character boundary.
pub open spec fn replace(s: Seq<char>, from: Seq<char>, to: Seq<char>) -> Seq<char>
    decreases s.len(),
{
    if from.len() == 0 {
        interleave(s, to)
    } else if s.len() < from.len() {
        s
    } else if s.take(from.len() as int) == from {
        to + replace(s.skip(from.len() as int), from, to)
    } else {
        seq![s[0]] + replace(s.drop_first(), from, to)
    }
}

/// Replacing the one-character pattern `c` by a text without `d` leaves no
/// `d`, when `d` is `c` or `s` had none.
pub proof fn lemma_replace_char_free(s: Seq<char>, c: char, to: Seq<char>, d: char)
    requires
        forall|i: int| 0 <= i < to.len() ==> to[i] != d,
        d == c || forall|i: int| 0 <= i < s.len() ==> s[i] != d,
    ensures
        forall|i: int| 0 <= i < replace(s, seq![c], to).len() ==> replace(s, seq![c], to)[i] != d,
    decreases s.len(),
{
    let r = replace(s, seq![c], to);
    if s.len() >= 1 {
        let rest = s.drop_first();
        assert(s.drop_first() =~= s.skip(1));
        assert forall|i: int| 0 <= i < rest.len() implies rest[i] == s[i + 1] by {}
        lemma_replace_char_free(rest, c, to, d);
        let tail = replace(rest, seq![c], to);
        if s.take(1) =~= seq![c] {
            assert(r == to + tail);
            assert forall|i: int| 0 <= i < r.len() implies r[i] != d by {
                if i < to.len() {
                    assert(r[i] == to[i]);
                } else {
                    assert(r[i] == tail[i - to.len()]);
                }
            }
        } else {
            assert(s[0] != c) by {
                if s[0] == c {
                    assert(s.take(1) =~= seq![c]);
                }
            }
            assert(r == seq![s[0]] + tail);
            assert forall|i: int| 0 <= i < r.len() implies r[i] != d by {
                if i > 0 {
                    assert(r[i] == tail[i - 1]);
                }
            }
        }
    }
}

// ---------------------------------------------------------------------------
// Executable counterparts
// ---------------------------------------------------------------------------

/// Appends one character to a `String` (`String::push`).
#[verifier::external_body]
pub(crate) fn push_char(s: &mut String, c: char)
    ensures
        final(s)@ == old(s)@.push(c),
{
    s.push(c);
}

/// The characters of a string slice.
pub fn chars_of(s: &str) -> (v: Vec<char>)
    ensures
        v@ == s@,
{
    let mut v: Vec<char> = Vec::new();
    for c in it: s.chars()
        invariant
            v.len() == it.index(),
            forall|j: int| 0 <= j < v.len() ==> v@[j] == it.seq()[j],
    {
        v.push(c);
    }
    proof {
        assert(v@ =~= s@);
    }
    v
}

/// A `String` holding the given characters.
pub fn string_of(v: &Vec<char>) -> (s: String)
    ensures
        s@ == v@,
{
    let mut s = String::new();
    let mut i: usize = 0;
    while i < v.len()
        invariant
            i <= v.len(),
            s@ == v@.take(i as int),
        decreases v.len() - i,
    {
        push_char(&mut s, v[i]);
        i += 1;
        proof {
            assert(v@.take(i as int) == v@.take(i - 1).push(v@[i - 1]));
        }
    }
    proof {
        assert(v@.take(v.len() as int) == v@);
    }
    s
}

/// Characters equal, position by position.
pub fn seq_eq(a: &Vec<char>, b: &Vec<char>) -> (r: bool)
    ensures
        r == (a@ == b@),
{
    if a.len() != b.len() {
        return false;
    }
    let mut i: usize = 0;
    while i < a.len()
        invariant
            a.len() == b.len(),
            i <= a.len(),
            forall|j: int| 0 <= j < i ==> a@[j] == b@[j],
        decreases a.len() - i,
    {
        if a[i] != b[i] {
            return false;
        }
        i += 1;
    }
    proof {
        assert(a@ =~= b@);
    }
    true
}

/// A copy of a character vector.
pub fn copy_chars(a: &Vec<char>) -> (r: Vec<char>)
    ensures
        r@ == a@,
{
    let mut r: Vec<char> = Vec::new();
    let mut i: usize = 0;
    while i < a.len()
        invariant
            i <= a.len(),
            r@ == a@.take(i as int),
        decreases a.len() - i,
    {
        r.push(a[i]);
        i += 1;
        proof {
            assert(a@.take(i as int) == a@.take(i - 1).push(a@[i - 1]));
        }
    }
    proof {
        assert(a@.take(a.len() as int) == a@);
    }
    r
}

/// The characters of `a` at positions `lo..hi`.
pub fn slice_chars(a: &Vec<char>, lo: usize, hi: usize) -> (r: Vec<char>)
    requires
        lo <= hi <= a.len(),
    ensures
        r@ == a@.subrange(lo as int, hi as int),
{
    let mut r: Vec<char> = Vec::new();
    let mut i: usize = lo;
    while i < hi
        invariant
            lo <= i <= hi <= a.len(),
            r@ == a@.subrange(lo as int, i as int),
        decreases hi - i,
    {
        r.push(a[i]);
        i += 1;
        proof {
            assert(a@.subrange(lo as int, i as int) == a@.subrange(lo as int, i - 1).push(
                a@[i - 1],
            ));
        }
    }
    r
}

/// `a` followed by `b`.
pub fn concat(a: &Vec<char>, b: &Vec<char>) -> (r: Vec<char>)
    ensures
        r@ == a@ + b@,
{
    let mut r = copy_chars(a);
    let mut i: usize = 0;
    while i < b.len()
        invariant
            i <= b.len(),
            r@ == a@ + b@.take(i as int),
        decreases b.len() - i,
    {
        r.push(b[i]);
        i += 1;
        proof {
            assert(b@.take(i as int) == b@.take(i - 1).push(b@[i - 1]));
            assert(a@ + b@.take(i as int) == (a@ + b@.take(i - 1)).push(b@[i - 1]));
        }
    }
    proof {
        assert(b@.take(b.len() as int) == b@);
    }
    r
}

/// Appends `b` to `r`.
pub fn append_chars(r: &mut Vec<char>, b: &Vec<char>)
    ensures
        final(r)@ == old(r)@ + b@,
{
    let ghost r0 = r@;
    let mut i: usize = 0;
    while i < b.len()
        invariant
            i <= b.len(),
            r@ == r0 + b@.take(i as int),
        decreases b.len() - i,
    {
        r.push(b[i]);
        i += 1;
        proof {
            assert(b@.take(i as int) == b@.take(i - 1).push(b@[i - 1]));
            assert(r0 + b@.take(i as int) == (r0 + b@.take(i - 1)).push(b@[i - 1]));
        }
    }
    proof {
        assert(b@.take(b.len() as int) == b@);
    }
}

proof fn lemma_trim_start_skip(s: Seq<char>, i: int)
    requires
        0 <= i <= s.len(),
        forall|j: int| 0 <= j < i ==> is_ws(#[trigger] s[j]),
    ensures
        trim_start(s) == trim_start(s.skip(i)),
    decreases i,
{
    if i > 0 {
        assert(is_ws(s[0]));
        assert(s.drop_first().skip(i - 1) =~= s.skip(i));
        assert forall|j: int| 0 <= j < i - 1 implies is_ws(#[trigger] s.drop_first()[j]) by {
            assert(s.drop_first()[j] == s[j + 1]);
        }
        lemma_trim_start_skip(s.drop_first(), i - 1);
    } else {
        assert(s.skip(0) =~= s);
    }
}

proof fn lemma_trim_end_take(s: Seq<char>, k: int)
    requires
        0 <= k <= s.len(),
        forall|j: int| k <= j < s.len() ==> is_ws(#[trigger] s[j]),
    ensures
        trim_end(s) == trim_end(s.take(k)),
    decreases s.len() - k,
{
    if k < s.len() {
        assert(is_ws(s.last()));
        assert(s.drop_last().take(k) =~= s.take(k));
        assert forall|j: int| k <= j < s.drop_last().len() implies is_ws(
            #[trigger] s.drop_last()[j],
        ) by {
            assert(s.drop_last()[j] == s[j]);
        }
        lemma_trim_end_take(s.drop_last(), k);
    } else {
        assert(s.take(k) =~= s);
    }
}

/// White space removed at both ends.
pub fn trim_chars(a: &Vec<char>) -> (r: Vec<char>)
    ensures
        r@ == trim(a@),
{
    let mut lo: usize = 0;
    while lo < a.len() && char_is_ws(a[lo])
        invariant
            lo <= a.len(),
            forall|j: int| 0 <= j < lo ==> is_ws(#[trigger] a@[j]),
        decreases a.len() - lo,
    {
        lo += 1;
    }
    proof {
        lemma_trim_start_skip(a@, lo as int);
        if lo < a.len() {
            assert(!is_ws(a@.skip(lo as int)[0]));
        }
        assert(trim_start(a@.skip(lo as int)) == a@.skip(lo as int));
    }
    let mut hi: usize = a.len();
    while hi > lo && char_is_ws(a[hi - 1])
        invariant
            lo <= hi <= a.len(),
            forall|j: int| hi <= j < a.len() ==> is_ws(#[trigger] a@[j]),
        decreases hi - lo,
    {
        hi -= 1;
    }
    let r = slice_chars(a, lo, hi);
    proof {
        let t = a@.skip(lo as int);
        assert forall|j: int| hi - lo <= j < t.len() implies is_ws(#[trigger] t[j]) by {
            assert(t[j] == a@[j + lo]);
        }
        lemma_trim_end_take(t, hi - lo);
        assert(t.take(hi - lo) =~= a@.subrange(lo as int, hi as int));
        if hi > lo {
            assert(t.take(hi - lo).last() == a@[hi - 1]);
        }
        assert(trim_end(t.take(hi - lo)) == t.take(hi - lo));
    }
    r
}

/// Trailing white space removed.
pub fn trim_end_chars(a: &Vec<char>) -> (r: Vec<char>)
    ensures
        r@ == trim_end(a@),
{
    let mut hi: usize = a.len();
    while hi > 0 && char_is_ws(a[hi - 1])
        invariant
            hi <= a.len(),
            forall|j: int| hi <= j < a.len() ==> is_ws(#[trigger] a@[j]),
        decreases hi,
    {
        hi -= 1;
    }
    let r = slice_chars(a, 0, hi);
    proof {
        lemma_trim_end_take(a@, hi as int);
        assert(a@.take(hi as int) =~= a@.subrange(0, hi as int));
        if hi > 0 {
            assert(a@.take(hi as int).last() == a@[hi - 1]);
        }
        assert(trim_end(a@.take(hi as int)) == a@.take(hi as int));
    }
    r
}

/// Position of the first `c` in `a`.
pub fn find_char(a: &Vec<char>, c: char) -> (r: Option<usize>)
    ensures
        match r {
            Some(i) => find(a@, c) == Some(i as int) && i < a.len(),
            None => find(a@, c) is None,
        },
{
    let mut i: usize = 0;
    while i < a.len()
        invariant
            i <= a.len(),
            forall|j: int| 0 <= j < i ==> a@[j] != c,
        decreases a.len() - i,
    {
        if a[i] == c {
            proof {
                lemma_find(a@, c);
                lemma_find_first(a@, c, i as int);
            }
            return Some(i);
        }
        i += 1;
    }
    proof {
        lemma_find(a@, c);
        if find(a@, c) is Some {
            let k = find(a@, c)->0;
            assert(a@[k] == c);
        }
    }
    None
}

proof fn lemma_find_first(s: Seq<char>, c: char, i: int)
    requires
        0 <= i < s.len(),
        s[i] == c,
        forall|j: int| 0 <= j < i ==> s[j] != c,
    ensures
        find(s, c) == Some(i),
{
    lemma_find(s, c);
    match find(s, c) {
        Some(k) => {
            if k < i {
                assert(s[k] != c);
            } else if k > i {
                assert(s[i] != c);
            }
        },
        None => {
            assert(s[i] != c);
        },
    }
}

/// `split_once(c)`: the part before the first `c` and the part after it.
pub fn split_once_chars(a: &Vec<char>, c: char) -> (r: Option<(Vec<char>, Vec<char>)>)
    ensures
        match r {
            Some((x, y)) => split_once(a@, c) == Some((x@, y@)),
            None => split_once(a@, c) is None,
        },
{
    match find_char(a, c) {
        None => None,
        Some(i) => {
            proof {
                lemma_find(a@, c);
            }
            let x = slice_chars(a, 0, i);
            let y = slice_chars(a, i + 1, a.len());
            proof {
                assert(x@ =~= a@.take(i as int));
                assert(y@ =~= a@.skip(i + 1));
            }
            Some((x, y))
        },
    }
}

/// `split(c)`: every piece between occurrences of `c`.
pub fn split_chars(a: &Vec<char>, c: char) -> (r: Vec<Vec<char>>)
    ensures
        views(r@) == split(a@, c),
{
    let mut out: Vec<Vec<char>> = Vec::new();
    let mut rest = copy_chars(a);
    proof {
        assert(views(out@) =~= Seq::<Seq<char>>::empty());
        assert(views(out@) + split(rest@, c) =~= split(a@, c));
    }
    loop
        invariant
            views(out@) + split(rest@, c) == split(a@, c),
        decreases rest@.len(),
    {
        match find_char(&rest, c) {
            None => {
                let ghost before = views(out@);
                out.push(rest);
                proof {
                    assert(views(out@) =~= before.push(rest@));
                    assert(views(out@) =~= before + split(rest@, c));
                }
                return out;
            },
            Some(i) => {
                proof {
                    lemma_find(rest@, c);
                }
                let head = slice_chars(&rest, 0, i);
                let tail = slice_chars(&rest, i + 1, rest.len());
                let ghost before = views(out@);
                proof {
                    assert(head@ =~= rest@.take(i as int));
                    assert(tail@ =~= rest@.skip(i + 1));
                }
                out.push(head);
                proof {
                    assert(views(out@) =~= before.push(head@));
                    assert(before + split(rest@, c) =~= views(out@) + split(tail@, c));
                }
                rest = tail;
            },
        }
    }
}

/// `split_whitespace`.
pub fn split_ws_chars(a: &Vec<char>) -> (r: Vec<Vec<char>>)
    ensures
        views(r@) == split_ws(a@),
{
    let mut out: Vec<Vec<char>> = Vec::new();
    let mut i: usize = 0;
    proof {
        assert(a@.skip(0) =~= a@);
        assert(views(out@) =~= Seq::<Seq<char>>::empty());
        assert(views(out@) + split_ws(a@) =~= split_ws(a@));
    }
    while i < a.len()
        invariant
            i <= a.len(),
            views(out@) + split_ws(a@.skip(i as int)) == split_ws(a@),
        decreases a.len() - i,
    {
        let ghost rest = a@.skip(i as int);
        if char_is_ws(a[i]) {
            proof {
                assert(rest.drop_first() =~= a@.skip(i + 1));
            }
            i += 1;
        } else {
            let mut j: usize = i;
            while j < a.len() && !char_is_ws(a[j])
                invariant
                    i <= j <= a.len(),
                    forall|k: int| i <= k < j ==> !is_ws(#[trigger] a@[k]),
                decreases a.len() - j,
            {
                j += 1;
            }
            proof {
                lemma_word_len_exact(rest, j - i);
            }
            let w = slice_chars(a, i, j);
            let ghost before = views(out@);
            out.push(w);
            proof {
                assert(w@ =~= rest.take(j - i));
                assert(rest.skip(j - i) =~= a@.skip(j as int));
                assert(views(out@) =~= before.push(w@));
                assert(before + split_ws(rest) =~= views(out@) + split_ws(a@.skip(j as int)));
            }
            i = j;
        }
    }
    proof {
        assert(a@.skip(i as int) =~= Seq::<char>::empty());
        assert(views(out@) + split_ws(a@.skip(i as int)) =~= views(out@));
    }
    out
}

pub proof fn lemma_word_len_exact(s: Seq<char>, n: int)
    requires
        0 <= n <= s.len(),
        forall|k: int| 0 <= k < n ==> !is_ws(#[trigger] s[k]),
        n == s.len() || is_ws(s[n]),
    ensures
        word_len(s) == n,
    decreases n,
{
    if n > 0 {
        assert forall|k: int| 0 <= k < n - 1 implies !is_ws(#[trigger] s.drop_first()[k]) by {
            assert(s.drop_first()[k] == s[k + 1]);
        }
        lemma_word_len_exact(s.drop_first(), n - 1);
    }
}

/// The words of `str::split_whitespace` are non-empty and hold no white
/// space.
pub proof fn lemma_split_ws_words(s: Seq<char>)
    ensures
        forall|i: int| 0 <= i < split_ws(s).len() ==> (#[trigger] split_ws(s)[i]).len() > 0
            && forall|j: int| 0 <= j < split_ws(s)[i].len() ==> !is_ws(split_ws(s)[i][j]),
    decreases s.len(),
{
    if s.len() > 0 {
        if is_ws(s[0]) {
            lemma_split_ws_words(s.drop_first());
            assert(split_ws(s) == split_ws(s.drop_first()));
        } else {
            lemma_word_len(s);
            let w = word_len(s);
            lemma_split_ws_words(s.skip(w));
            let r = split_ws(s);
            assert(r == seq![s.take(w)] + split_ws(s.skip(w)));
            assert forall|i: int| 0 <= i < r.len() implies (#[trigger] r[i]).len() > 0
                && forall|j: int| 0 <= j < r[i].len() ==> !is_ws(r[i][j]) by {
                if i == 0 {
                    assert(r[0] == s.take(w));
                    assert forall|j: int| 0 <= j < r[0].len() implies !is_ws(r[0][j]) by {
                        assert(r[0][j] == s[j]);
                    }
                } else {
                    assert(r[i] == split_ws(s.skip(w))[i - 1]);
                }
            }
        }
    }
}

/// A word followed by a space starts the words of a text: the words of
/// `w + " " + rest` are `w` and then those of `rest`.
pub proof fn lemma_split_ws_cons(w: Seq<char>, rest: Seq<char>)
    requires
        w.len() > 0,
        forall|j: int| 0 <= j < w.len() ==> !is_ws(#[trigger] w[j]),
    ensures
        split_ws(w + seq![' '] + rest) == seq![w] + split_ws(rest),
{
    let s = w + seq![' '] + rest;
    assert forall|k: int| 0 <= k < w.len() implies !is_ws(#[trigger] s[k]) by {
        assert(s[k] == w[k]);
    }
    assert(s[w.len() as int] == ' ');
    lemma_word_len_exact(s, w.len() as int);
    assert(s.take(w.len() as int) =~= w);
    let t = s.skip(w.len() as int);
    assert(t =~= seq![' '] + rest);
    assert(t.drop_first() =~= rest);
    assert(is_ws(t[0]));
    assert(split_ws(t) == split_ws(rest));
    assert(!is_ws(s[0]));
    assert(split_ws(s) == seq![s.take(word_len(s))] + split_ws(s.skip(word_len(s))));
}

/// Replacing a pattern that does not occur changes nothing.
pub proof fn lemma_replace_absent(s: Seq<char>, from: Seq<char>, to: Seq<char>)
    requires
        from.len() > 0,
        forall|i: int| 0 <= i && i + from.len() <= s.len() ==> #[trigger] s.subrange(i, i + from.len())
            != from,
    ensures
        replace(s, from, to) == s,
    decreases s.len(),
{
    if s.len() >= from.len() {
        let i0: int = 0;
        assert(s.subrange(i0, i0 + from.len()) != from);
        assert(s.subrange(i0, i0 + from.len()) =~= s.take(from.len() as int));
        assert(s.take(from.len() as int) != from);
        let r = s.drop_first();
        assert forall|i: int| 0 <= i && i + from.len() <= r.len() implies #[trigger] r.subrange(
            i,
            i + from.len(),
        ) != from by {
            assert(r.subrange(i, i + from.len()) =~= s.subrange(i + 1, i + 1 + from.len()));
        }
        lemma_replace_absent(r, from, to);
        assert(seq![s[0]] + r =~= s);
    }
}

/// Pieces that are non-empty and hold no `c`.
pub open spec fn clean_pieces(a: Seq<Seq<char>>, c: char) -> bool {
    forall|i: int| 0 <= i < a.len() ==> (#[trigger] a[i]).len() > 0 && !a[i].contains(c)
}

proof fn lemma_join_shape(a: Seq<Seq<char>>, c: char)
    requires
        clean_pieces(a, c),
    ensures
        a.len() > 0 ==> join(a, seq![c]).len() > 0,
        a.len() == 1 ==> !join(a, seq![c]).contains(c),
        a.len() >= 2 ==> join(a, seq![c]) == join(a.drop_last(), seq![c]) + seq![c] + a.last()
            && clean_pieces(a.drop_last(), c),
{
    if a.len() >= 2 {
        assert forall|i: int| 0 <= i < a.drop_last().len() implies (#[trigger] a.drop_last()[i]).len() > 0
            && !a.drop_last()[i].contains(c) by {
            assert(a.drop_last()[i] == a[i]);
        }
        assert(a.last() == a[a.len() - 1]);
    }
    if a.len() == 1 {
        assert(join(a, seq![c]) == a[0]);
    }
}

/// Joining non-empty pieces that hold no separator loses nothing: equal
/// joined texts come from equal piece lists.
pub proof fn lemma_join_injective(a: Seq<Seq<char>>, b: Seq<Seq<char>>, c: char)
    requires
        clean_pieces(a, c),
        clean_pieces(b, c),
        join(a, seq![c]) == join(b, seq![c]),
    ensures
        a == b,
    decreases a.len() + b.len(),
{
    let x = join(a, seq![c]);
    lemma_join_shape(a, c);
    lemma_join_shape(b, c);
    if a.len() == 0 || b.len() == 0 {
        assert(a.len() == 0 && b.len() == 0);
        assert(a =~= b);
    } else if a.len() == 1 && b.len() == 1 {
        assert(a =~= b);
    } else if a.len() == 1 {
        let jb = join(b.drop_last(), seq![c]);
        assert(x[jb.len() as int] == c);
        assert(x.contains(c));
    } else if b.len() == 1 {
        let ja = join(a.drop_last(), seq![c]);
        assert(x[ja.len() as int] == c);
        assert(x.contains(c));
    } else {
        let ja = join(a.drop_last(), seq![c]);
        let jb = join(b.drop_last(), seq![c]);
        let al = a.last();
        let bl = b.last();
        assert(al == a[a.len() - 1]);
        assert(bl == b[b.len() - 1]);
        assert(x == ja + seq![c] + al);
        assert(x == jb + seq![c] + bl);
        if al.len() < bl.len() {
            let i = ja.len() as int;
            assert(x[i] == c);
            let k = i - jb.len() - 1;
            assert(0 <= k < bl.len());
            assert(bl[k] == x[i]);
            assert(bl.contains(c));
        } else if bl.len() < al.len() {
            let i = jb.len() as int;
            assert(x[i] == c);
            let k = i - ja.len() - 1;
            assert(0 <= k < al.len());
            assert(al[k] == x[i]);
            assert(al.contains(c));
        } else {
            assert(ja.len() == jb.len());
            assert(ja =~= x.take(ja.len() as int));
            assert(jb =~= x.take(jb.len() as int));
            assert(al =~= x.skip(ja.len() as int + 1));
            assert(bl =~= x.skip(jb.len() as int + 1));
            lemma_join_injective(a.drop_last(), b.drop_last(), c);
            assert(a =~= a.drop_last().push(al));
            assert(b =~= b.drop_last().push(bl));
        }
    }
}

/// Inserting keeps the pieces and adds one.
proof fn lemma_insert_sorted_from(s: Seq<Seq<char>>, x: Seq<char>)
    ensures
        insert_sorted(s, x).len() == s.len() + 1,
        forall|i: int| 0 <= i < insert_sorted(s, x).len() ==> (#[trigger] insert_sorted(s, x)[i]) == x
            || s.contains(insert_sorted(s, x)[i]),
    decreases s.len(),
{
    if s.len() > 0 && !str_lt(x, s[0]) {
        let r = s.drop_first();
        lemma_insert_sorted_from(r, x);
        let t = insert_sorted(s, x);
        assert(t == seq![s[0]] + insert_sorted(r, x));
        assert forall|i: int| 0 <= i < t.len() implies (#[trigger] t[i]) == x || s.contains(t[i]) by {
            if i == 0 {
                assert(s[0] == t[0]);
            } else {
                let u = insert_sorted(r, x);
                assert(t[i] == u[i - 1]);
                if r.contains(u[i - 1]) {
                    let j = choose|j: int| 0 <= j < r.len() && r[j] == u[i - 1];
                    assert(s[j + 1] == r[j]);
                }
            }
        }
    } else if s.len() > 0 {
        let t = insert_sorted(s, x);
        assert(t == seq![x] + s);
        assert forall|i: int| 0 <= i < t.len() implies (#[trigger] t[i]) == x || s.contains(t[i]) by {
            if i > 0 {
                assert(t[i] == s[i - 1]);
            }
        }
    }
}

/// Sorting keeps the pieces: every piece of the sorted list is one of the
/// list's.
pub proof fn lemma_sort_strs_from(s: Seq<Seq<char>>)
    ensures
        sort_strs(s).len() == s.len(),
        forall|i: int| 0 <= i < sort_strs(s).len() ==> s.contains(#[trigger] sort_strs(s)[i]),
    decreases s.len(),
{
    if s.len() > 0 {
        let r = s.drop_last();
        lemma_sort_strs_from(r);
        lemma_insert_sorted_from(sort_strs(r), s.last());
        let t = sort_strs(s);
        assert forall|i: int| 0 <= i < t.len() implies s.contains(#[trigger] t[i]) by {
            if t[i] == s.last() {
                assert(s[s.len() - 1] == s.last());
            } else {
                let u = sort_strs(r);
                assert(u.contains(t[i]));
                let j = choose|j: int| 0 <= j < u.len() && u[j] == t[i];
                assert(r.contains(u[j]));
                let m = choose|m: int| 0 <= m < r.len() && r[m] == u[j];
                assert(s[m] == r[m]);
            }
        }
    }
}

/// Pieces joined with `sep`.
pub fn join_chars(parts: &Vec<Vec<char>>, sep: &Vec<char>) -> (r: Vec<char>)
    ensures
        r@ == join(views(parts@), sep@),
{
    let mut out: Vec<char> = Vec::new();
    let mut i: usize = 0;
    while i < parts.len()
        invariant
            i <= parts.len(),
            out@ == join(views(parts@).take(i as int), sep@),
        decreases parts.len() - i,
    {
        let ghost pv = views(parts@);
        proof {
            if i == 0 {
                assert(pv.take(0) =~= Seq::<Seq<char>>::empty());
            }
        }
        if i > 0 {
            append_chars(&mut out, sep);
        }
        append_chars(&mut out, &parts[i]);
        i += 1;
        proof {
            let t = pv.take(i as int);
            assert(t.drop_last() =~= pv.take(i - 1));
            assert(t.last() == parts@[i - 1]@);
            if i == 1 {
                assert(pv.take(0) =~= Seq::<Seq<char>>::empty());
            }
        }
    }
    proof {
        assert(views(parts@).take(parts.len() as int) =~= views(parts@));
    }
    out
}

/// `s` begins with `p`.
pub fn starts_with_chars(s: &Vec<char>, p: &Vec<char>) -> (r: bool)
    ensures
        r == starts_with(s@, p@),
{
    if p.len() > s.len() {
        return false;
    }
    let h = slice_chars(s, 0, p.len());
    proof {
        assert(h@ =~= s@.take(p.len() as int));
    }
    seq_eq(&h, p)
}

/// `s` ends with `p`.
pub fn ends_with_chars(s: &Vec<char>, p: &Vec<char>) -> (r: bool)
    ensures
        r == ends_with(s@, p@),
{
    if p.len() > s.len() {
        return false;
    }
    let t = slice_chars(s, s.len() - p.len(), s.len());
    proof {
        assert(t@ =~= s@.skip(s.len() - p.len()));
    }
    seq_eq(&t, p)
}

/// `p` occurs in `s` at position `i`.
pub fn occurs_at_chars(s: &Vec<char>, p: &Vec<char>, i: usize) -> (r: bool)
    ensures
        r == occurs_at(s@, p@, i as int),
{
    if i > s.len() || p.len() > s.len() - i {
        return false;
    }
    let m = slice_chars(s, i, i + p.len());
    seq_eq(&m, p)
}

/// `p` occurs somewhere in `s`.
pub fn contains_chars(s: &Vec<char>, p: &Vec<char>) -> (r: bool)
    ensures
        r == contains(s@, p@),
{
    if p.len() > s.len() {
        proof {
            assert forall|i: int| !occurs_at(s@, p@, i) by {}
        }
        return false;
    }
    let last = s.len() - p.len();
    let mut i: usize = 0;
    loop
        invariant
            p.len() <= s.len(),
            last == s.len() - p.len(),
            i <= last,
            forall|k: int| 0 <= k < i ==> !occurs_at(s@, p@, k),
        decreases last - i,
    {
        if occurs_at_chars(s, p, i) {
            return true;
        }
        if i == last {
            proof {
                assert forall|k: int| !occurs_at(s@, p@, k) by {
                    if 0 <= k < i {
                    }
                }
            }
            return false;
        }
        i += 1;
    }
}

/// ASCII lower-casing.
pub fn lower_chars(a: &Vec<char>) -> (r: Vec<char>)
    ensures
        r@ == lower(a@),
{
    let mut r: Vec<char> = Vec::new();
    let mut i: usize = 0;
    while i < a.len()
        invariant
            i <= a.len(),
            r@ == lower(a@.take(i as int)),
        decreases a.len() - i,
    {
        r.push(char_lower(a[i]));
        i += 1;
        proof {
            assert(lower(a@.take(i as int)) =~= lower(a@.take(i - 1)).push(lower_char(a@[i - 1])));
        }
    }
    proof {
        assert(a@.take(a.len() as int) =~= a@);
    }
    r
}

/// Every occurrence of a non-empty `from` replaced by `to`, left to right.
pub fn replace_chars(s: &Vec<char>, from: &Vec<char>, to: &Vec<char>) -> (r: Vec<char>)
    ensures
        r@ == replace(s@, from@, to@),
{
    let mut out: Vec<char> = Vec::new();
    let mut i: usize = 0;
    if from.len() == 0 {
        proof {
            assert(s@.skip(0) =~= s@);
            assert(out@ + interleave(s@, to@) =~= interleave(s@, to@));
        }
        while i < s.len()
            invariant
                from.len() == 0,
                i <= s.len(),
                out@ + interleave(s@.skip(i as int), to@) == replace(s@, from@, to@),
            decreases s.len() - i,
        {
            let ghost rest = s@.skip(i as int);
            let ghost before = out@;
            proof {
                assert(rest.drop_first() =~= s@.skip(i + 1));
                assert(rest[0] == s@[i as int]);
            }
            append_chars(&mut out, to);
            out.push(s[i]);
            i += 1;
            proof {
                assert(out@ + interleave(s@.skip(i as int), to@) =~= before + interleave(rest, to@));
            }
        }
        proof {
            assert(s@.skip(i as int) =~= Seq::<char>::empty());
        }
        append_chars(&mut out, to);
        return out;
    }
    proof {
        assert(s@.skip(0) =~= s@);
        assert(out@ + replace(s@, from@, to@) =~= replace(s@, from@, to@));
    }
    while i < s.len()
        invariant
            from.len() > 0,
            i <= s.len(),
            out@ + replace(s@.skip(i as int), from@, to@) == replace(s@, from@, to@),
        decreases s.len() - i,
    {
        let ghost rest = s@.skip(i as int);
        if from.len() <= s.len() - i && occurs_at_chars(s, from, i) {
            proof {
                assert(rest.take(from.len() as int) =~= s@.subrange(i as int, i + from.len()));
                assert(rest.skip(from.len() as int) =~= s@.skip(i + from.len()));
            }
            append_chars(&mut out, to);
            i += from.len();
        } else {
            proof {
                if from.len() <= rest.len() {
                    assert(rest.take(from.len() as int) =~= s@.subrange(i as int, i + from.len()));
                }
                assert(rest.drop_first() =~= s@.skip(i + 1));
            }
            out.push(s[i]);
            i += 1;
        }
    }
    proof {
        assert(s@.skip(i as int) =~= Seq::<char>::empty());
    }
    out
}

/// Decimal digits of an unsigned number.
pub fn u64_dec(n: u64) -> (r: Vec<char>)
    ensures
        r@ == nat_dec(n as nat),
    decreases n,
{
    if n < 10 {
        let c = ((n as u8) + 48) as char;
        proof {
            assert(c == ('0' as u32 + n as nat) as char);
        }
        let mut v: Vec<char> = Vec::new();
        v.push(c);
        proof {
            assert(v@ =~= seq![('0' as u32 + n as nat) as char]);
        }
        v
    } else {
        let mut v = u64_dec(n / 10);
        let d = ((n % 10) as u8 + 48) as char;
        proof {
            assert(d == ('0' as u32 + (n as nat % 10)) as char);
        }
        v.push(d);
        v
    }
}

/// Decimal rendering of a signed number (`i64::to_string`).
pub fn i64_dec(n: i64) -> (r: Vec<char>)
    ensures
        r@ == int_dec(n as int),
{
    if n < 0 {
        let m: u64 = if n == i64::MIN {
            9223372036854775808u64
        } else {
            (-n) as u64
        };
        let d = u64_dec(m);
        let mut v: Vec<char> = Vec::new();
        v.push('-');
        append_chars(&mut v, &d);
        proof {
            assert(v@ =~= seq!['-'] + nat_dec((-(n as int)) as nat));
        }
        v
    } else {
        u64_dec(n as u64)
    }
}


pub proof fn lemma_digits_mono(s: Seq<char>, i: int, j: int)
    requires
        0 <= i <= j <= s.len(),
        all_digits(s),
    ensures
        digits_value(s.take(i)) <= digits_value(s.take(j)),
        0 <= digits_value(s.take(i)),
    decreases j - i,
{
    if i < j {
        lemma_digits_mono(s, i, j - 1);
        assert(s.take(j).drop_last() =~= s.take(j - 1));
        assert(is_ascii_digit(s[j - 1]));
    } else {
        lemma_digits_nonneg(s.take(i));
    }
}

proof fn lemma_digits_nonneg(s: Seq<char>)
    requires
        all_digits(s),
    ensures
        0 <= digits_value(s),
    decreases s.len(),
{
    if s.len() > 0 {
        assert(is_ascii_digit(s.last()));
        assert forall|k: int| 0 <= k < s.drop_last().len() implies #[trigger] is_ascii_digit(
            s.drop_last()[k],
        ) by {
            assert(s.drop_last()[k] == s[k]);
        }
        lemma_digits_nonneg(s.drop_last());
    }
}

/// `<i32 as FromStr>::from_str` on a character sequence.
pub fn parse_i32_chars(a: &Vec<char>) -> (r: Option<i32>)
    ensures
        match r {
            Some(v) => parse_i32(a@) == Some(v as int),
            None => parse_i32(a@) is None,
        },
{
    let mut start: usize = 0;
    let mut neg = false;
    if a.len() > 0 && a[0] == '-' {
        start = 1;
        neg = true;
    } else if a.len() > 0 && a[0] == '+' {
        start = 1;
    }
    let ghost body = a@.skip(start as int);
    proof {
        if start == 1 {
            assert(body =~= a@.skip(1));
        } else {
            assert(body =~= a@);
        }
    }
    if start == a.len() {
        return None;
    }
    let mut k: usize = start;
    while k < a.len()
        invariant
            start <= k <= a.len(),
            body == a@.skip(start as int),
            body == (if a@.len() > 0 && (a@[0] == '-' || a@[0] == '+') { a@.skip(1) } else { a@ }),
            forall|j: int| 0 <= j < k - start ==> #[trigger] is_ascii_digit(body[j]),
        decreases a.len() - k,
    {
        if !('0' <= a[k] && a[k] <= '9') {
            proof {
                assert(!is_ascii_digit(body[k - start]));
                assert(!all_digits(body));
            }
            return None;
        }
        k += 1;
    }
    proof {
        assert(all_digits(body));
    }
    let mut v: i64 = 0;
    let mut i: usize = start;
    proof {
        assert(body.take(0) =~= Seq::<char>::empty());
    }
    while i < a.len()
        invariant
            start <= i <= a.len(),
            body == a@.skip(start as int),
            body == (if a@.len() > 0 && (a@[0] == '-' || a@[0] == '+') { a@.skip(1) } else { a@ }),
            neg == (a@.len() > 0 && a@[0] == '-'),
            body.len() == a.len() - start,
            all_digits(body),
            v as int == digits_value(body.take(i - start)),
            0 <= v <= 2147483648,
        decreases a.len() - i,
    {
        proof {
            assert(a@[i as int] == body[i - start]);
            assert(is_ascii_digit(body[i - start]));
            assert(body.take(i - start + 1).drop_last() =~= body.take(i - start));
            assert(body.take(i - start + 1).last() == body[i - start]);
        }
        let d: i64 = ((a[i] as u32) - 48) as i64;
        let nv = v * 10 + d;
        i += 1;
        proof {
            assert(nv as int == digits_value(body.take(i - start)));
        }
        if nv > 2147483648 {
            proof {
                lemma_digits_mono(body, i - start, body.len() as int);
                assert(body.take(body.len() as int) =~= body);
            }
            return None;
        }
        v = nv;
    }
    proof {
        assert(body.take(body.len() as int) =~= body);
    }
    if neg {
        let r = -v;
        Some(r as i32)
    } else if v > 2147483647 {
        None
    } else {
        Some(v as i32)
    }
}

/// `<usize as FromStr>::from_str` on a character sequence.
pub fn parse_usize_chars(a: &Vec<char>) -> (r: Option<usize>)
    ensures
        match r {
            Some(v) => parse_usize(a@) == Some(v as int),
            None => parse_usize(a@) is None,
        },
{
    let start: usize = if a.len() > 0 && a[0] == '+' {
        1
    } else {
        0
    };
    let ghost body = a@.skip(start as int);
    proof {
        if start == 0 {
            assert(body =~= a@);
        }
        assert(body == (if a@.len() > 0 && a@[0] == '+' { a@.skip(1) } else { a@ }));
    }
    if start == a.len() {
        return None;
    }
    let mut k: usize = start;
    while k < a.len()
        invariant
            start <= k <= a.len(),
            body == a@.skip(start as int),
            body == (if a@.len() > 0 && a@[0] == '+' { a@.skip(1) } else { a@ }),
            forall|j: int| 0 <= j < k - start ==> #[trigger] is_ascii_digit(body[j]),
        decreases a.len() - k,
    {
        if !('0' <= a[k] && a[k] <= '9') {
            proof {
                assert(!is_ascii_digit(body[k - start]));
            }
            return None;
        }
        k += 1;
    }
    proof {
        assert(all_digits(body));
        assert(body.take(0) =~= Seq::<char>::empty());
    }
    let mut v: u128 = 0;
    let mut i: usize = start;
    while i < a.len()
        invariant
            start <= i <= a.len(),
            body == a@.skip(start as int),
            body == (if a@.len() > 0 && a@[0] == '+' { a@.skip(1) } else { a@ }),
            body.len() == a.len() - start,
            all_digits(body),
            v as int == digits_value(body.take(i - start)),
            v <= usize::MAX,
        decreases a.len() - i,
    {
        proof {
            assert(a@[i as int] == body[i - start]);
            assert(is_ascii_digit(body[i - start]));
            assert(body.take(i - start + 1).drop_last() =~= body.take(i - start));
            assert(body.take(i - start + 1).last() == body[i - start]);
        }
        let d: u128 = ((a[i] as u32) - 48) as u128;
        let nv = v * 10 + d;
        i += 1;
        proof {
            assert(nv as int == digits_value(body.take(i - start)));
        }
        if nv > usize::MAX as u128 {
            proof {
                lemma_digits_mono(body, i - start, body.len() as int);
                assert(body.take(body.len() as int) =~= body);
            }
            return None;
        }
        v = nv;
    }
    proof {
        assert(body.take(body.len() as int) =~= body);
    }
    Some(v as usize)
}

// ---------------------------------------------------------------------------
// Ordering of strings (as `Ord for String` orders them: by code point, a
// proper prefix first) and sorting
// ---------------------------------------------------------------------------

/// `a < b` in the order of `Ord for String`.
pub open spec fn str_lt(a: Seq<char>, b: Seq<char>) -> bool
    decreases a.len(),
{
    if a.len() == 0 {
        b.len() > 0
    } else if b.len() == 0 {
        false
    } else if a[0] != b[0] {
        a[0] < b[0]
    } else {
        str_lt(a.drop_first(), b.drop_first())
    }
}

/// No string is smaller than itself.
pub proof fn lemma_str_lt_irreflexive(a: Seq<char>)
    ensures
        !str_lt(a, a),
    decreases a.len(),
{
    if a.len() > 0 {
        lemma_str_lt_irreflexive(a.drop_first());
    }
}

/// The string order is transitive.
pub proof fn lemma_str_lt_transitive(a: Seq<char>, b: Seq<char>, c: Seq<char>)
    requires
        str_lt(a, b),
        str_lt(b, c),
    ensures
        str_lt(a, c),
    decreases a.len(),
{
    if a.len() > 0 && b.len() > 0 && c.len() > 0 && a[0] == b[0] && b[0] == c[0] {
        lemma_str_lt_transitive(a.drop_first(), b.drop_first(), c.drop_first());
    }
}

/// `x` placed into a sorted sequence before the first element greater than it.
pub open spec fn insert_sorted(s: Seq<Seq<char>>, x: Seq<char>) -> Seq<Seq<char>>
    decreases s.len(),
{
    if s.len() == 0 {
        seq![x]
    } else if str_lt(x, s[0]) {
        seq![x] + s
    } else {
        seq![s[0]] + insert_sorted(s.drop_first(), x)
    }
}

/// The strings of `s` in ascending order (`slice::sort`).
pub open spec fn sort_strs(s: Seq<Seq<char>>) -> Seq<Seq<char>>
    decreases s.len(),
{
    if s.len() == 0 {
        seq![]
    } else {
        insert_sorted(sort_strs(s.drop_last()), s.last())
    }
}

proof fn lemma_str_lt_skip(a: Seq<char>, b: Seq<char>, i: int)
    requires
        0 <= i <= a.len(),
        i <= b.len(),
        forall|j: int| 0 <= j < i ==> a[j] == b[j],
    ensures
        str_lt(a, b) == str_lt(a.skip(i), b.skip(i)),
    decreases i,
{
    if i > 0 {
        assert(a.drop_first().skip(i - 1) =~= a.skip(i));
        assert(b.drop_first().skip(i - 1) =~= b.skip(i));
        assert forall|j: int| 0 <= j < i - 1 implies a.drop_first()[j] == b.drop_first()[j] by {
            assert(a[j + 1] == b[j + 1]);
        }
        lemma_str_lt_skip(a.drop_first(), b.drop_first(), i - 1);
    } else {
        assert(a.skip(0) =~= a);
        assert(b.skip(0) =~= b);
    }
}

/// `a < b` in string order.
pub fn lt_chars(a: &Vec<char>, b: &Vec<char>) -> (r: bool)
    ensures
        r == str_lt(a@, b@),
{
    let mut i: usize = 0;
    while i < a.len() && i < b.len() && a[i] == b[i]
        invariant
            i <= a.len(),
            i <= b.len(),
            forall|j: int| 0 <= j < i ==> a@[j] == b@[j],
        decreases a.len() - i,
    {
        i += 1;
    }
    proof {
        lemma_str_lt_skip(a@, b@, i as int);
    }
    if i == a.len() {
        i < b.len()
    } else if i == b.len() {
        false
    } else {
        a[i] < b[i]
    }
}

proof fn lemma_insert_sorted_at(s: Seq<Seq<char>>, x: Seq<char>, p: int)
    requires
        0 <= p <= s.len(),
        forall|j: int| 0 <= j < p ==> !str_lt(x, #[trigger] s[j]),
        p == s.len() || str_lt(x, s[p]),
    ensures
        insert_sorted(s, x) == s.insert(p, x),
    decreases s.len(),
{
    if s.len() == 0 {
        assert(s.insert(p, x) =~= seq![x]);
    } else if p == 0 {
        assert(s.insert(0, x) =~= seq![x] + s);
    } else {
        assert(!str_lt(x, s[0]));
        assert forall|j: int| 0 <= j < p - 1 implies !str_lt(x, #[trigger] s.drop_first()[j]) by {
            assert(s.drop_first()[j] == s[j + 1]);
        }
        lemma_insert_sorted_at(s.drop_first(), x, p - 1);
        assert(seq![s[0]] + s.drop_first().insert(p - 1, x) =~= s.insert(p, x));
    }
}

/// The strings sorted in ascending order.
pub fn sort_char_vecs(v: &Vec<Vec<char>>) -> (r: Vec<Vec<char>>)
    ensures
        views(r@) == sort_strs(views(v@)),
{
    let mut r: Vec<Vec<char>> = Vec::new();
    let mut i: usize = 0;
    proof {
        assert(views(v@).take(0) =~= Seq::<Seq<char>>::empty());
        assert(views(r@) =~= Seq::<Seq<char>>::empty());
    }
    while i < v.len()
        invariant
            i <= v.len(),
            views(r@) == sort_strs(views(v@).take(i as int)),
        decreases v.len() - i,
    {
        let x = copy_chars(&v[i]);
        let mut p: usize = 0;
        while p < r.len() && !lt_chars(&x, &r[p])
            invariant
                p <= r.len(),
                forall|j: int| 0 <= j < p ==> !str_lt(x@, #[trigger] views(r@)[j]),
            decreases r.len() - p,
        {
            p += 1;
        }
        let ghost before = views(r@);
        proof {
            lemma_insert_sorted_at(before, x@, p as int);
            let t = views(v@).take(i + 1);
            assert(t.drop_last() =~= views(v@).take(i as int));
            assert(t.last() == x@);
        }
        r.insert(p, x);
        proof {
            assert(views(r@) =~= before.insert(p as int, x@));
        }
        i += 1;
    }
    proof {
        assert(views(v@).take(v.len() as int) =~= views(v@));
    }
    r
}

/// The characters of each string.
pub fn chars_of_all(v: &[String]) -> (r: Vec<Vec<char>>)
    ensures
        views(r@) == v@.map_values(|s: String| s@),
{
    let mut r: Vec<Vec<char>> = Vec::new();
    let mut i: usize = 0;
    while i < v.len()
        invariant
            i <= v.len(),
            views(r@) == v@.take(i as int).map_values(|s: String| s@),
        decreases v.len() - i,
    {
        let c = chars_of(v[i].as_str());
        let ghost before = views(r@);
        r.push(c);
        i += 1;
        proof {
            assert(views(r@) =~= before.push(c@));
            assert(v@.take(i as int).map_values(|s: String| s@) =~= v@.take(i - 1).map_values(
                |s: String| s@,
            ).push(v@[i - 1]@));
        }
    }
    proof {
        assert(v@.take(v.len() as int) =~= v@);
    }
    r
}

} // verus!
