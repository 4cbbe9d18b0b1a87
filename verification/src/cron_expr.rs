//! Cron expressions: the standard five-field form (`minute hour day month
//! weekday`, Sunday written 0 or 7) converted to the seven-field form that the
//! `cron` crate reads (a leading seconds field `0`, a trailing year field `*`,
//! weekdays renumbered 1-7 with 1 = Sunday), and the schedule computations made
//! on that form.
use std::str::FromStr;

use vstd::prelude::*;

use crate::text::{
    append_chars, chars_of, i64_dec, int_dec, is_ascii_alpha, join, join_chars, parse_i32,
    parse_i32_chars, split, split_chars, split_once, split_once_chars, split_ws, split_ws_chars,
    string_of, trim, trim_chars, views,
};

verus! {

/// Why a cron expression was refused.
#[derive(Debug, Clone, Copy, PartialEq, Eq)]
pub enum CronError {
    /// The expression does not have exactly five whitespace-separated fields.
    Arity { found: usize },
    /// A weekday step (`a/n`) is not an integer.
    InvalidStep,
    /// A weekday step is zero or negative.
    NonPositiveStep,
    /// A weekday value is not an integer.
    InvalidWeekday,
    /// The `cron` crate refused the converted expression.
    Rejected,
    /// The expression has no upcoming trigger time.
    NoUpcoming,
}

/// Weekday number of the standard form (0-7, 0 and 7 = Sunday) as the seven-field
/// form numbers it (1-7, 1 = Sunday); other values are kept as they are.
pub open spec fn dow_value(v: int) -> int {
    if v == 0 || v == 7 {
        1
    } else if 1 <= v <= 6 {
        v + 1
    } else {
        v
    }
}

/// 7 (Sunday) folded onto 0.
pub open spec fn dow_norm(v: int) -> int {
    if v == 7 {
        0
    } else {
        v
    }
}

/// The integers `a..=b`.
pub open spec fn irange(a: int, b: int) -> Seq<int> {
    Seq::new(if b >= a { (b - a + 1) as nat } else { 0 }, |i: int| a + i)
}

/// Weekday range `a-b` on the standard week ring, wrapping past Saturday
/// (`5-7` is 5, 6, 0); `0-7` runs from Sunday to Sunday, the whole week.
pub open spec fn dow_range(a: int, b: int) -> Seq<int> {
    let na = dow_norm(a);
    let nb = dow_norm(b);
    if a == 0 && b == 7 {
        irange(0, 6)
    } else if na <= nb {
        irange(na, nb)
    } else {
        irange(na, 6) + irange(0, nb)
    }
}

/// Every `k`-th element of `s`, starting with the first (`Iterator::step_by`).
pub open spec fn sampled(s: Seq<int>, k: int) -> Seq<int>
    decreases s.len(),
{
    if s.len() == 0 || k < 1 {
        s
    } else {
        seq![s[0]] + sampled(s.skip(if k < s.len() { k } else { s.len() as int }), k)
    }
}

/// Weekday values rendered in the seven-field numbering and joined by commas.
pub open spec fn dow_list(vals: Seq<int>) -> Seq<char> {
    join(vals.map_values(|v: int| int_dec(dow_value(v))), seq![','])
}

/// A weekday value: an `i32` after trimming.
pub open spec fn dow_parse(v: Seq<char>) -> Option<int> {
    parse_i32(trim(v))
}

pub open spec fn star() -> Seq<char> {
    seq!['*']
}

/// One comma-separated item of the weekday field, converted.
pub open spec fn dow_item(raw: Seq<char>) -> Result<Seq<char>, CronError> {
    let item = trim(raw);
    match split_once(item, '/') {
        Some((range, step)) => match parse_i32(step) {
            None => Err(CronError::InvalidStep),
            Some(st) => if st < 1 {
                Err(CronError::NonPositiveStep)
            } else if range == star() {
                Ok(seq!['*', '/'] + int_dec(st))
            } else {
                match split_once(range, '-') {
                    Some((a, b)) => match (dow_parse(a), dow_parse(b)) {
                        (Some(x), Some(y)) => Ok(dow_list(sampled(dow_range(x, y), st))),
                        _ => Err(CronError::InvalidWeekday),
                    },
                    None => match dow_parse(range) {
                        Some(x) => Ok(dow_list(sampled(irange(dow_norm(x), 6), st))),
                        None => Err(CronError::InvalidWeekday),
                    },
                }
            },
        },
        None => match split_once(item, '-') {
            Some((a, b)) => match (dow_parse(a), dow_parse(b)) {
                (Some(x), Some(y)) => if x == y {
                    Ok(int_dec(dow_value(x)))
                } else {
                    Ok(dow_list(dow_range(x, y)))
                },
                _ => Err(CronError::InvalidWeekday),
            },
            None => match dow_parse(item) {
                Some(x) => Ok(int_dec(dow_value(x))),
                None => Err(CronError::InvalidWeekday),
            },
        },
    }
}

/// Items converted one after the other; the first refusal wins.
pub open spec fn dow_items(items: Seq<Seq<char>>) -> Result<Seq<Seq<char>>, CronError>
    decreases items.len(),
{
    if items.len() == 0 {
        Ok(seq![])
    } else {
        match dow_item(items[0]) {
            Err(e) => Err(e),
            Ok(x) => match dow_items(items.drop_first()) {
                Err(e) => Err(e),
                Ok(rest) => Ok(seq![x] + rest),
            },
        }
    }
}

pub open spec fn all_ascii_alpha(s: Seq<char>) -> bool {
    forall|i: int| 0 <= i < s.len() ==> #[trigger] is_ascii_alpha(s[i])
}

/// The weekday field converted: `*` and names (`MON`, ...) pass through,
/// numeric items are renumbered.
pub open spec fn dow_field(field: Seq<char>) -> Result<Seq<char>, CronError> {
    let f = trim(field);
    if f == star() || all_ascii_alpha(f) {
        Ok(f)
    } else {
        match dow_items(split(f, ',')) {
            Ok(parts) => Ok(join(parts, seq![','])),
            Err(e) => Err(e),
        }
    }
}

/// The seven-field form of a five-field expression.
pub open spec fn seven_field(expr: Seq<char>) -> Result<Seq<char>, CronError> {
    let p = split_ws(expr);
    if p.len() != 5 {
        Err(CronError::Arity { found: p.len() as usize })
    } else {
        match dow_field(p[4]) {
            Err(e) => Err(e),
            Ok(d) => Ok(seq!['0', ' '] + p[0] + seq![' '] + p[1] + seq![' '] + p[2] + seq![' ']
                + p[3] + seq![' '] + d + seq![' ', '*']),
        }
    }
}

/// The seven-field form keeps the five fields in place: read with
/// `split_whitespace`, it is `0`, then the minute, hour, day-of-month and
/// month fields of the input in that order, then the weekday field and the
/// year field.
pub proof fn law_seven_field_keeps_fields(expr: Seq<char>)
    ensures
        seven_field(expr) matches Ok(s7) ==> {
            &&& split_ws(s7).len() >= 5
            &&& split_ws(s7)[0] == seq!['0']
            &&& split_ws(s7).subrange(1, 5) == split_ws(expr).subrange(0, 4)
        },
{
    let p = split_ws(expr);
    if p.len() == 5 {
        match dow_field(p[4]) {
            Ok(d) => {
                crate::text::lemma_split_ws_words(expr);
                assert(p[0].len() > 0 && forall|j: int| 0 <= j < p[0].len() ==> !crate::text::is_ws(p[0][j]));
                assert(p[1].len() > 0 && forall|j: int| 0 <= j < p[1].len() ==> !crate::text::is_ws(p[1][j]));
                assert(p[2].len() > 0 && forall|j: int| 0 <= j < p[2].len() ==> !crate::text::is_ws(p[2][j]));
                assert(p[3].len() > 0 && forall|j: int| 0 <= j < p[3].len() ==> !crate::text::is_ws(p[3][j]));
                let r4 = d + seq![' ', '*'];
                let r3 = p[3] + seq![' '] + r4;
                let r2 = p[2] + seq![' '] + r3;
                let r1 = p[1] + seq![' '] + r2;
                let r0 = p[0] + seq![' '] + r1;
                let zero = seq!['0'];
                let s7 = zero + seq![' '] + r0;
                assert(s7 =~= seq!['0', ' '] + p[0] + seq![' '] + p[1] + seq![' '] + p[2] + seq![' ']
                    + p[3] + seq![' '] + d + seq![' ', '*']);
                assert(!crate::text::is_ws(zero[0]));
                crate::text::lemma_split_ws_cons(zero, r0);
                crate::text::lemma_split_ws_cons(p[0], r1);
                crate::text::lemma_split_ws_cons(p[1], r2);
                crate::text::lemma_split_ws_cons(p[2], r3);
                crate::text::lemma_split_ws_cons(p[3], r4);
                let w = split_ws(s7);
                assert(w =~= seq![zero, p[0], p[1], p[2], p[3]] + split_ws(r4));
                assert(w.subrange(1, 5) =~= p.subrange(0, 4));
            },
            Err(_) => {},
        }
    }
}

// ---------------------------------------------------------------------------

fn map_dow(v: i32) -> (r: i32)
    ensures
        r == dow_value(v as int),
{
    if v == 0 || v == 7 {
        1
    } else if 1 <= v && v <= 6 {
        v + 1
    } else {
        v
    }
}

/// The integers `a..=b`.
fn int_range(a: i32, b: i32) -> (r: Vec<i32>)
    ensures
        r@.map_values(|x: i32| x as int) == irange(a as int, b as int),
{
    let mut r: Vec<i32> = Vec::new();
    if a > b {
        proof {
            assert(r@.map_values(|x: i32| x as int) =~= irange(a as int, b as int));
        }
        return r;
    }
    let mut x: i32 = a;
    loop
        invariant
            a <= x <= b,
            r@.map_values(|y: i32| y as int) =~= irange(a as int, x - 1),
        decreases b - x,
    {
        let ghost before = r@;
        r.push(x);
        proof {
            assert(irange(a as int, x as int) =~= irange(a as int, x - 1).push(x as int));
            assert(r@ == before.push(x));
            assert(r@.map_values(|y: i32| y as int) =~= before.map_values(|y: i32| y as int).push(
                x as int,
            ));
        }
        if x == b {
            return r;
        }
        x = x + 1;
    }
}

fn expand_dow_range(a: i32, b: i32) -> (r: Vec<i32>)
    ensures
        r@.map_values(|x: i32| x as int) == dow_range(a as int, b as int),
{
    let na = if a == 7 { 0 } else { a };
    let nb = if b == 7 { 0 } else { b };
    if a == 0 && b == 7 {
        int_range(0, 6)
    } else if na <= nb {
        int_range(na, nb)
    } else {
        let mut r = int_range(na, 6);
        let s = int_range(0, nb);
        let ghost r0 = r@;
        let mut i: usize = 0;
        while i < s.len()
            invariant
                i <= s.len(),
                r@ == r0 + s@.take(i as int),
            decreases s.len() - i,
        {
            r.push(s[i]);
            i += 1;
            proof {
                assert(s@.take(i as int) =~= s@.take(i - 1).push(s@[i - 1]));
                assert(r0 + s@.take(i as int) =~= (r0 + s@.take(i - 1)).push(s@[i - 1]));
            }
        }
        proof {
            assert(s@.take(s.len() as int) =~= s@);
            assert(r@.map_values(|x: i32| x as int) =~= r0.map_values(|x: i32| x as int)
                + s@.map_values(|x: i32| x as int));
        }
        r
    }
}

/// Every `k`-th value, starting with the first.
fn step_values(v: &Vec<i32>, k: usize) -> (r: Vec<i32>)
    requires
        k >= 1,
    ensures
        r@.map_values(|x: i32| x as int) == sampled(v@.map_values(|x: i32| x as int), k as int),
{
    let ghost vs = v@.map_values(|x: i32| x as int);
    let mut r: Vec<i32> = Vec::new();
    let mut i: usize = 0;
    proof {
        assert(vs.skip(0) =~= vs);
    }
    while i < v.len()
        invariant
            k >= 1,
            i <= v.len(),
            vs == v@.map_values(|x: i32| x as int),
            r@.map_values(|x: i32| x as int) + sampled(vs.skip(i as int), k as int) == sampled(
                vs,
                k as int,
            ),
        decreases v.len() - i,
    {
        let ghost rest = vs.skip(i as int);
        let ghost before = r@.map_values(|x: i32| x as int);
        r.push(v[i]);
        let next: usize = if v.len() - i <= k {
            v.len()
        } else {
            i + k
        };
        proof {
            assert(rest[0] == v@[i as int] as int);
            let m = if (k as int) < rest.len() {
                k as int
            } else {
                rest.len() as int
            };
            assert(rest.skip(m) =~= vs.skip(next as int));
            assert(r@.map_values(|x: i32| x as int) =~= before.push(v@[i as int] as int));
            assert(sampled(rest, k as int) == seq![rest[0]] + sampled(rest.skip(m), k as int));
            assert(before.push(v@[i as int] as int) + sampled(vs.skip(next as int), k as int)
                =~= before + sampled(rest, k as int));
        }
        i = next;
    }
    proof {
        assert(vs.skip(i as int) =~= Seq::<int>::empty());
        assert(r@.map_values(|x: i32| x as int) + sampled(vs.skip(i as int), k as int)
            =~= r@.map_values(|x: i32| x as int));
    }
    r
}

/// Weekday values renumbered and joined by commas.
fn join_dow(values: &Vec<i32>) -> (r: Vec<char>)
    ensures
        r@ == dow_list(values@.map_values(|x: i32| x as int)),
{
    let ghost vs = values@.map_values(|x: i32| x as int);
    let mut parts: Vec<Vec<char>> = Vec::new();
    let mut i: usize = 0;
    while i < values.len()
        invariant
            i <= values.len(),
            vs == values@.map_values(|x: i32| x as int),
            views(parts@) == vs.take(i as int).map_values(|v: int| int_dec(dow_value(v))),
        decreases values.len() - i,
    {
        let d = i64_dec(map_dow(values[i]) as i64);
        let ghost before = views(parts@);
        parts.push(d);
        i += 1;
        proof {
            assert(views(parts@) =~= before.push(d@));
            assert(vs.take(i as int).map_values(|v: int| int_dec(dow_value(v))) =~= vs.take(
                i - 1,
            ).map_values(|v: int| int_dec(dow_value(v))).push(int_dec(dow_value(vs[i - 1]))));
        }
    }
    proof {
        assert(vs.take(values.len() as int) =~= vs);
    }
    let mut sep: Vec<char> = Vec::new();
    sep.push(',');
    proof {
        assert(sep@ =~= seq![',']);
    }
    join_chars(&parts, &sep)
}

fn parse_dow(v: &Vec<char>) -> (r: Result<i32, CronError>)
    ensures
        match r {
            Ok(x) => dow_parse(v@) == Some(x as int),
            Err(e) => dow_parse(v@) is None && e == CronError::InvalidWeekday,
        },
{
    let t = trim_chars(v);
    match parse_i32_chars(&t) {
        Some(x) => Ok(x),
        None => Err(CronError::InvalidWeekday),
    }
}

fn is_star(s: &Vec<char>) -> (r: bool)
    ensures
        r == (s@ == star()),
{
    let r = s.len() == 1 && s[0] == '*';
    proof {
        if s.len() == 1 && s@[0] == '*' {
            assert(s@ =~= star());
        }
    }
    r
}

fn convert_item(raw: &Vec<char>) -> (r: Result<Vec<char>, CronError>)
    ensures
        match r {
            Ok(x) => dow_item(raw@) == Ok::<Seq<char>, CronError>(x@),
            Err(e) => dow_item(raw@) == Err::<Seq<char>, CronError>(e),
        },
{
    let item = trim_chars(raw);
    match split_once_chars(&item, '/') {
        Some((range, step)) => {
            let st = match parse_i32_chars(&step) {
                Some(s) => s,
                None => return Err(CronError::InvalidStep),
            };
            if st < 1 {
                return Err(CronError::NonPositiveStep);
            }
            if is_star(&range) {
                let mut out: Vec<char> = Vec::new();
                out.push('*');
                out.push('/');
                let d = i64_dec(st as i64);
                append_chars(&mut out, &d);
                proof {
                    assert(out@ =~= seq!['*', '/'] + int_dec(st as int));
                }
                return Ok(out);
            }
            let vals = match split_once_chars(&range, '-') {
                Some((a, b)) => {
                    let x = parse_dow(&a)?;
                    let y = parse_dow(&b)?;
                    expand_dow_range(x, y)
                },
                None => {
                    let x = parse_dow(&range)?;
                    let start = if x == 7 {
                        0
                    } else {
                        x
                    };
                    int_range(start, 6)
                },
            };
            let picked = step_values(&vals, st as usize);
            Ok(join_dow(&picked))
        },
        None => match split_once_chars(&item, '-') {
            Some((a, b)) => {
                let x = parse_dow(&a)?;
                let y = parse_dow(&b)?;
                if x == y {
                    Ok(i64_dec(map_dow(x) as i64))
                } else {
                    let vals = expand_dow_range(x, y);
                    Ok(join_dow(&vals))
                }
            },
            None => {
                let x = parse_dow(&item)?;
                Ok(i64_dec(map_dow(x) as i64))
            },
        },
    }
}

/// Converts the weekday field of a five-field expression.
pub fn convert_dow(field: &Vec<char>) -> (r: Result<Vec<char>, CronError>)
    ensures
        match r {
            Ok(x) => dow_field(field@) == Ok::<Seq<char>, CronError>(x@),
            Err(e) => dow_field(field@) == Err::<Seq<char>, CronError>(e),
        },
{
    let f = trim_chars(field);
    let mut alpha = true;
    let mut i: usize = 0;
    while i < f.len()
        invariant
            i <= f.len(),
            alpha == (forall|j: int| 0 <= j < i ==> #[trigger] is_ascii_alpha(f@[j])),
        decreases f.len() - i,
    {
        let c = f[i];
        if !(('A' <= c && c <= 'Z') || ('a' <= c && c <= 'z')) {
            alpha = false;
        }
        i += 1;
        proof {
            if !is_ascii_alpha(f@[i - 1]) {
                assert(!alpha);
            }
            if alpha {
                assert forall|j: int| 0 <= j < i implies #[trigger] is_ascii_alpha(f@[j]) by {}
            }
        }
    }
    if is_star(&f) || alpha {
        return Ok(f);
    }
    let items = split_chars(&f, ',');
    let ghost iv = views(items@);
    let mut parts: Vec<Vec<char>> = Vec::new();
    let mut k: usize = 0;
    proof {
        assert(iv.skip(0) =~= iv);
        assert(views(parts@) =~= Seq::<Seq<char>>::empty());
        match dow_items(iv) {
            Ok(t) => {
                assert(views(parts@) + t =~= t);
            },
            Err(_) => {},
        }
    }
    while k < items.len()
        invariant
            k <= items.len(),
            iv == views(items@),
            iv == split(f@, ','),
            f@ == trim(field@),
            !(f@ == star() || all_ascii_alpha(f@)),
            dow_items(iv) == (match dow_items(iv.skip(k as int)) {
                Ok(rest) => Ok(views(parts@) + rest),
                Err(e) => Err::<Seq<Seq<char>>, CronError>(e),
            }),
        decreases items.len() - k,
    {
        let ghost rest = iv.skip(k as int);
        proof {
            assert(rest.drop_first() =~= iv.skip(k + 1));
            assert(rest[0] == items@[k as int]@);
        }
        let x = match convert_item(&items[k]) {
            Ok(x) => x,
            Err(e) => {
                proof {
                    assert(dow_item(rest[0]) == Err::<Seq<char>, CronError>(e));
                    assert(dow_items(rest) == Err::<Seq<Seq<char>>, CronError>(e));
                    assert(dow_items(iv) == Err::<Seq<Seq<char>>, CronError>(e));
                }
                return Err(e);
            },
        };
        let ghost before = views(parts@);
        parts.push(x);
        k += 1;
        proof {
            assert(views(parts@) =~= before.push(x@));
            match dow_items(iv.skip(k as int)) {
                Ok(t) => {
                    assert(before + (seq![x@] + t) =~= views(parts@) + t);
                },
                Err(_) => {},
            }
        }
    }
    proof {
        assert(iv.skip(k as int) =~= Seq::<Seq<char>>::empty());
        assert(views(parts@) + Seq::<Seq<char>>::empty() =~= views(parts@));
    }
    let mut sep: Vec<char> = Vec::new();
    sep.push(',');
    proof {
        assert(sep@ =~= seq![',']);
    }
    Ok(join_chars(&parts, &sep))
}

/// Five-field expression → seven-field expression of the `cron` crate
/// (`sec min hour day month weekday year`).
pub fn to_7field(expr: &str) -> (r: Result<String, CronError>)
    ensures
        match r {
            Ok(s) => seven_field(expr@) == Ok::<Seq<char>, CronError>(s@),
            Err(e) => seven_field(expr@) == Err::<Seq<char>, CronError>(e),
        },
{
    let chars = chars_of(expr);
    let parts = split_ws_chars(&chars);
    if parts.len() != 5 {
        return Err(CronError::Arity { found: parts.len() });
    }
    let d = convert_dow(&parts[4])?;
    let mut out: Vec<char> = Vec::new();
    out.push('0');
    out.push(' ');
    append_chars(&mut out, &parts[0]);
    out.push(' ');
    append_chars(&mut out, &parts[1]);
    out.push(' ');
    append_chars(&mut out, &parts[2]);
    out.push(' ');
    append_chars(&mut out, &parts[3]);
    out.push(' ');
    append_chars(&mut out, &d);
    out.push(' ');
    out.push('*');
    proof {
        let p = split_ws(expr@);
        assert(p == views(parts@));
        assert(out@ =~= seq!['0', ' '] + p[0] + seq![' '] + p[1] + seq![' '] + p[2] + seq![' ']
            + p[3] + seq![' '] + d@ + seq![' ', '*']);
    }
    Ok(string_of(&out))
}


// ---------------------------------------------------------------------------
// Schedule computations (through the `cron`, `chrono` and `chrono-tz` crates)
// ---------------------------------------------------------------------------

/// Whether `cron::Schedule::from_str` accepts a seven-field expression.
pub uninterp spec fn cron_accepts(expr: Seq<char>) -> bool;

/// Whether `chrono_tz::Tz` parses the IANA time-zone name.
pub uninterp spec fn tz_known(tz: Seq<char>) -> bool;

/// The trigger time (unix seconds) that `cron::Schedule::after(start).next()`
/// yields for a seven-field expression read in the IANA zone `tz`, or `None`
/// when there is none. The crate searches from the local wall-clock time one
/// second after `start` and takes the earlier instant of an ambiguous local
/// time, so across a fall-back the result can lie before `start`.
pub uninterp spec fn cron_next(expr: Seq<char>, tz: Seq<char>, start: int) -> Option<int>;

/// `"%Y-%m-%d %H:%M:%S"` rendering of a unix time in the IANA zone `tz`.
pub uninterp spec fn local_text(t: int, tz: Seq<char>) -> Seq<char>;

/// `"%Y-%m-%d %H:%M:%S UTC"` rendering of a unix time in UTC.
pub uninterp spec fn utc_text(t: int) -> Seq<char>;

/// Unix times whose neighbourhood (two weeks either side) lies inside the range
/// of `chrono::DateTime<Utc>` (years -262143 to 262142), so that the
/// conversions here cannot fail.
pub open spec fn time_in_range(t: int) -> bool {
    -8_334_600_000_000 <= t <= 8_210_260_000_000
}

/// Unix times of `chrono::DateTime<Utc>`: from `-262143-01-01 00:00:00` to
/// `262142-12-31 23:59:59`.
pub open spec fn in_chrono_range(t: int) -> bool {
    -8_334_601_315_200 <= t <= 8_210_266_876_799
}

/// `chrono::Utc::now().timestamp()`: the present time in unix seconds. It
/// depends on the clock, so only what the source shows of every outcome is
/// stated: the crate takes the time since the epoch (it panics on a clock set
/// before 1970) and builds a `DateTime<Utc>` from it.
#[verifier::external_body]
pub(crate) fn unix_now() -> (t: i64)
    ensures
        0 <= t,
        in_chrono_range(t as int),
{
    chrono::Utc::now().timestamp()
}

/// `cron::Schedule::from_str`: whether the crate parses the expression. The
/// parsed schedule itself is not kept; the result is named by `cron_accepts`.
#[verifier::external_body]
fn cron_parse(expr: &str) -> (r: bool)
    ensures
        r == cron_accepts(expr@),
{
    cron::Schedule::from_str(expr).is_ok()
}

/// `<chrono_tz::Tz as FromStr>::from_str`: whether the zone name is known.
#[verifier::external_body]
pub(crate) fn tz_parse(tz: &str) -> (r: bool)
    ensures
        r == tz_known(tz@),
{
    tz.parse::<chrono_tz::Tz>().is_ok()
}

/// `cron::Schedule::after(..).next()` in a named zone, as unix seconds; named
/// by `cron_next`. A trigger is a `DateTime`, so its time lies in chrono's
/// range.
#[verifier::external_body]
fn cron_next_in_zone(expr: &str, tz: &str, after: i64) -> (r: Option<i64>)
    requires
        cron_accepts(expr@),
        tz_known(tz@),
        time_in_range(after as int),
    ensures
        match cron_next(expr@, tz@, after as int) {
            Some(t) => r == Some(t as i64) && in_chrono_range(t),
            None => r is None,
        },
{
    let zone: chrono_tz::Tz = tz.parse().unwrap();
    let start = chrono::DateTime::from_timestamp(after, 0).unwrap().with_timezone(&zone);
    cron::Schedule::from_str(expr).unwrap().after(&start).next().map(|t| t.timestamp())
}

/// `cron::Schedule::after(..).next()` in the machine's local zone, as unix
/// seconds. The trigger depends on the machine's zone setting; only that it is
/// a `DateTime`, so in chrono's range, is stated.
#[verifier::external_body]
fn cron_next_local(expr: &str, after: i64) -> (r: Option<i64>)
    requires
        cron_accepts(expr@),
        time_in_range(after as int),
    ensures
        r matches Some(t) ==> in_chrono_range(t as int),
{
    let start = chrono::DateTime::from_timestamp(after, 0).unwrap().with_timezone(&chrono::Local);
    cron::Schedule::from_str(expr).unwrap().after(&start).next().map(|t| t.timestamp())
}

/// `cron::Schedule::upcoming(Utc).next()`: whether the schedule has a trigger
/// after the present moment. The answer depends on the clock, so nothing is
/// stated of it.
#[verifier::external_body]
fn cron_has_upcoming(expr: &str) -> (r: bool)
    requires
        cron_accepts(expr@),
{
    cron::Schedule::from_str(expr).unwrap().upcoming(chrono::Utc).next().is_some()
}

/// `DateTime::format("%Y-%m-%d %H:%M:%S")` in a named zone; named by `local_text`.
#[verifier::external_body]
fn format_in_zone(t: i64, tz: &str) -> (r: String)
    requires
        tz_known(tz@),
        time_in_range(t as int),
    ensures
        r@ == local_text(t as int, tz@),
{
    let zone: chrono_tz::Tz = tz.parse().unwrap();
    chrono::DateTime::from_timestamp(t, 0).unwrap().with_timezone(&zone).format(
        "%Y-%m-%d %H:%M:%S",
    ).to_string()
}

/// `DateTime::format("%Y-%m-%d %H:%M:%S UTC")` in UTC; named by `utc_text`.
#[verifier::external_body]
pub(crate) fn format_in_utc(t: i64) -> (r: String)
    requires
        in_chrono_range(t as int),
    ensures
        r@ == utc_text(t as int),
{
    chrono::DateTime::from_timestamp(t, 0).unwrap().format("%Y-%m-%d %H:%M:%S UTC").to_string()
}

/// Checks a five-field expression: it converts, the `cron` crate accepts the
/// conversion, and the schedule has an upcoming trigger.
pub fn validate(expr: &str) -> (r: Result<(), CronError>)
    ensures
        match seven_field(expr@) {
            Err(e) => r == Err::<(), CronError>(e),
            Ok(s7) => if !cron_accepts(s7) {
                r == Err::<(), CronError>(CronError::Rejected)
            } else {
                r is Ok || r == Err::<(), CronError>(CronError::NoUpcoming)
            },
        },
{
    let s7 = to_7field(expr)?;
    if !cron_parse(s7.as_str()) {
        return Err(CronError::Rejected);
    }
    if !cron_has_upcoming(s7.as_str()) {
        return Err(CronError::NoUpcoming);
    }
    Ok(())
}

/// How many times the crate is asked for a trigger later than the start
/// before the search gives up: one query suffices except across a
/// fall-back, where each answer may be the earlier instant of a repeated
/// local time; this covers a minute-by-minute schedule over a fold of a day.
pub const TRIGGER_TRIES: u32 = 1500;

/// Whether a unix time lies in [`time_in_range`], the range the schedule
/// computations accept.
pub fn time_ok(t: i64) -> (r: bool)
    ensures
        r == time_in_range(t as int),
{
    -8_334_600_000_000 <= t && t <= 8_210_260_000_000
}

/// What the search does with one answer of the crate.
#[derive(Debug, Clone, Copy, PartialEq, Eq)]
pub enum SearchStep {
    /// The answer is strictly after `after`: the trigger sought.
    Found(i64),
    /// No answer, or one outside the accepted range: no trigger.
    Stop,
    /// An answer not later than `after`: ask again from it.
    Retry(i64),
}

/// One step of the search for a trigger strictly after `after`, given the
/// crate's answer for the current start.
pub open spec fn search_step_of(answer: Option<int>, after: int) -> SearchStep {
    match answer {
        None => SearchStep::Stop,
        Some(t) => if t > after {
            SearchStep::Found(t as i64)
        } else if time_in_range(t) {
            SearchStep::Retry(t as i64)
        } else {
            SearchStep::Stop
        },
    }
}

/// Decides one step of the search from the crate's answer
/// ([`search_step_of`]).
pub fn search_step(answer: Option<i64>, after: i64) -> (r: SearchStep)
    ensures
        r == search_step_of(
            match answer {
                Some(t) => Some(t as int),
                None => None,
            },
            after as int,
        ),
{
    match answer {
        None => SearchStep::Stop,
        Some(t) => if t > after {
            SearchStep::Found(t)
        } else if time_ok(t) {
            SearchStep::Retry(t)
        } else {
            SearchStep::Stop
        },
    }
}

/// The search for a trigger strictly after `after`: the crate is asked for
/// the trigger following `start`; an answer not later than `after` becomes
/// the next start (while it stays in range), at most `tries` times.
pub open spec fn trigger_search(s7: Seq<char>, tz: Seq<char>, start: int, after: int, tries: nat)
    -> Option<int>
    decreases tries,
{
    if tries == 0 {
        None
    } else {
        match cron_next(s7, tz, start) {
            None => None,
            Some(t) => if t > after {
                Some(t)
            } else if time_in_range(t) {
                trigger_search(s7, tz, t, after, (tries - 1) as nat)
            } else {
                None
            },
        }
    }
}

/// The first trigger the crate gives that lies strictly after `after`, the
/// search starting at `after` ([`trigger_search`]).
pub open spec fn later_trigger(s7: Seq<char>, tz: Seq<char>, after: int) -> Option<int> {
    trigger_search(s7, tz, after, after, TRIGGER_TRIES as nat)
}

proof fn lemma_trigger_search_later(s7: Seq<char>, tz: Seq<char>, start: int, after: int, tries: nat)
    ensures
        trigger_search(s7, tz, start, after, tries) matches Some(t) ==> t > after,
    decreases tries,
{
    if tries > 0 {
        match cron_next(s7, tz, start) {
            Some(t) => if t <= after && time_in_range(t) {
                lemma_trigger_search_later(s7, tz, t, after, (tries - 1) as nat);
            },
            None => {},
        }
    }
}

/// [`later_trigger`] in a named zone.
fn search_in_zone(s7: &str, tz: &str, after: i64) -> (r: Option<i64>)
    requires
        cron_accepts(s7@),
        tz_known(tz@),
        time_in_range(after as int),
    ensures
        r == (match later_trigger(s7@, tz@, after as int) {
            Some(t) => Some(t as i64),
            None => None::<i64>,
        }),
        r matches Some(t) ==> t > after,
{
    proof {
        lemma_trigger_search_later(s7@, tz@, after as int, after as int, TRIGGER_TRIES as nat);
    }
    let mut start = after;
    let mut left: u32 = TRIGGER_TRIES;
    while left > 0
        invariant
            cron_accepts(s7@),
            tz_known(tz@),
            time_in_range(start as int),
            trigger_search(s7@, tz@, start as int, after as int, left as nat) == later_trigger(
                s7@,
                tz@,
                after as int,
            ),
            later_trigger(s7@, tz@, after as int) matches Some(t) ==> t > after,
        decreases left,
    {
        match search_step(cron_next_in_zone(s7, tz, start), after) {
            SearchStep::Found(t) => {
                return Some(t);
            },
            SearchStep::Stop => {
                return None;
            },
            SearchStep::Retry(t) => {
                start = t;
                left = left - 1;
            },
        }
    }
    None
}

/// A trigger strictly after `after` in the machine's local zone, searched as
/// [`later_trigger`] does.
fn search_local(s7: &str, after: i64) -> (r: Option<i64>)
    requires
        cron_accepts(s7@),
        time_in_range(after as int),
    ensures
        r matches Some(t) ==> t > after,
{
    let mut start = after;
    let mut left: u32 = TRIGGER_TRIES;
    while left > 0
        invariant
            cron_accepts(s7@),
            time_in_range(start as int),
        decreases left,
    {
        match search_step(cron_next_local(s7, start), after) {
            SearchStep::Found(t) => {
                return Some(t);
            },
            SearchStep::Stop => {
                return None;
            },
            SearchStep::Retry(t) => {
                start = t;
                left = left - 1;
            },
        }
    }
    None
}

/// The first trigger of a five-field expression strictly after the unix time
/// `after`, read in the IANA zone `tz`; an unknown zone name falls back to the
/// machine's local zone.
pub fn next_due(expr: &str, tz: &str, after: i64) -> (r: Result<i64, CronError>)
    requires
        time_in_range(after as int),
    ensures
        match seven_field(expr@) {
            Err(e) => r == Err::<i64, CronError>(e),
            Ok(s7) => if !cron_accepts(s7) {
                r == Err::<i64, CronError>(CronError::Rejected)
            } else if tz_known(tz@) {
                r == (match later_trigger(s7, tz@, after as int) {
                    Some(t) => Ok::<i64, CronError>(t as i64),
                    None => Err(CronError::NoUpcoming),
                })
            } else {
                match r {
                    Ok(t) => t > after,
                    Err(e) => e == CronError::NoUpcoming,
                }
            },
        },
        r matches Ok(t) ==> t > after,
{
    let s7 = to_7field(expr)?;
    if !cron_parse(s7.as_str()) {
        return Err(CronError::Rejected);
    }
    let next = if tz_parse(tz) {
        search_in_zone(s7.as_str(), tz, after)
    } else {
        search_local(s7.as_str(), after)
    };
    match next {
        Some(t) => Ok(t),
        None => Err(CronError::NoUpcoming),
    }
}

/// A unix time rendered `YYYY-MM-DD HH:MM:SS` in the IANA zone `tz`; an unknown
/// zone renders in UTC with a ` UTC` suffix.
pub fn format_local(t: i64, tz: &str) -> (r: String)
    requires
        time_in_range(t as int),
    ensures
        r@ == (if tz_known(tz@) {
            local_text(t as int, tz@)
        } else {
            utc_text(t as int)
        }),
{
    if tz_parse(tz) {
        format_in_zone(t, tz)
    } else {
        format_in_utc(t)
    }
}

} // verus!
