//! The texts of the terminal dashboard.
use vstd::prelude::*;

use crate::text::{append_chars, chars_of, int_dec, join, nat_dec, string_of};

verus! {

/// The first ten ids, comma separated.
pub open spec fn first_ids(ids: Seq<String>) -> Seq<char> {
    let n = if ids.len() < 10 { ids.len() as int } else { 10 };
    join(ids.take(n).map_values(|s: String| s@), ", "@)
}

/// The sources panel: `sources: ` and the first ten ids, `(none)` when that
/// is empty.
pub fn sources_panel(ids: &[String]) -> (r: String)
    ensures
        r@ == "sources: "@ + (if first_ids(ids@).len() == 0 { "(none)"@ } else { first_ids(ids@) }),
{
    let n: usize = if ids.len() < 10 {
        ids.len()
    } else {
        10
    };
    let mut parts: Vec<Vec<char>> = Vec::new();
    let mut i: usize = 0;
    while i < n
        invariant
            i <= n <= ids.len(),
            n == (if ids@.len() < 10 { ids@.len() as int } else { 10 }),
            crate::text::views(parts@) == ids@.take(i as int).map_values(|s: String| s@),
        decreases n - i,
    {
        let c = chars_of(ids[i].as_str());
        let ghost before = crate::text::views(parts@);
        parts.push(c);
        i += 1;
        proof {
            assert(crate::text::views(parts@) =~= before.push(c@));
            assert(ids@.take(i as int).map_values(|s: String| s@) =~= ids@.take(i - 1).map_values(
                |s: String| s@,
            ).push(ids@[i - 1]@));
        }
    }
    let sep = chars_of(", ");
    let joined = crate::text::join_chars(&parts, &sep);
    let mut out = chars_of("sources: ");
    if joined.len() == 0 {
        let none = chars_of("(none)");
        append_chars(&mut out, &none);
    } else {
        append_chars(&mut out, &joined);
    }
    string_of(&out)
}

/// One event line: `#<id> <source> <change type>`.
pub open spec fn event_line(e: (i64, String, String)) -> Seq<char> {
    "#"@ + int_dec(e.0 as int) + " "@ + e.1@ + " "@ + e.2@
}

/// The first ten event lines, one per line.
pub open spec fn first_events(events: Seq<(i64, String, String)>) -> Seq<char> {
    let n = if events.len() < 10 { events.len() as int } else { 10 };
    join(events.take(n).map_values(|e: (i64, String, String)| event_line(e)), "\n"@)
}

/// The events panel: the first ten events, or `No change events yet`.
pub fn events_panel(events: &[(i64, String, String)]) -> (r: String)
    ensures
        r@ == (if first_events(events@).len() == 0 {
            "No change events yet"@
        } else {
            first_events(events@)
        }),
{
    let n: usize = if events.len() < 10 {
        events.len()
    } else {
        10
    };
    let mut parts: Vec<Vec<char>> = Vec::new();
    let mut i: usize = 0;
    while i < n
        invariant
            i <= n <= events.len(),
            n == (if events@.len() < 10 { events@.len() as int } else { 10 }),
            crate::text::views(parts@) == events@.take(i as int).map_values(
                |e: (i64, String, String)| event_line(e),
            ),
        decreases n - i,
    {
        let mut line = chars_of("#");
        let d = crate::text::i64_dec(events[i].0);
        append_chars(&mut line, &d);
        line.push(' ');
        let w = chars_of(events[i].1.as_str());
        append_chars(&mut line, &w);
        line.push(' ');
        let c = chars_of(events[i].2.as_str());
        append_chars(&mut line, &c);
        proof {
            reveal_strlit("#");
            reveal_strlit(" ");
            assert(line@ =~= event_line(events@[i as int]));
        }
        let ghost before = crate::text::views(parts@);
        parts.push(line);
        i += 1;
        proof {
            assert(crate::text::views(parts@) =~= before.push(event_line(events@[i - 1])));
            assert(events@.take(i as int).map_values(|e: (i64, String, String)| event_line(e))
                =~= events@.take(i - 1).map_values(|e: (i64, String, String)| event_line(e)).push(
                event_line(events@[i - 1]),
            ));
        }
    }
    let sep = chars_of("\n");
    let joined = crate::text::join_chars(&parts, &sep);
    if joined.len() == 0 {
        crate::config::str_to_string("No change events yet")
    } else {
        string_of(&joined)
    }
}

pub open spec fn bool_text(b: bool) -> Seq<char> {
    if b { "true"@ } else { "false"@ }
}

/// The status line: `running: <bool> | sources: <n> (enabled <n>) | queue: <n>`.
pub fn status_line(running: bool, sources: u64, enabled: u64, queue: u64) -> (r: String)
    ensures
        r@ == "running: "@ + bool_text(running) + " | sources: "@ + nat_dec(sources as nat)
            + " (enabled "@ + nat_dec(enabled as nat) + ") | queue: "@ + nat_dec(queue as nat),
{
    let mut out = chars_of("running: ");
    let b = chars_of(if running { "true" } else { "false" });
    append_chars(&mut out, &b);
    let a = chars_of(" | sources: ");
    append_chars(&mut out, &a);
    let s = crate::text::u64_dec(sources);
    append_chars(&mut out, &s);
    let c = chars_of(" (enabled ");
    append_chars(&mut out, &c);
    let e = crate::text::u64_dec(enabled);
    append_chars(&mut out, &e);
    let d = chars_of(") | queue: ");
    append_chars(&mut out, &d);
    let q = crate::text::u64_dec(queue);
    append_chars(&mut out, &q);
    string_of(&out)
}

/// A key of the dashboard.
pub enum Key {
    Char(char),
    Esc,
    Other,
}

/// Whether a key quits the dashboard: `q` or Escape.
pub fn is_quit_key(key: &Key) -> (r: bool)
    ensures
        r == (*key matches Key::Char(c) && c == 'q' || *key matches Key::Esc),
{
    match key {
        Key::Char(c) => *c == 'q',
        Key::Esc => true,
        Key::Other => false,
    }
}

} // verus!
