//! Notification texts, targets and delivery decisions. Sending is done by the
//! caller; this module decides what is sent, to whom, and what happens after a
//! failed attempt.
use vstd::prelude::*;

use crate::config::ChangeType;
use crate::config::{parse_telegram_url, str_to_string, tgram_target, TelegramConfig};
use crate::cron_expr::{
    format_in_utc, format_local, in_chrono_range, local_text, time_in_range, tz_known, unix_now,
    utc_text,
};
use crate::models::{
    clone_strings, lookup, ChangeEvent, ItemView, Item, MediaCacheEntry, NotificationTarget,
    TelegramTarget,
};
use crate::text::{
    append_chars, chars_of, nat_dec, replace, replace_chars, string_of, trim, trim_chars, trim_end,
    u64_dec,
};

verus! {

/// `&`, `<` and `>` escaped for Telegram's HTML mode, in that order.
pub open spec fn escape_html(s: Seq<char>) -> Seq<char> {
    replace(
        replace(replace(s, seq!['&'], seq!['&', 'a', 'm', 'p', ';']), seq!['<'], seq!['&', 'l', 't', ';']),
        seq!['>'],
        seq!['&', 'g', 't', ';'],
    )
}

fn escape_chars(s: &Vec<char>) -> (r: Vec<char>)
    ensures
        r@ == escape_html(s@),
{
    let mut amp: Vec<char> = Vec::new();
    amp.push('&');
    let mut amp_e: Vec<char> = Vec::new();
    amp_e.push('&');
    amp_e.push('a');
    amp_e.push('m');
    amp_e.push('p');
    amp_e.push(';');
    let mut lt: Vec<char> = Vec::new();
    lt.push('<');
    let mut lt_e: Vec<char> = Vec::new();
    lt_e.push('&');
    lt_e.push('l');
    lt_e.push('t');
    lt_e.push(';');
    let mut gt: Vec<char> = Vec::new();
    gt.push('>');
    let mut gt_e: Vec<char> = Vec::new();
    gt_e.push('&');
    gt_e.push('g');
    gt_e.push('t');
    gt_e.push(';');
    proof {
        assert(amp@ =~= seq!['&']);
        assert(amp_e@ =~= seq!['&', 'a', 'm', 'p', ';']);
        assert(lt@ =~= seq!['<']);
        assert(lt_e@ =~= seq!['&', 'l', 't', ';']);
        assert(gt@ =~= seq!['>']);
        assert(gt_e@ =~= seq!['&', 'g', 't', ';']);
    }
    let a = replace_chars(s, &amp, &amp_e);
    let b = replace_chars(&a, &lt, &lt_e);
    replace_chars(&b, &gt, &gt_e)
}

/// Escapes `&`, `<` and `>` for Telegram's HTML parse mode.
pub fn html_escape(s: &str) -> (r: String)
    ensures
        r@ == escape_html(s@),
{
    let c = chars_of(s);
    let e = escape_chars(&c);
    string_of(&e)
}

/// Escaped text holds no `<` and no `>`: a value put into a message cannot
/// open or close a tag of it.
pub proof fn law_escaped_has_no_markup(s: Seq<char>)
    ensures
        forall|i: int|
            0 <= i < escape_html(s).len() ==> #[trigger] escape_html(s)[i] != '<' && escape_html(s)[i]
                != '>',
{
    let a = replace(s, seq!['&'], seq!['&', 'a', 'm', 'p', ';']);
    let lt_e = seq!['&', 'l', 't', ';'];
    let gt_e = seq!['&', 'g', 't', ';'];
    let b = replace(a, seq!['<'], lt_e);
    assert forall|i: int| 0 <= i < lt_e.len() implies lt_e[i] != '<' by {}
    assert forall|i: int| 0 <= i < gt_e.len() implies gt_e[i] != '<' && gt_e[i] != '>' by {}
    crate::text::lemma_replace_char_free(a, '<', lt_e, '<');
    crate::text::lemma_replace_char_free(b, '>', gt_e, '<');
    crate::text::lemma_replace_char_free(b, '>', gt_e, '>');
}

/// Each placeholder replaced by its value, one pair after the other.
pub open spec fn fill_template(t: Seq<char>, pairs: Seq<(Seq<char>, Seq<char>)>) -> Seq<char>
    decreases pairs.len(),
{
    if pairs.len() == 0 {
        t
    } else {
        fill_template(replace(t, pairs[0].0, pairs[0].1), pairs.drop_first())
    }
}

pub open spec fn pair_views(pairs: Seq<(&str, &str)>) -> Seq<(Seq<char>, Seq<char>)> {
    pairs.map_values(|p: (&str, &str)| (p.0@, p.1@))
}

/// Replaces each placeholder of the template by its value, in the order of
/// the pairs (a value that contains a later placeholder is replaced too).
pub fn render_template(template: &str, pairs: &[(&str, &str)]) -> (r: String)
    ensures
        r@ == fill_template(template@, pair_views(pairs@)),
{
    let mut out = chars_of(template);
    let mut i: usize = 0;
    let ghost pv = pair_views(pairs@);
    proof {
        assert(pv.skip(0) =~= pv);
    }
    while i < pairs.len()
        invariant
            i <= pairs.len(),
            pv == pair_views(pairs@),
            fill_template(out@, pv.skip(i as int)) == fill_template(template@, pv),
        decreases pairs.len() - i,
    {
        let (k, v) = pairs[i];
        let kc = chars_of(k);
        let vc = chars_of(v);
        proof {
            assert(pv.skip(i as int)[0] == (k@, v@));
            assert(pv.skip(i as int).drop_first() =~= pv.skip(i + 1));
        }
        out = replace_chars(&out, &kc, &vc);
        i += 1;
    }
    proof {
        assert(pv.skip(i as int) =~= Seq::<(Seq<char>, Seq<char>)>::empty());
    }
    string_of(&out)
}

/// The label of a change kind in a notification.
pub open spec fn change_label_text(c: ChangeType) -> Seq<char> {
    match c {
        ChangeType::New => "🆕 NEW"@,
        ChangeType::Updated => "✏️ UPDATED"@,
        ChangeType::Removed => "🗑 REMOVED"@,
    }
}

/// The title shown for an item: its `title` field, else its `name` field,
/// else its id.
pub open spec fn item_title(i: ItemView) -> Seq<char> {
    match lookup(i.fields, "title"@) {
        Some(t) => t,
        None => match lookup(i.fields, "name"@) {
            Some(n) => n,
            None => i.stable_id@,
        },
    }
}

/// One `• title` line per item.
pub open spec fn preview_lines(items: Seq<ItemView>) -> Seq<char>
    decreases items.len(),
{
    if items.len() == 0 {
        seq![]
    } else {
        "• "@ + escape_html(item_title(items[0])) + seq!['\n'] + preview_lines(items.drop_first())
    }
}

/// What an item's preview line shows: its `title` field when it has one
/// (whatever other fields it has), else its `name` field, else its id;
/// escaped, after a bullet, ending the line.
pub proof fn law_preview_line_shows_title(i: ItemView)
    ensures
        lookup(i.fields, "title"@) matches Some(t) ==> preview_lines(seq![i]) == "• "@
            + escape_html(t) + seq!['\n'],
        lookup(i.fields, "title"@) is None ==> (lookup(i.fields, "name"@) matches Some(n)
            ==> preview_lines(seq![i]) == "• "@ + escape_html(n) + seq!['\n']),
        lookup(i.fields, "title"@) is None && lookup(i.fields, "name"@) is None ==> preview_lines(
            seq![i],
        ) == "• "@ + escape_html(i.stable_id@) + seq!['\n'],
{
    let one = seq![i];
    assert(one[0] == i);
    assert(one.drop_first() =~= Seq::<ItemView>::empty());
    assert(preview_lines(one) == "• "@ + escape_html(item_title(i)) + seq!['\n'] + preview_lines(
        Seq::<ItemView>::empty(),
    ));
    assert(preview_lines(one) =~= "• "@ + escape_html(item_title(i)) + seq!['\n']);
}

/// A placeholder `{x...}` whose second character is not `i` does not occur in
/// `{items}`.
proof fn lemma_not_in_items(p: Seq<char>, to: Seq<char>)
    requires
        p.len() >= 2,
        p[0] == '{',
        p[1] != 'i',
    ensures
        replace("{items}"@, p, to) == "{items}"@,
{
    reveal_strlit("{items}");
    let s = "{items}"@;
    assert forall|i: int| 0 <= i && i + p.len() <= s.len() implies #[trigger] s.subrange(i, i + p.len())
        != p by {
        let w = s.subrange(i, i + p.len());
        if i == 0 {
            assert(w[1] == s[1]);
        } else {
            assert(w[0] == s[i]);
        }
    }
    crate::text::lemma_replace_absent(s, p, to);
}

/// The `{items}` template renders as the items' preview and nothing else:
/// the other placeholders do not touch it.
pub proof fn law_items_template_is_preview(event: ChangeEvent, new_items: Seq<ItemView>, tz: Seq<char>)
    ensures
        event_message(event, new_items, "{items}"@, tz) == items_preview(new_items),
{
    reveal_strlit("{items}");
    reveal_strlit("{label}");
    reveal_strlit("{watch}");
    reveal_strlit("{time}");
    reveal_strlit("{tz}");
    reveal_strlit("{summary}");
    let t = "{items}"@;
    let pairs = seq![
        ("{label}"@, change_label_text(event.change_type)),
        ("{watch}"@, event.watchpoint_id@),
        ("{time}"@, time_text(event.detected_at as int, tz)),
        ("{tz}"@, tz),
        ("{summary}"@, escape_html(event.diff_summary@)),
        ("{items}"@, items_preview(new_items)),
    ];
    lemma_not_in_items("{label}"@, pairs[0].1);
    lemma_not_in_items("{watch}"@, pairs[1].1);
    lemma_not_in_items("{time}"@, pairs[2].1);
    lemma_not_in_items("{tz}"@, pairs[3].1);
    lemma_not_in_items("{summary}"@, pairs[4].1);
    let p1 = pairs.drop_first();
    let p2 = p1.drop_first();
    let p3 = p2.drop_first();
    let p4 = p3.drop_first();
    let p5 = p4.drop_first();
    let p6 = p5.drop_first();
    assert(p6.len() == 0);
    assert(t.take(t.len() as int) =~= t);
    assert(t.skip(t.len() as int) =~= Seq::<char>::empty());
    assert(crate::text::replace(Seq::<char>::empty(), t, items_preview(new_items)) == Seq::<char>::empty());
    assert(crate::text::replace(t, t, items_preview(new_items)) =~= items_preview(new_items));
    assert(fill_template(items_preview(new_items), p6) == items_preview(new_items));
    assert(fill_template(t, p5) == items_preview(new_items));
    assert(fill_template(t, p4) == fill_template(t, p5));
    assert(fill_template(t, p3) == fill_template(t, p4));
    assert(fill_template(t, p2) == fill_template(t, p3));
    assert(fill_template(t, p1) == fill_template(t, p2));
    assert(fill_template(t, pairs) == fill_template(t, p1));
}

/// The preview of a list is the previews of its parts, one after the other.
pub proof fn law_preview_lines_concat(a: Seq<ItemView>, b: Seq<ItemView>)
    ensures
        preview_lines(a + b) == preview_lines(a) + preview_lines(b),
    decreases a.len(),
{
    if a.len() == 0 {
        assert(a + b =~= b);
        assert(preview_lines(a) + preview_lines(b) =~= preview_lines(b));
    } else {
        law_preview_lines_concat(a.drop_first(), b);
        assert((a + b).drop_first() =~= a.drop_first() + b);
        assert((a + b)[0] == a[0]);
        let h = "• "@ + escape_html(item_title(a[0])) + seq!['\n'];
        assert(preview_lines(a + b) == h + preview_lines(a.drop_first() + b));
        assert(preview_lines(a) == h + preview_lines(a.drop_first()));
        assert(h + (preview_lines(a.drop_first()) + preview_lines(b)) =~= (h + preview_lines(
            a.drop_first(),
        )) + preview_lines(b));
    }
}

/// The items placeholder: the first three items previewed, trailing white
/// space removed.
pub open spec fn items_preview(items: Seq<ItemView>) -> Seq<char> {
    trim_end(preview_lines(items.take(if items.len() < 3 { items.len() as int } else { 3 })))
}

/// Local rendering of a time as [`format_local`] gives it.
pub open spec fn time_text(t: int, tz: Seq<char>) -> Seq<char> {
    if tz_known(tz) {
        local_text(t, tz)
    } else {
        utc_text(t)
    }
}

/// The text of a change notification.
pub open spec fn event_message(
    event: ChangeEvent,
    new_items: Seq<ItemView>,
    template: Seq<char>,
    tz: Seq<char>,
) -> Seq<char> {
    fill_template(
        template,
        seq![
            ("{label}"@, change_label_text(event.change_type)),
            ("{watch}"@, event.watchpoint_id@),
            ("{time}"@, time_text(event.detected_at as int, tz)),
            ("{tz}"@, tz),
            ("{summary}"@, escape_html(event.diff_summary@)),
            ("{items}"@, items_preview(new_items)),
        ],
    )
}

fn find_named_field(item: &Item, name: &str) -> (r: Option<String>)
    ensures
        match r {
            Some(v) => lookup(item.fields@, name@) == Some(v@),
            None => lookup(item.fields@, name@) is None,
        },
{
    let k = chars_of(name);
    let mut i: usize = 0;
    proof {
        assert(item.fields@.skip(0) =~= item.fields@);
    }
    while i < item.fields.len()
        invariant
            i <= item.fields.len(),
            k@ == name@,
            lookup(item.fields@, name@) == lookup(item.fields@.skip(i as int), name@),
        decreases item.fields.len() - i,
    {
        let n = chars_of(item.fields[i].name.as_str());
        proof {
            assert(item.fields@.skip(i as int).drop_first() =~= item.fields@.skip(i + 1));
            assert(item.fields@.skip(i as int)[0] == item.fields@[i as int]);
        }
        if crate::text::seq_eq(&n, &k) {
            return Some(item.fields[i].value.clone());
        }
        i += 1;
    }
    None
}

fn preview_text(items: &[Item]) -> (r: Vec<char>)
    ensures
        r@ == items_preview(crate::models::item_views(items@)),
{
    let ghost all = crate::models::item_views(items@);
    let n: usize = if items.len() < 3 {
        items.len()
    } else {
        3
    };
    let ghost shown = all.take(n as int);
    let mut out: Vec<char> = Vec::new();
    let mut i: usize = 0;
    proof {
        reveal_strlit("title");
        reveal_strlit("name");
        reveal_strlit("• ");
        assert(shown.skip(0) =~= shown);
    }
    while i < n
        invariant
            i <= n,
            n <= items.len(),
            all == crate::models::item_views(items@),
            shown == all.take(n as int),
            out@ + preview_lines(shown.skip(i as int)) == preview_lines(shown),
        decreases n - i,
    {
        let title = match find_named_field(&items[i], "title") {
            Some(t) => t,
            None => match find_named_field(&items[i], "name") {
                Some(t) => t,
                None => items[i].stable_id.clone(),
            },
        };
        let tc = chars_of(title.as_str());
        let te = escape_chars(&tc);
        let ghost before = out@;
        out.push('•');
        out.push(' ');
        append_chars(&mut out, &te);
        out.push('\n');
        proof {
            reveal_strlit("• ");
            let rest = shown.skip(i as int);
            assert(rest[0] == items@[i as int]@);
            assert(rest.drop_first() =~= shown.skip(i + 1));
            assert(title@ == item_title(rest[0]));
            assert(out@ =~= before + ("• "@ + escape_html(item_title(rest[0])) + seq!['\n']));
        }
        i += 1;
    }
    proof {
        assert(shown.skip(i as int) =~= Seq::<ItemView>::empty());
        assert(out@ =~= preview_lines(shown));
    }
    let t = crate::text::trim_end_chars(&out);
    t
}

/// Renders a change notification: the template's `{label}`, `{watch}`,
/// `{time}`, `{tz}`, `{summary}` and `{items}` placeholders replaced in that
/// order.
pub fn render_event_message(event: &ChangeEvent, new_items: &[Item], template: &str, tz: &str) -> (r:
    String)
    requires
        time_in_range(event.detected_at as int),
    ensures
        r@ == event_message(*event, crate::models::item_views(new_items@), template@, tz@),
{
    let label: &str = match event.change_type {
        ChangeType::New => "🆕 NEW",
        ChangeType::Updated => "✏️ UPDATED",
        ChangeType::Removed => "🗑 REMOVED",
    };
    let time = format_local(event.detected_at, tz);
    let summary = html_escape(event.diff_summary.as_str());
    let items_c = preview_text(new_items);
    let items = string_of(&items_c);
    let pairs: [(&str, &str); 6] = [
        ("{label}", label),
        ("{watch}", event.watchpoint_id.as_str()),
        ("{time}", time.as_str()),
        ("{tz}", tz),
        ("{summary}", summary.as_str()),
        ("{items}", items.as_str()),
    ];
    proof {
        reveal_strlit("{label}");
        reveal_strlit("{watch}");
        reveal_strlit("{time}");
        reveal_strlit("{tz}");
        reveal_strlit("{summary}");
        reveal_strlit("{items}");
        assert(label@ == change_label_text(event.change_type));
        assert(pair_views(pairs@) =~= seq![
            ("{label}"@, change_label_text(event.change_type)),
            ("{watch}"@, event.watchpoint_id@),
            ("{time}"@, time_text(event.detected_at as int, tz@)),
            ("{tz}"@, tz@),
            ("{summary}"@, escape_html(event.diff_summary@)),
            ("{items}"@, items_preview(crate::models::item_views(new_items@))),
        ]);
    }
    render_template(template, pairs.as_slice())
}


/// Rendering of the present time in a failure alert: local when it can be
/// rendered so, else in UTC.
pub open spec fn clock_text(t: int, tz: Seq<char>) -> Seq<char> {
    if time_in_range(t) {
        time_text(t, tz)
    } else {
        utc_text(t)
    }
}

/// The text of a consecutive-failures alert.
pub open spec fn failure_text(
    source_id: Seq<char>,
    failures: nat,
    threshold: nat,
    error: Seq<char>,
    tz: Seq<char>,
    time: Seq<char>,
) -> Seq<char> {
    "<b>⚠️ ReadingSteiner 连续失败告警</b>\n监控源 <b>"@ + escape_html(source_id) + "</b> 已连续失败 "@
        + nat_dec(failures) + " 次（阈值 "@ + nat_dec(threshold) + "）。\n最近错误：<i>"@
        + escape_html(error) + "</i>\n本地时间（"@ + escape_html(tz) + "）："@ + escape_html(time)
}

fn push_str(out: &mut Vec<char>, s: &str)
    ensures
        final(out)@ == old(out)@ + s@,
{
    let c = chars_of(s);
    append_chars(out, &c);
}

fn push_escaped(out: &mut Vec<char>, s: &str)
    ensures
        final(out)@ == old(out)@ + escape_html(s@),
{
    let c = chars_of(s);
    let e = escape_chars(&c);
    append_chars(out, &e);
}

/// The failure alert for a source at the unix time `now`.
pub fn failure_message_at(
    source_id: &str,
    failures: u32,
    threshold: u32,
    error: &str,
    tz: &str,
    now: i64,
) -> (r: String)
    requires
        in_chrono_range(now as int),
    ensures
        r@ == failure_text(
            source_id@,
            failures as nat,
            threshold as nat,
            error@,
            tz@,
            clock_text(now as int, tz@),
        ),
{
    let t = if -8_334_600_000_000 <= now && now <= 8_210_260_000_000 {
        format_local(now, tz)
    } else {
        format_in_utc(now)
    };
    let mut out: Vec<char> = Vec::new();
    push_str(&mut out, "<b>⚠️ ReadingSteiner 连续失败告警</b>\n监控源 <b>");
    push_escaped(&mut out, source_id);
    push_str(&mut out, "</b> 已连续失败 ");
    let f = u64_dec(failures as u64);
    append_chars(&mut out, &f);
    push_str(&mut out, " 次（阈值 ");
    let th = u64_dec(threshold as u64);
    append_chars(&mut out, &th);
    push_str(&mut out, "）。\n最近错误：<i>");
    push_escaped(&mut out, error);
    push_str(&mut out, "</i>\n本地时间（");
    push_escaped(&mut out, tz);
    push_str(&mut out, "）：");
    push_escaped(&mut out, t.as_str());
    proof {
        assert(out@ =~= failure_text(
            source_id@,
            failures as nat,
            threshold as nat,
            error@,
            tz@,
            clock_text(now as int, tz@),
        ));
    }
    string_of(&out)
}

/// Renders a consecutive-failures alert stamped with the present time.
pub fn render_failure_message(
    source_id: &str,
    failures: u32,
    threshold: u32,
    error: &str,
    tz: &str,
) -> (r: String)
    ensures
        exists|t: int|
            #![trigger clock_text(t, tz@)]
            0 <= t && r@ == failure_text(
                source_id@,
                failures as nat,
                threshold as nat,
                error@,
                tz@,
                clock_text(t, tz@),
            ),
{
    let now = unix_now();
    let r = failure_message_at(source_id, failures, threshold, error, tz, now);
    proof {
        let _ = clock_text(now as int, tz@);
    }
    r
}


// ---------------------------------------------------------------------------
// Retries
// ---------------------------------------------------------------------------

/// Attempts after which a notification is given up.
pub const MAX_SEND_ATTEMPTS: i32 = 5;

/// Seconds of waiting added per failed attempt.
pub const RETRY_STEP_SECS: i64 = 30;

/// What follows a failed send.
pub struct RetryPlan {
    /// The attempt count to store.
    pub attempts: i32,
    /// When to try again; `None` once the notification is given up.
    pub next_retry_at: Option<i64>,
    /// Whether the notification is marked failed for good.
    pub give_up: bool,
}

/// The wait before the next try after `attempts` failed attempts.
pub open spec fn retry_delay(attempts: int) -> int {
    30 * attempts
}

/// The plan after a failed send of a notification that had `attempts`
/// failed attempts before, at the unix time `now`: one more attempt counted,
/// and either a retry `30 s × attempts` later or, from the fifth attempt on,
/// no retry and the notification given up.
pub fn plan_retry(attempts: i32, now: i64) -> (r: RetryPlan)
    requires
        attempts < i32::MAX,
        attempts + 1 < 5 ==> in_chrono_range(now + retry_delay(attempts + 1)),
        in_chrono_range(now as int),
    ensures
        r.attempts == attempts + 1,
        r.give_up == (attempts + 1 >= 5),
        r.next_retry_at == (if attempts + 1 >= 5 {
            None::<i64>
        } else {
            Some((now + retry_delay(attempts + 1)) as i64)
        }),
{
    let a = attempts + 1;
    if a >= MAX_SEND_ATTEMPTS {
        RetryPlan { attempts: a, next_retry_at: None, give_up: true }
    } else {
        let delay: i64 = RETRY_STEP_SECS * (a as i64);
        RetryPlan { attempts: a, next_retry_at: Some(now + delay), give_up: false }
    }
}

/// Whether [`plan_retry`] can plan for `attempts` at the unix time `now`: the
/// count can grow and the retry time stays in chrono's range.
pub fn retry_in_range(attempts: i32, now: i64) -> (r: bool)
    ensures
        r == (in_chrono_range(now as int) && attempts < i32::MAX && (attempts + 1 < 5
            ==> in_chrono_range(now + retry_delay(attempts + 1)))),
{
    if !(-8_334_601_315_200 <= now && now <= 8_210_266_876_799) || attempts == i32::MAX {
        return false;
    }
    let a = attempts + 1;
    if a >= MAX_SEND_ATTEMPTS {
        return true;
    }
    let t = now as i128 + RETRY_STEP_SECS as i128 * a as i128;
    -8_334_601_315_200 <= t && t <= 8_210_266_876_799
}

/// What became of one queued notification in a pass over the outbox.
#[derive(Debug, Clone, Copy, PartialEq, Eq)]
pub enum DeliveryOutcome {
    /// Its change event is gone from the store.
    EventMissing,
    /// No target could be built for it.
    TargetMissing,
    /// It was sent.
    Sent,
    /// Sending it failed.
    SendFailed,
}

/// What the outbox does with a notification after a pass.
pub enum OutboxAction {
    /// Marked failed for good (no message ids).
    Fail,
    /// Marked sent, and counted.
    Sent,
    /// Its attempt count and retry time updated as planned; marked failed as
    /// well when the plan gives up.
    Retry(RetryPlan),
}

/// The outbox's decision for one notification, given what became of it: a
/// missing event or target fails it, a send counts it, a failed send plans
/// a retry ([`plan_retry`]).
pub fn outbox_step(outcome: DeliveryOutcome, attempts: i32, now: i64) -> (r: OutboxAction)
    requires
        outcome == DeliveryOutcome::SendFailed ==> (in_chrono_range(now as int) && attempts
            < i32::MAX && (attempts + 1 < 5 ==> in_chrono_range(now + retry_delay(attempts + 1)))),
    ensures
        outcome == DeliveryOutcome::EventMissing ==> r is Fail,
        outcome == DeliveryOutcome::TargetMissing ==> r is Fail,
        outcome == DeliveryOutcome::Sent ==> r is Sent,
        outcome == DeliveryOutcome::SendFailed ==> (r matches OutboxAction::Retry(p) && p.attempts
            == attempts + 1 && p.give_up == (attempts + 1 >= 5) && p.next_retry_at == (if attempts
            + 1 >= 5 {
            None::<i64>
        } else {
            Some((now + retry_delay(attempts + 1)) as i64)
        })),
{
    match outcome {
        DeliveryOutcome::EventMissing => OutboxAction::Fail,
        DeliveryOutcome::TargetMissing => OutboxAction::Fail,
        DeliveryOutcome::Sent => OutboxAction::Sent,
        DeliveryOutcome::SendFailed => OutboxAction::Retry(plan_retry(attempts, now)),
    }
}

/// Each retry of a failing notification waits longer than the one before, and
/// no retry waits more than two minutes: retries stop at the fifth attempt.
pub proof fn law_retry_waits_grow(a: int, b: int)
    requires
        1 <= a < b < MAX_SEND_ATTEMPTS,
    ensures
        retry_delay(a) < retry_delay(b),
        retry_delay(b) <= 120,
{
}

// ---------------------------------------------------------------------------
// Targets and tokens
// ---------------------------------------------------------------------------

/// Why no bot token could be found.
#[derive(Debug, Clone, Copy, PartialEq, Eq, Structural)]
pub enum NotifyError {
    /// Neither the target, the `tgram://` url, the token nor the token file
    /// gives one.
    NoToken,
}

impl NotifyError {
    /// The text of the error.
    pub fn message(&self) -> (r: String)
        ensures
            r@ == "telegram url/token or token_file is required"@,
    {
        match self {
            NotifyError::NoToken => str_to_string("telegram url/token or token_file is required"),
        }
    }
}

/// The token of the legacy settings: the `token` setting, else the trimmed
/// content of the token file when one was read.
pub open spec fn legacy_token(token: Seq<char>, file_token: Option<Seq<char>>) -> Option<Seq<char>> {
    if token.len() > 0 {
        Some(token)
    } else {
        match file_token {
            Some(f) => Some(trim(f)),
            None => None,
        }
    }
}

/// The global bot token: the one of the `tgram://` url, else the legacy one.
pub open spec fn global_token(cfg: TelegramConfig, file_token: Option<Seq<char>>) -> Option<Seq<char>> {
    match tgram_target(cfg.url@) {
        Ok(t) => Some(t.0),
        Err(_) => legacy_token(cfg.token@, file_token),
    }
}

/// The global target: the usable target of the `tgram://` url, else the
/// legacy token with the default chat id, when both are non-empty.
pub open spec fn global_target(cfg: TelegramConfig, file_token: Option<Seq<char>>) -> Option<
    (Seq<char>, Seq<Seq<char>>),
> {
    match crate::config::usable_target(cfg.url@) {
        Some(t) => Some(t),
        None => {
            let tok = match legacy_token(cfg.token@, file_token) {
                Some(t) => t,
                None => seq![],
            };
            if tok.len() == 0 || cfg.default_chat_id@.len() == 0 {
                None
            } else {
                Some((tok, seq![cfg.default_chat_id@]))
            }
        },
    }
}

pub open spec fn opt_view(s: Option<&str>) -> Option<Seq<char>> {
    match s {
        Some(x) => Some(x@),
        None => None,
    }
}

/// The global bot token. `file_token` is the content of the configured token
/// file, when there is one and it was read.
pub fn resolve_global_token(cfg: &TelegramConfig, file_token: Option<&str>) -> (r: Result<
    String,
    NotifyError,
>)
    ensures
        match global_token(*cfg, opt_view(file_token)) {
            Some(t) => r matches Ok(s) && s@ == t,
            None => r == Err::<String, NotifyError>(NotifyError::NoToken),
        },
{
    match parse_telegram_url(cfg.url.as_str()) {
        Ok(t) => return Ok(t.token),
        Err(_) => {},
    }
    if !cfg.token.as_str().is_empty() {
        return Ok(cfg.token.clone());
    }
    match file_token {
        Some(f) => {
            let c = chars_of(f);
            let t = trim_chars(&c);
            Ok(string_of(&t))
        },
        None => Err(NotifyError::NoToken),
    }
}

/// The global notification target ([`global_target`]). `file_token` is the
/// content of the configured token file, when there is one and it was read.
pub fn resolve_global_target(cfg: &TelegramConfig, file_token: Option<&str>) -> (r: Option<
    TelegramTarget,
>)
    ensures
        match r {
            Some(t) => global_target(*cfg, opt_view(file_token)) == Some(
                (t.token@, t.chat_ids@.map_values(|c: String| c@)),
            ),
            None => global_target(*cfg, opt_view(file_token)) is None,
        },
{
    match parse_telegram_url(cfg.url.as_str()) {
        Ok(t) => {
            if t.is_valid() {
                return Some(t);
            }
        },
        Err(_) => {},
    }
    let token: String = if !cfg.token.as_str().is_empty() {
        cfg.token.clone()
    } else {
        match file_token {
            Some(f) => {
                let c = chars_of(f);
                let t = trim_chars(&c);
                string_of(&t)
            },
            None => String::new(),
        }
    };
    if token.as_str().is_empty() || cfg.default_chat_id.as_str().is_empty() {
        None
    } else {
        let mut ids: Vec<String> = Vec::new();
        ids.push(cfg.default_chat_id.clone());
        proof {
            assert(ids@.map_values(|c: String| c@) =~= seq![cfg.default_chat_id@]);
        }
        Some(TelegramTarget { token, chat_ids: ids })
    }
}

/// The token to send to a target with: its own, else the global one.
pub fn resolve_target_token(
    cfg: &TelegramConfig,
    target: &TelegramTarget,
    file_token: Option<&str>,
) -> (r: Result<String, NotifyError>)
    ensures
        target.token@.len() > 0 ==> (r matches Ok(s) && s@ == target.token@),
        target.token@.len() == 0 ==> match global_token(*cfg, opt_view(file_token)) {
            Some(t) => r matches Ok(s) && s@ == t,
            None => r == Err::<String, NotifyError>(NotifyError::NoToken),
        },
{
    if !target.token.as_str().is_empty() {
        Ok(target.token.clone())
    } else {
        resolve_global_token(cfg, file_token)
    }
}

/// The target stored with a queued notification, kept when it names chats.
pub open spec fn kept_record(parsed: Option<NotificationTarget>) -> Option<NotificationTarget> {
    match parsed {
        Some(t) => if t.chat_ids@.len() > 0 {
            Some(t)
        } else {
            None
        },
        None => None,
    }
}

/// The sending target of a queued notification: the token of its stored
/// target, else the global token; the override chat id, else the stored chat
/// ids, else the global ones; nothing when there is no token or no chat.
pub open spec fn record_target(
    parsed: Option<NotificationTarget>,
    global: Option<TelegramTarget>,
    chat_override: Option<Seq<char>>,
) -> Option<(Seq<char>, Seq<Seq<char>>)> {
    let p = kept_record(parsed);
    let token: Option<Seq<char>> = match p {
        Some(t) => if t.token@.len() > 0 {
            Some(t.token@)
        } else {
            match global {
                Some(g) => Some(g.token@),
                None => None,
            }
        },
        None => match global {
            Some(g) => Some(g.token@),
            None => None,
        },
    };
    let chats: Seq<Seq<char>> = match chat_override {
        Some(o) => seq![o],
        None => match p {
            Some(t) => t.chat_ids@.map_values(|c: String| c@),
            None => match global {
                Some(g) => g.chat_ids@.map_values(|c: String| c@),
                None => seq![],
            },
        },
    };
    match token {
        None => None,
        Some(tk) => if chats.len() == 0 {
            None
        } else {
            Some((tk, chats))
        },
    }
}

/// Builds the sending target of a queued notification from its stored target
/// (`None` when the stored JSON did not parse), the global target and an
/// optional chat id that replaces the chats ([`record_target`]).
pub fn build_target_from_record(
    parsed: Option<NotificationTarget>,
    global: Option<TelegramTarget>,
    chat_id_override: Option<&str>,
) -> (r: Option<TelegramTarget>)
    ensures
        match r {
            Some(t) => record_target(parsed, global, opt_view(chat_id_override)) == Some(
                (t.token@, t.chat_ids@.map_values(|c: String| c@)),
            ),
            None => record_target(parsed, global, opt_view(chat_id_override)) is None,
        },
{
    let ghost p0 = parsed;
    let ghost g0 = global;
    let p: Option<NotificationTarget> = match parsed {
        Some(t) => if t.chat_ids.len() > 0 {
            Some(t)
        } else {
            None
        },
        None => None,
    };
    let token: String = match &p {
        Some(t) if !t.token.as_str().is_empty() => t.token.clone(),
        _ => match &global {
            Some(g) => g.token.clone(),
            None => return None,
        },
    };
    let chat_ids: Vec<String> = match chat_id_override {
        Some(o) => {
            let mut v: Vec<String> = Vec::new();
            v.push(str_to_string(o));
            proof {
                assert(v@.map_values(|c: String| c@) =~= seq![o@]);
            }
            v
        },
        None => match p {
            Some(t) => t.chat_ids,
            None => match global {
                Some(g) => g.chat_ids,
                None => Vec::new(),
            },
        },
    };
    proof {
        assert(p0 == parsed);
    }
    if chat_ids.len() == 0 {
        proof {
            assert(chat_ids@.map_values(|c: String| c@).len() == 0);
        }
        return None;
    }
    Some(TelegramTarget { token, chat_ids })
}

/// The chat of a test message: the given one, else the target's first.
pub fn test_chat(target: &TelegramTarget, chat_id: Option<&str>) -> (r: Option<String>)
    ensures
        match chat_id {
            Some(c) => r matches Some(s) && s@ == c@,
            None => if target.chat_ids@.len() > 0 {
                r == Some(target.chat_ids@[0])
            } else {
                r is None
            },
        },
{
    match chat_id {
        Some(c) => Some(str_to_string(c)),
        None => if target.chat_ids.len() > 0 {
            Some(target.chat_ids[0].clone())
        } else {
            None
        },
    }
}

/// The Bot API base: the configured one, else the public endpoint.
pub fn api_base(cfg: &TelegramConfig) -> (r: String)
    ensures
        cfg.api_base@.len() > 0 ==> r@ == cfg.api_base@,
        cfg.api_base@.len() == 0 ==> r@ == "https://api.telegram.org"@,
{
    if cfg.api_base.as_str().is_empty() {
        str_to_string("https://api.telegram.org")
    } else {
        cfg.api_base.clone()
    }
}

// ---------------------------------------------------------------------------
// Delivery of a change notification
// ---------------------------------------------------------------------------

/// How a change notification is sent to each chat.
#[derive(Debug, Clone, Copy, PartialEq, Eq, Structural)]
pub enum Delivery {
    /// A text message.
    Text,
    /// One photo with the text as its caption.
    Photo,
    /// A media group, the text as the caption of its first photo.
    Album,
}

/// Images attached to an event: as many as are available, at most the
/// configured maximum (at least one).
pub open spec fn images_used(available: int, max_images: int) -> int {
    let cap = if max_images < 1 { 1 } else { max_images };
    if available < cap { available } else { cap }
}

/// How many of the available images an event carries and how it is sent.
pub fn event_delivery(available: usize, max_images_per_event: usize) -> (r: (usize, Delivery))
    ensures
        r.0 == images_used(available as int, max_images_per_event as int),
        r.1 == (if r.0 == 0 {
            Delivery::Text
        } else if r.0 == 1 {
            Delivery::Photo
        } else {
            Delivery::Album
        }),
{
    let cap: usize = if max_images_per_event < 1 {
        1
    } else {
        max_images_per_event
    };
    let n = if available < cap {
        available
    } else {
        cap
    };
    let d = if n == 0 {
        Delivery::Text
    } else if n == 1 {
        Delivery::Photo
    } else {
        Delivery::Album
    };
    (n, d)
}

/// Where the bytes of a photo come from.
pub enum MediaSource {
    /// A file Telegram already holds.
    FileId(String),
    /// A local file uploaded under the given attachment name.
    Upload(String),
}

pub enum MediaSourceView {
    FileId(Seq<char>),
    Upload(Seq<char>),
}

impl View for MediaSource {
    type V = MediaSourceView;

    open spec fn view(&self) -> MediaSourceView {
        match self {
            MediaSource::FileId(f) => MediaSourceView::FileId(f@),
            MediaSource::Upload(a) => MediaSourceView::Upload(a@),
        }
    }
}

/// One photo of a media group.
pub struct MediaSlot {
    /// Index of the cache entry.
    pub entry: usize,
    pub source: MediaSource,
    /// Whether the photo carries the notification text.
    pub caption: bool,
}

/// The source of a cached image: its Telegram file id, else an upload named
/// after its hash.
pub open spec fn slot_source(e: MediaCacheEntry) -> MediaSourceView {
    match e.telegram_file_id {
        Some(f) => MediaSourceView::FileId(f@),
        None => MediaSourceView::Upload("photo_"@ + e.sha256@),
    }
}

/// Whether an image can be sent: Telegram holds it or its file is on disk.
pub open spec fn sendable(e: MediaCacheEntry, present: bool) -> bool {
    e.telegram_file_id is Some || present
}

/// Indices, in order, of the first `n` entries that can be sent.
pub open spec fn kept_indices(entries: Seq<MediaCacheEntry>, present: Seq<bool>, n: int) -> Seq<int>
    decreases n,
{
    if n <= 0 {
        seq![]
    } else {
        let prev = kept_indices(entries, present, n - 1);
        if sendable(entries[n - 1], present[n - 1]) {
            prev.push(n - 1)
        } else {
            prev
        }
    }
}

proof fn lemma_kept_bounds(entries: Seq<MediaCacheEntry>, present: Seq<bool>, n: int)
    requires
        0 <= n,
    ensures
        kept_indices(entries, present, n).len() <= n,
        forall|j: int|
            0 <= j < kept_indices(entries, present, n).len() ==> 0 <= #[trigger] kept_indices(
                entries,
                present,
                n,
            )[j] < n,
    decreases n,
{
    if n > 0 {
        lemma_kept_bounds(entries, present, n - 1);
    }
}

fn attach_name(sha256: &String) -> (r: String)
    ensures
        r@ == "photo_"@ + sha256@,
{
    let mut out = chars_of("photo_");
    let h = chars_of(sha256.as_str());
    append_chars(&mut out, &h);
    string_of(&out)
}

fn source_of(e: &MediaCacheEntry) -> (r: MediaSource)
    ensures
        r@ == slot_source(*e),
{
    match &e.telegram_file_id {
        Some(f) => MediaSource::FileId(f.clone()),
        None => MediaSource::Upload(attach_name(&e.sha256)),
    }
}

/// The photos of a media group: the entries that can be sent, in order, each
/// from its [`slot_source`], the first one carrying the text. `present[i]`
/// tells whether the file of entry `i` is on disk.
pub fn plan_media_group(entries: &[MediaCacheEntry], present: &[bool]) -> (r: Vec<MediaSlot>)
    requires
        present@.len() == entries@.len(),
    ensures
        r@.len() == kept_indices(entries@, present@, entries@.len() as int).len(),
        forall|j: int|
            0 <= j < r@.len() ==> {
                let k = kept_indices(entries@, present@, entries@.len() as int)[j];
                &&& (#[trigger] r@[j]).entry == k
                &&& r@[j].source@ == slot_source(entries@[k])
                &&& r@[j].caption == (j == 0)
            },
{
    let mut out: Vec<MediaSlot> = Vec::new();
    let mut i: usize = 0;
    while i < entries.len()
        invariant
            i <= entries.len(),
            present@.len() == entries@.len(),
            out@.len() == kept_indices(entries@, present@, i as int).len(),
            forall|j: int|
                0 <= j < out@.len() ==> {
                    let k = kept_indices(entries@, present@, i as int)[j];
                    &&& (#[trigger] out@[j]).entry == k
                    &&& out@[j].source@ == slot_source(entries@[k])
                    &&& out@[j].caption == (j == 0)
                },
        decreases entries.len() - i,
    {
        let e = &entries[i];
        if e.telegram_file_id.is_some() || present[i] {
            let first = out.len() == 0;
            let src = source_of(e);
            out.push(MediaSlot { entry: i, source: src, caption: first });
        }
        i += 1;
    }
    out
}

/// The source of a single photo, or `None` when it cannot be sent (no file id
/// and no file on disk).
pub fn plan_photo(entry: &MediaCacheEntry, present: bool) -> (r: Option<MediaSource>)
    ensures
        sendable(*entry, present) ==> (r matches Some(s) && s@ == slot_source(*entry)),
        !sendable(*entry, present) ==> r is None,
{
    if entry.telegram_file_id.is_some() || present {
        Some(source_of(entry))
    } else {
        None
    }
}

} // verus!
