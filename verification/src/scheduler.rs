//! Scheduling decisions of the daemon: when a source is due again, what a
//! failure does to its state, which sources a tick starts, and what a change
//! does to the notification bookkeeping.
use vstd::prelude::*;

use crate::config::{
    effective_history, resolve_effective_source, EditableSettings, ExtractConfig, ImageSelector,
    ItemSelector, RuntimeConfig, SourceConfig, DEFAULT_CRON,
};
use crate::cron_expr::{
    cron_accepts, in_chrono_range, later_trigger, next_due, seven_field, time_in_range, tz_known,
    CronError,
};
use crate::models::{
    item_fingerprint, DiffResult, Item, NotificationRecord, ScheduleState, TagConfig, TelegramTarget,
};
use crate::config::str_to_string;
use crate::models::{clone_strings, FetchedDocument};
use crate::pipeline::{changed_images, collect_changed_element_images, str_views, PipelineOutput};
use crate::text::{append_chars, chars_of, i64_dec, int_dec, seq_eq, string_of, trim, trim_chars};

verus! {

/// The cron expression of a source: its own when not blank, else the global
/// default when not blank, else hourly. Both are trimmed.
pub open spec fn schedule_expr(cron: Option<String>, default_cron: Seq<char>) -> Seq<char> {
    let own = match cron {
        Some(c) => trim(c@),
        None => seq![],
    };
    if own.len() > 0 {
        own
    } else if trim(default_cron).len() > 0 {
        trim(default_cron)
    } else {
        DEFAULT_CRON@
    }
}

/// The next check of an expression after `now` in the zone `tz`: its next
/// trigger strictly after `now` ([`later_trigger`]), or a retry a minute later when the expression is refused or has
/// no trigger. `None` when the zone is unknown and the machine's zone decides.
pub open spec fn planned_due(expr: Seq<char>, tz: Seq<char>, now: int) -> Option<int> {
    match seven_field(expr) {
        Err(_) => Some(now + 60),
        Ok(s7) => if !cron_accepts(s7) {
            Some(now + 60)
        } else if tz_known(tz) {
            match later_trigger(s7, tz, now) {
                Some(t) => Some(t as i64 as int),
                None => Some(now + 60),
            }
        } else {
            None
        },
    }
}

/// Consecutive changes after a check: one more than before when the check
/// saw a change (saturating), else none.
pub open spec fn changes_after(had_change: bool, prev: Option<ScheduleState>) -> u32 {
    if had_change {
        match prev {
            Some(p) => if p.consecutive_changes == u32::MAX {
                u32::MAX
            } else {
                (p.consecutive_changes + 1) as u32
            },
            None => 1,
        }
    } else {
        0
    }
}

fn expr_of(source: &SourceConfig, default_cron: &str) -> (r: String)
    ensures
        r@ == schedule_expr(source.schedule.cron, default_cron@),
{
    match &source.schedule.cron {
        Some(c) => {
            let cc = chars_of(c.as_str());
            let t = trim_chars(&cc);
            if t.len() > 0 {
                return string_of(&t);
            }
        },
        None => {},
    }
    let d = chars_of(default_cron);
    let dt = trim_chars(&d);
    if dt.len() > 0 {
        string_of(&dt)
    } else {
        str_to_string(DEFAULT_CRON)
    }
}

/// The next check from the answer of [`next_due`]: its trigger, or a retry a
/// minute after `now` when the expression gave none.
pub fn due_or_retry(found: Result<i64, CronError>, now: i64) -> (r: i64)
    requires
        now <= i64::MAX - 60,
    ensures
        r == (match found {
            Ok(t) => t as int,
            Err(_) => now + 60,
        }),
{
    match found {
        Ok(t) => t,
        Err(_) => now + 60,
    }
}

/// The schedule state after a check at the unix time `now`.
///
/// The next check follows the source's cron expression ([`schedule_expr`],
/// [`planned_due`]); the failure count becomes `failures` (0 on success, which
/// also clears the backoff, the last error and the failure-alert flag);
/// consecutive changes count up while checks see changes (a suppressed
/// duplicate counts as a change); the last notified fingerprint and time are
/// carried over from `prev`.
pub fn next_schedule(
    source: &SourceConfig,
    failures: u32,
    last_success: Option<i64>,
    had_change: bool,
    prev: Option<&ScheduleState>,
    tz: &str,
    default_cron: &str,
    now: i64,
) -> (r: ScheduleState)
    requires
        time_in_range(now as int),
    ensures
        r.source_id == source.id,
        match planned_due(schedule_expr(source.schedule.cron, default_cron@), tz@, now as int) {
            Some(d) => r.next_due_at == d,
            None => r.next_due_at > now,
        },
        r.next_due_at > now,
        r.consecutive_failures == failures,
        r.consecutive_changes == changes_after(
            had_change,
            match prev {
                Some(p) => Some(*p),
                None => None,
            },
        ),
        r.backoff_until is None,
        r.last_success_at == last_success,
        r.last_error is None,
        r.last_notified_fingerprint == (match prev {
            Some(p) => p.last_notified_fingerprint,
            None => None,
        }),
        r.last_notified_at == (match prev {
            Some(p) => p.last_notified_at,
            None => None,
        }),
        r.failure_notified == (failures > 0 && match prev {
            Some(p) => p.failure_notified,
            None => false,
        }),
{
    let consecutive_changes: u32 = if had_change {
        match prev {
            Some(p) => if p.consecutive_changes == u32::MAX {
                u32::MAX
            } else {
                p.consecutive_changes + 1
            },
            None => 1,
        }
    } else {
        0
    };
    let expr = expr_of(source, default_cron);
    let found = next_due(expr.as_str(), tz, now);
    let next_due_at = due_or_retry(found, now);
    let (fp, at, notified) = match prev {
        Some(p) => (crate::config::clone_opt_string(&p.last_notified_fingerprint), p.last_notified_at, p.failure_notified),
        None => (None, None, false),
    };
    ScheduleState {
        source_id: source.id.clone(),
        next_due_at,
        consecutive_failures: failures,
        consecutive_changes,
        backoff_until: None,
        last_success_at: last_success,
        last_error: None,
        last_notified_fingerprint: fp,
        last_notified_at: at,
        failure_notified: failures > 0 && notified,
    }
}

// ---------------------------------------------------------------------------
// Failures
// ---------------------------------------------------------------------------

/// Backoff base, in seconds.
pub const BACKOFF_BASE_SECS: i64 = 30;

/// Largest exponent of the backoff.
pub const BACKOFF_MAX_EXP: u32 = 5;

/// `2^min(failures, 5)`.
pub open spec fn backoff_factor(failures: int) -> int {
    if failures <= 0 {
        1
    } else if failures == 1 {
        2
    } else if failures == 2 {
        4
    } else if failures == 3 {
        8
    } else if failures == 4 {
        16
    } else {
        32
    }
}

/// Backoff after `failures` consecutive failures: `30 s × 2^min(failures, 5)`.
pub open spec fn backoff_secs(failures: int) -> int {
    30 * backoff_factor(failures)
}

/// Whether a failure alert is due: alerts are on, the failure count reached
/// the threshold, and this run of failures was not alerted yet.
pub open spec fn alert_due(failures: int, threshold: int, notified: bool) -> bool {
    threshold > 0 && failures >= threshold && !notified
}

/// A failed check: the new state and whether a failure alert is to be queued.
pub struct FailureOutcome {
    pub state: ScheduleState,
    pub alert: bool,
}

fn backoff_of(failures: u32) -> (r: i64)
    ensures
        r == backoff_secs(failures as int),
{
    let exp = if failures < BACKOFF_MAX_EXP {
        failures
    } else {
        BACKOFF_MAX_EXP
    };
    let factor: i64 = if exp == 0 {
        1
    } else if exp == 1 {
        2
    } else if exp == 2 {
        4
    } else if exp == 3 {
        8
    } else if exp == 4 {
        16
    } else {
        32
    };
    BACKOFF_BASE_SECS * factor
}

/// The state after a failed check at the unix time `now`: one more failure,
/// the error kept, a backoff of [`backoff_secs`] from now, the next check a
/// second from now, and an alert when [`alert_due`].
pub fn record_failure_step(sched: &ScheduleState, error: &str, threshold: u32, now: i64) -> (r:
    FailureOutcome)
    requires
        sched.consecutive_failures < u32::MAX,
        in_chrono_range(now as int),
        in_chrono_range(now + backoff_secs(sched.consecutive_failures + 1)),
    ensures
        r.state.source_id == sched.source_id,
        r.state.consecutive_failures == sched.consecutive_failures + 1,
        r.state.last_error matches Some(e) && e@ == error@,
        r.state.backoff_until == Some(
            (now + backoff_secs(sched.consecutive_failures + 1)) as i64,
        ),
        r.state.next_due_at == now + 1,
        r.state.consecutive_changes == sched.consecutive_changes,
        r.state.last_success_at == sched.last_success_at,
        r.state.last_notified_fingerprint == sched.last_notified_fingerprint,
        r.state.last_notified_at == sched.last_notified_at,
        r.state.failure_notified == sched.failure_notified,
        r.alert == alert_due(
            sched.consecutive_failures + 1,
            threshold as int,
            sched.failure_notified,
        ),
{
    let mut s = sched.clone();
    s.consecutive_failures = sched.consecutive_failures + 1;
    s.last_error = Some(str_to_string(error));
    let b = backoff_of(s.consecutive_failures);
    s.backoff_until = Some(now + b);
    s.next_due_at = now + 1;
    let alert = threshold > 0 && s.consecutive_failures >= threshold && !s.failure_notified;
    FailureOutcome { state: s, alert }
}

/// Records that the current run of failures was alerted.
pub fn mark_failure_notified(sched: &mut ScheduleState)
    ensures
        *final(sched) == (ScheduleState { failure_notified: true, ..*old(sched) }),
{
    sched.failure_notified = true;
}

/// Failure count and alert flag after `k` consecutive failures from a cleared
/// state, each due alert being queued and marked.
pub open spec fn streak(k: nat, threshold: int) -> (int, bool)
    decreases k,
{
    if k == 0 {
        (0, false)
    } else {
        let prev = streak((k - 1) as nat, threshold);
        let f = prev.0 + 1;
        (f, prev.1 || alert_due(f, threshold, prev.1))
    }
}

proof fn lemma_streak(k: nat, threshold: int)
    ensures
        streak(k, threshold) == (k as int, threshold > 0 && k >= threshold),
    decreases k,
{
    if k > 0 {
        lemma_streak((k - 1) as nat, threshold);
    }
}

/// One run of failures raises one alert: with alerts on, the `k`-th
/// consecutive failure after a success raises an alert exactly when `k` is the
/// threshold; with alerts off, none does.
pub proof fn law_one_alert_per_streak(k: nat, threshold: int)
    requires
        k >= 1,
    ensures
        alert_due(
            streak((k - 1) as nat, threshold).0 + 1,
            threshold,
            streak((k - 1) as nat, threshold).1,
        ) == (threshold > 0 && k == threshold),
{
    lemma_streak((k - 1) as nat, threshold);
}

/// The backoff grows with the failure count and stays between 30 s and 16 min.
pub proof fn law_backoff_bounded(f: int, g: int)
    requires
        f <= g,
    ensures
        30 <= backoff_secs(f) <= 960,
        backoff_secs(f) <= backoff_secs(g),
{
}


// ---------------------------------------------------------------------------
// Due sources
// ---------------------------------------------------------------------------

/// The stored state of a source: the first one with its id.
pub open spec fn state_for(states: Seq<ScheduleState>, id: Seq<char>) -> Option<ScheduleState>
    decreases states.len(),
{
    if states.len() == 0 {
        None
    } else if states[0].source_id@ == id {
        Some(states[0])
    } else {
        state_for(states.drop_first(), id)
    }
}

/// A source is due when it is enabled, not in backoff, and its next check time
/// has come; a source without state is due at once.
pub open spec fn is_due(source: SourceConfig, st: Option<ScheduleState>, now: int) -> bool {
    source.enabled && match st {
        None => true,
        Some(s) => {
            let backed_off = match s.backoff_until {
                Some(u) => u > now,
                None => false,
            };
            !backed_off && s.next_due_at <= now
        },
    }
}

/// Indices, in order, of the due sources among the first `n`.
pub open spec fn due_indices(sources: Seq<SourceConfig>, states: Seq<ScheduleState>, now: int, n: int) -> Seq<
    int,
>
    decreases n,
{
    if n <= 0 {
        seq![]
    } else {
        let prev = due_indices(sources, states, now, n - 1);
        if is_due(sources[n - 1], state_for(states, sources[n - 1].id@), now) {
            prev.push(n - 1)
        } else {
            prev
        }
    }
}

/// The sources started by a tick: the due ones in order, at most the queue
/// capacity (at least one).
pub open spec fn tick_batch(
    sources: Seq<SourceConfig>,
    states: Seq<ScheduleState>,
    now: int,
    capacity: int,
) -> Seq<int> {
    let due = due_indices(sources, states, now, sources.len() as int);
    let cap = if capacity < 1 { 1 } else { capacity };
    if due.len() <= cap {
        due
    } else {
        due.take(cap)
    }
}

fn find_state(states: &[ScheduleState], id: &str) -> (r: Option<usize>)
    ensures
        match r {
            Some(i) => i < states@.len() && state_for(states@, id@) == Some(states@[i as int]),
            None => state_for(states@, id@) is None,
        },
{
    let k = chars_of(id);
    let mut i: usize = 0;
    proof {
        assert(states@.skip(0) =~= states@);
    }
    while i < states.len()
        invariant
            i <= states.len(),
            k@ == id@,
            state_for(states@, id@) == state_for(states@.skip(i as int), id@),
        decreases states.len() - i,
    {
        let n = chars_of(states[i].source_id.as_str());
        proof {
            assert(states@.skip(i as int).drop_first() =~= states@.skip(i + 1));
            assert(states@.skip(i as int)[0] == states@[i as int]);
        }
        if seq_eq(&n, &k) {
            return Some(i);
        }
        i += 1;
    }
    proof {
        assert(states@.skip(i as int) =~= Seq::<ScheduleState>::empty());
    }
    None
}

proof fn lemma_due_bounds(sources: Seq<SourceConfig>, states: Seq<ScheduleState>, now: int, n: int)
    requires
        0 <= n,
    ensures
        due_indices(sources, states, now, n).len() <= n,
        forall|j: int|
            0 <= j < due_indices(sources, states, now, n).len() ==> 0 <= #[trigger] due_indices(
                sources,
                states,
                now,
                n,
            )[j] < n,
    decreases n,
{
    if n > 0 {
        lemma_due_bounds(sources, states, now, n - 1);
    }
}

/// Indices of the sources a tick at the unix time `now` starts
/// ([`tick_batch`]). `states` are the stored schedule states.
pub fn collect_due_sources(
    sources: &[SourceConfig],
    states: &[ScheduleState],
    now: i64,
    queue_capacity: usize,
) -> (r: Vec<usize>)
    ensures
        r@.len() == tick_batch(sources@, states@, now as int, queue_capacity as int).len(),
        forall|j: int|
            0 <= j < r@.len() ==> #[trigger] r@[j] as int == tick_batch(
                sources@,
                states@,
                now as int,
                queue_capacity as int,
            )[j],
{
    let cap: usize = if queue_capacity < 1 {
        1
    } else {
        queue_capacity
    };
    let mut out: Vec<usize> = Vec::new();
    let mut i: usize = 0;
    while i < sources.len()
        invariant
            i <= sources.len(),
            1 <= cap,
            cap == (if queue_capacity < 1 { 1 } else { queue_capacity as int }),
            out@.len() == (if due_indices(sources@, states@, now as int, i as int).len() <= cap {
                due_indices(sources@, states@, now as int, i as int).len() as int
            } else {
                cap as int
            }),
            forall|j: int|
                0 <= j < out@.len() ==> #[trigger] out@[j] as int == due_indices(
                    sources@,
                    states@,
                    now as int,
                    i as int,
                )[j],
        decreases sources.len() - i,
    {
        let ghost before = due_indices(sources@, states@, now as int, i as int);
        let st_idx = find_state(states, sources[i].id.as_str());
        let due = if !sources[i].enabled {
            false
        } else {
            match st_idx {
                None => true,
                Some(k) => {
                    let st = &states[k];
                    let backed_off = match st.backoff_until {
                        Some(u) => u > now,
                        None => false,
                    };
                    !backed_off && st.next_due_at <= now
                },
            }
        };
        proof {
            let sopt = state_for(states@, sources@[i as int].id@);
            assert(due == is_due(sources@[i as int], sopt, now as int));
        }
        if due && out.len() < cap {
            out.push(i);
        }
        i += 1;
        proof {
            let after = due_indices(sources@, states@, now as int, i as int);
            if due {
                assert(after == before.push(i - 1));
            } else {
                assert(after == before);
            }
        }
    }
    out
}

// ---------------------------------------------------------------------------
// Changed items
// ---------------------------------------------------------------------------

/// Whether some item of the list has the id.
pub open spec fn has_id(items: Seq<Item>, id: Seq<char>) -> bool {
    exists|j: int| 0 <= j < items.len() && #[trigger] items[j].stable_id@ == id
}

/// Whether an earlier round had an item with the same id and another content.
pub open spec fn content_changed(old_items: Seq<Item>, new: Item) -> bool {
    exists|j: int|
        0 <= j < old_items.len() && #[trigger] old_items[j].stable_id@ == new.stable_id@
            && item_fingerprint(old_items[j]@, seq![]) != item_fingerprint(new@, seq![])
}

/// Ids of the first `n` new items of a change that are new or updated, each
/// once, in order.
pub open spec fn changed_ids(new_items: Seq<Item>, diff_old: Seq<Item>, old_items: Seq<Item>, n: int) -> Seq<
    Seq<char>,
>
    decreases n,
{
    if n <= 0 {
        seq![]
    } else {
        let prev = changed_ids(new_items, diff_old, old_items, n - 1);
        let it = new_items[n - 1];
        if (!has_id(diff_old, it.stable_id@) || content_changed(old_items, it)) && !prev.contains(
            it.stable_id@,
        ) {
            prev.push(it.stable_id@)
        } else {
            prev
        }
    }
}

fn list_has_id(items: &[Item], id: &Vec<char>) -> (r: bool)
    ensures
        r == has_id(items@, id@),
{
    let mut j: usize = 0;
    while j < items.len()
        invariant
            j <= items.len(),
            forall|k: int| 0 <= k < j ==> items@[k].stable_id@ != id@,
        decreases items.len() - j,
    {
        let c = chars_of(items[j].stable_id.as_str());
        if seq_eq(&c, id) {
            return true;
        }
        j += 1;
    }
    false
}

fn changed_against(old_items: &[Item], new: &Item) -> (r: bool)
    ensures
        r == content_changed(old_items@, *new),
{
    let empty: Vec<String> = Vec::new();
    let id = chars_of(new.stable_id.as_str());
    let nf = new.fingerprint(empty.as_slice());
    let nfc = chars_of(nf.as_str());
    proof {
        assert(empty@.map_values(|s: String| s@) =~= Seq::<Seq<char>>::empty());
    }
    let mut j: usize = 0;
    while j < old_items.len()
        invariant
            j <= old_items.len(),
            id@ == new.stable_id@,
            nfc@ == item_fingerprint(new@, seq![]),
            empty@.map_values(|s: String| s@) == Seq::<Seq<char>>::empty(),
            forall|k: int|
                0 <= k < j ==> !(#[trigger] old_items@[k].stable_id@ == new.stable_id@
                    && item_fingerprint(old_items@[k]@, seq![]) != item_fingerprint(new@, seq![])),
        decreases old_items.len() - j,
    {
        let c = chars_of(old_items[j].stable_id.as_str());
        if seq_eq(&c, &id) {
            let of = old_items[j].fingerprint(empty.as_slice());
            let ofc = chars_of(of.as_str());
            if !seq_eq(&ofc, &nfc) {
                return true;
            }
        }
        j += 1;
    }
    false
}

fn ids_contain(ids: &Vec<String>, id: &Vec<char>) -> (r: bool)
    ensures
        r == ids@.map_values(|s: String| s@).contains(id@),
{
    let mut j: usize = 0;
    while j < ids.len()
        invariant
            j <= ids.len(),
            forall|k: int| 0 <= k < j ==> ids@[k]@ != id@,
        decreases ids.len() - j,
    {
        let c = chars_of(ids[j].as_str());
        if seq_eq(&c, id) {
            proof {
                assert(ids@.map_values(|s: String| s@)[j as int] == id@);
            }
            return true;
        }
        j += 1;
    }
    proof {
        let m = ids@.map_values(|s: String| s@);
        if m.contains(id@) {
            let k = choose|k: int| 0 <= k < m.len() && #[trigger] m[k] == id@;
            assert(ids@[k]@ == id@);
        }
    }
    false
}

/// The ids of the new or updated items of a change: new items whose id the
/// change's old items lack, or whose content differs from an item of the
/// previous round (`old_items`) with the same id ([`changed_ids`]).
pub fn changed_item_ids(diff: &DiffResult, old_items: &[Item]) -> (r: Vec<String>)
    ensures
        r@.map_values(|s: String| s@) == changed_ids(
            diff.new_items@,
            diff.old_items@,
            old_items@,
            diff.new_items@.len() as int,
        ),
{
    let mut out: Vec<String> = Vec::new();
    let mut i: usize = 0;
    while i < diff.new_items.len()
        invariant
            i <= diff.new_items.len(),
            out@.map_values(|s: String| s@) == changed_ids(
                diff.new_items@,
                diff.old_items@,
                old_items@,
                i as int,
            ),
        decreases diff.new_items.len() - i,
    {
        let it = &diff.new_items[i];
        let id = chars_of(it.stable_id.as_str());
        let fresh = !list_has_id(diff.old_items.as_slice(), &id);
        let qualifies = fresh || changed_against(old_items, it);
        if qualifies && !ids_contain(&out, &id) {
            let ghost before = out@.map_values(|s: String| s@);
            out.push(it.stable_id.clone());
            proof {
                assert(out@.map_values(|s: String| s@) =~= before.push(it.stable_id@));
            }
        }
        i += 1;
    }
    out
}

// ---------------------------------------------------------------------------
// Change bookkeeping
// ---------------------------------------------------------------------------

/// What a successful check that produced a comparison leads to.
#[derive(Debug, Clone, Copy, PartialEq, Eq, Structural)]
pub enum CheckOutcome {
    /// Nothing changed.
    Unchanged,
    /// A change whose fingerprint was already notified: suppressed.
    Duplicate,
    /// A change to record and notify.
    Change,
}

/// The outcome of a comparison given the stored state of the source.
pub open spec fn check_outcome(changed: bool, prev: Option<ScheduleState>, dedupe_key: Seq<char>) -> CheckOutcome {
    if !changed {
        CheckOutcome::Unchanged
    } else {
        match prev {
            Some(p) => match p.last_notified_fingerprint {
                Some(f) => if f@ == dedupe_key {
                    CheckOutcome::Duplicate
                } else {
                    CheckOutcome::Change
                },
                None => CheckOutcome::Change,
            },
            None => CheckOutcome::Change,
        }
    }
}

/// Classifies a comparison ([`check_outcome`]).
pub fn classify_change(changed: bool, prev: Option<&ScheduleState>, dedupe_key: &str) -> (r: CheckOutcome)
    ensures
        r == check_outcome(
            changed,
            match prev {
                Some(p) => Some(*p),
                None => None,
            },
            dedupe_key@,
        ),
{
    if !changed {
        return CheckOutcome::Unchanged;
    }
    match prev {
        Some(p) => match &p.last_notified_fingerprint {
            Some(f) => {
                let a = chars_of(f.as_str());
                let b = chars_of(dedupe_key);
                if seq_eq(&a, &b) {
                    CheckOutcome::Duplicate
                } else {
                    CheckOutcome::Change
                }
            },
            None => CheckOutcome::Change,
        },
        None => CheckOutcome::Change,
    }
}

/// The state after a recorded change at the unix time `now`: that of a
/// successful check that saw a change, with the change's fingerprint and time
/// as the last notified ones.
pub fn schedule_after_change(
    source: &SourceConfig,
    prev: Option<&ScheduleState>,
    dedupe_key: &str,
    tz: &str,
    default_cron: &str,
    now: i64,
) -> (r: ScheduleState)
    requires
        time_in_range(now as int),
    ensures
        r.source_id == source.id,
        r.next_due_at > now,
        match planned_due(schedule_expr(source.schedule.cron, default_cron@), tz@, now as int) {
            Some(d) => r.next_due_at == d,
            None => true,
        },
        r.consecutive_failures == 0,
        r.consecutive_changes == changes_after(
            true,
            match prev {
                Some(p) => Some(*p),
                None => None,
            },
        ),
        r.backoff_until is None,
        r.last_success_at == Some(now),
        r.last_error is None,
        r.last_notified_fingerprint matches Some(f) && f@ == dedupe_key@,
        r.last_notified_at == Some(now),
        !r.failure_notified,
{
    let mut s = next_schedule(source, 0, Some(now), true, prev, tz, default_cron, now);
    s.last_notified_fingerprint = Some(str_to_string(dedupe_key));
    s.last_notified_at = Some(now);
    s
}

/// A notified change is not notified again: once a change is recorded, a
/// later comparison with the same fingerprint is a suppressed duplicate, and
/// later checks keep the fingerprint.
pub proof fn law_change_notified_once(s: ScheduleState, key: Seq<char>)
    requires
        s.last_notified_fingerprint matches Some(f) && f@ == key,
    ensures
        check_outcome(true, Some(s), key) == CheckOutcome::Duplicate,
        check_outcome(false, Some(s), key) == CheckOutcome::Unchanged,
{
}

/// The state given to a source without one: due a second from `now`.
pub fn initial_schedule(source_id: String, now: i64) -> (r: ScheduleState)
    requires
        in_chrono_range(now + 1),
    ensures
        r == (ScheduleState {
            source_id,
            next_due_at: (now + 1) as i64,
            consecutive_failures: 0,
            consecutive_changes: 0,
            backoff_until: None,
            last_success_at: None,
            last_error: None,
            last_notified_fingerprint: None,
            last_notified_at: None,
            failure_notified: false,
        }),
{
    ScheduleState {
        source_id,
        next_due_at: now + 1,
        consecutive_failures: 0,
        consecutive_changes: 0,
        backoff_until: None,
        last_success_at: None,
        last_error: None,
        last_notified_fingerprint: None,
        last_notified_at: None,
        failure_notified: false,
    }
}

/// A queued notification of an event to a target: pending, no attempt yet,
/// addressed to the target's first chat (empty when it has none).
pub fn pending_notification(event_id: i64, target: &TelegramTarget, target_json: String) -> (r:
    NotificationRecord)
    ensures
        r.id == 0,
        r.event_id == event_id,
        target.chat_ids@.len() > 0 ==> r.chat_id == target.chat_ids@[0],
        target.chat_ids@.len() == 0 ==> r.chat_id@.len() == 0,
        r.target_json == target_json,
        r.message_ids_json@ == "[]"@,
        r.status@ == "pending"@,
        r.attempts == 0,
        r.next_retry_at is None,
{
    let chat_id = if target.chat_ids.len() > 0 {
        target.chat_ids[0].clone()
    } else {
        String::new()
    };
    NotificationRecord {
        id: 0,
        event_id,
        chat_id,
        target_json,
        message_ids_json: str_to_string("[]"),
        status: str_to_string("pending"),
        attempts: 0,
        next_retry_at: None,
    }
}

/// Whether the images of a change are those of the changed elements: an
/// items extraction by CSS selector with `images: changed`.
pub open spec fn wants_changed_images(extract: ExtractConfig) -> bool {
    match extract {
        ExtractConfig::Items { selector, images, .. } => (images matches Some(
            ImageSelector::Changed,
        )) && (selector is Css),
        ExtractConfig::Text { .. } => false,
    }
}

/// Decides whether the images of a change are collected from the changed
/// elements ([`wants_changed_images`]); otherwise the extraction's own images
/// are used.
pub fn uses_changed_images(extract: &ExtractConfig) -> (r: bool)
    ensures
        r == wants_changed_images(*extract),
{
    match extract {
        ExtractConfig::Items { selector, images, .. } => {
            let changed = match images {
                Some(ImageSelector::Changed) => true,
                _ => false,
            };
            let css = match selector {
                ItemSelector::Css { .. } => true,
                _ => false,
            };
            changed && css
        },
        ExtractConfig::Text { .. } => false,
    }
}

/// The images attached to a change: with [`wants_changed_images`], those of
/// the elements whose items changed (the ids of [`changed_item_ids`]),
/// collected again from the document; otherwise the extraction's own images.
pub open spec fn change_images(
    doc: FetchedDocument,
    extract: ExtractConfig,
    out_images: Seq<Seq<char>>,
    diff: DiffResult,
    old_items: Seq<Item>,
) -> Seq<Seq<char>> {
    if wants_changed_images(extract) {
        match extract {
            ExtractConfig::Items { selector, fields, .. } => changed_images(
                doc,
                selector,
                fields@,
                changed_ids(diff.new_items@, diff.old_items@, old_items, diff.new_items@.len() as int),
            ),
            ExtractConfig::Text { .. } => out_images,
        }
    } else {
        out_images
    }
}

/// Chooses the images of a change ([`change_images`]).
pub fn resolve_image_urls(
    doc: &FetchedDocument,
    extract: &ExtractConfig,
    out: &PipelineOutput,
    diff: &DiffResult,
    old_items: &[Item],
) -> (r: Vec<String>)
    requires
        match *extract {
            ExtractConfig::Items { fields, .. } => fields@.len() + 3 <= usize::MAX,
            ExtractConfig::Text { .. } => true,
        },
    ensures
        str_views(r@) == change_images(*doc, *extract, str_views(out.image_urls@), *diff, old_items@),
{
    if uses_changed_images(extract) {
        match extract {
            ExtractConfig::Items { selector, fields, .. } => {
                let ids = changed_item_ids(diff, old_items);
                proof {
                    assert(str_views(ids@) =~= ids@.map_values(|s: String| s@));
                }
                collect_changed_element_images(doc, selector, fields.as_slice(), ids.as_slice())
            },
            ExtractConfig::Text { .. } => clone_strings(&out.image_urls),
        }
    } else {
        clone_strings(&out.image_urls)
    }
}

/// Path, relative to the media directory, of an event's screenshot.
pub open spec fn screenshot_rel_path(event_id: int) -> Seq<char> {
    "screenshots/event-"@ + int_dec(event_id) + ".png"@
}

/// Where the screenshot of an event is stored, when one is kept: the fetch
/// returned one and the source is a camofox source with screenshots on.
pub fn screenshot_path(source: &SourceConfig, has_screenshot: bool, event_id: i64) -> (r: Option<
    String,
>)
    ensures
        (has_screenshot && source.fetch.engine@ == "camofox"@ && source.fetch.screenshot) ==> (r matches Some(
            p,
        ) && p@ == screenshot_rel_path(event_id as int)),
        !(has_screenshot && source.fetch.engine@ == "camofox"@ && source.fetch.screenshot) ==> r is None,
{
    let e = chars_of(source.fetch.engine.as_str());
    let cam = chars_of("camofox");
    if !has_screenshot || !seq_eq(&e, &cam) || !source.fetch.screenshot {
        return None;
    }
    let mut out = chars_of("screenshots/event-");
    let d = i64_dec(event_id);
    append_chars(&mut out, &d);
    let tail = chars_of(".png");
    append_chars(&mut out, &tail);
    Some(string_of(&out))
}

// ---------------------------------------------------------------------------
// History pruning and concurrency
// ---------------------------------------------------------------------------

/// What the periodic history clean-up does.
pub enum PrunePlan {
    /// Nothing to prune.
    Skip,
    /// Keep this many entries for every source, in one pass.
    All(usize),
    /// Keep, for each listed source (by index), this many entries.
    PerSource(Vec<(usize, usize)>),
}

/// Whether no group sets a history limit of its own.
pub open spec fn no_group_limits(tags: Seq<TagConfig>) -> bool {
    forall|j: int| 0 <= j < tags.len() ==> #[trigger] tags[j].history_limit == 0
}

/// The sources among the first `n` with a positive effective history limit,
/// with that limit.
pub open spec fn source_limits(sources: Seq<SourceConfig>, tags: Seq<TagConfig>, global: usize, n: int) -> Seq<
    (int, int),
>
    decreases n,
{
    if n <= 0 {
        seq![]
    } else {
        let prev = source_limits(sources, tags, global, n - 1);
        let h = effective_history(sources[n - 1], tags, global);
        if h > 0 {
            prev.push((n - 1, h as int))
        } else {
            prev
        }
    }
}

/// The clean-up plan: when no group sets a limit, one pass with the global
/// limit (nothing when it is 0); else each source with its effective limit.
pub fn prune_plan(sources: &[SourceConfig], tags: &[TagConfig], global_limit: usize) -> (r: PrunePlan)
    ensures
        no_group_limits(tags@) && global_limit > 0 ==> (r matches PrunePlan::All(g) && g
            == global_limit),
        no_group_limits(tags@) && global_limit == 0 ==> r is Skip,
        !no_group_limits(tags@) ==> (r matches PrunePlan::PerSource(v) && v@.len() == source_limits(
            sources@,
            tags@,
            global_limit,
            sources@.len() as int,
        ).len() && forall|j: int|
            0 <= j < v@.len() ==> (#[trigger] v@[j]).0 as int == source_limits(
                sources@,
                tags@,
                global_limit,
                sources@.len() as int,
            )[j].0 && v@[j].1 as int == source_limits(
                sources@,
                tags@,
                global_limit,
                sources@.len() as int,
            )[j].1),
{
    let mut all_zero = true;
    let mut k: usize = 0;
    while k < tags.len()
        invariant
            k <= tags.len(),
            all_zero == (forall|j: int| 0 <= j < k ==> #[trigger] tags@[j].history_limit == 0),
        decreases tags.len() - k,
    {
        if tags[k].history_limit != 0 {
            all_zero = false;
        }
        k += 1;
    }
    if all_zero {
        if global_limit > 0 {
            return PrunePlan::All(global_limit);
        } else {
            return PrunePlan::Skip;
        }
    }
    let mut out: Vec<(usize, usize)> = Vec::new();
    let mut i: usize = 0;
    while i < sources.len()
        invariant
            i <= sources.len(),
            out@.len() == source_limits(sources@, tags@, global_limit, i as int).len(),
            forall|j: int|
                0 <= j < out@.len() ==> (#[trigger] out@[j]).0 as int == source_limits(
                    sources@,
                    tags@,
                    global_limit,
                    i as int,
                )[j].0 && out@[j].1 as int == source_limits(sources@, tags@, global_limit, i as int)[j].1,
        decreases sources.len() - i,
    {
        let (_, _, h) = resolve_effective_source(&sources[i], tags, global_limit);
        if h > 0 {
            out.push((i, h));
        }
        i += 1;
    }
    PrunePlan::PerSource(out)
}

/// How the permits of the worker semaphore move toward the configured
/// concurrency.
#[derive(Debug, Clone, Copy, PartialEq, Eq, Structural)]
pub enum PermitChange {
    Keep,
    Add(usize),
    Forget(usize),
}

/// The configured concurrency, at least one.
pub open spec fn concurrency_target(setting: int) -> int {
    if setting < 1 { 1 } else { setting }
}

/// The permit change that brings `current` permits to the configured
/// concurrency.
pub fn concurrency_change(setting: usize, current: usize) -> (r: PermitChange)
    ensures
        concurrency_target(setting as int) == current ==> r == PermitChange::Keep,
        concurrency_target(setting as int) > current ==> r == PermitChange::Add(
            (concurrency_target(setting as int) - current) as usize,
        ),
        concurrency_target(setting as int) < current ==> r == PermitChange::Forget(
            (current - concurrency_target(setting as int)) as usize,
        ),
{
    let target: usize = if setting < 1 {
        1
    } else {
        setting
    };
    if target == current {
        PermitChange::Keep
    } else if target > current {
        PermitChange::Add(target - current)
    } else {
        PermitChange::Forget(current - target)
    }
}

/// The permit count after a change: the target when added, else what is left
/// after the permits that could be forgotten (some may be held by running
/// checks; the next tick continues from there).
pub fn settled_concurrency(current: usize, change: PermitChange, forgotten: usize) -> (r: usize)
    requires
        change matches PermitChange::Add(n) ==> current + n <= usize::MAX,
        change matches PermitChange::Forget(n) ==> forgotten <= n && n <= current,
    ensures
        change == PermitChange::Keep ==> r == current,
        change matches PermitChange::Add(n) ==> r == current + n,
        change matches PermitChange::Forget(n) ==> r == current - forgotten,
{
    match change {
        PermitChange::Keep => current,
        PermitChange::Add(n) => current + n,
        PermitChange::Forget(_) => current - forgotten,
    }
}

/// Number of enabled sources.
pub open spec fn enabled_count(sources: Seq<SourceConfig>) -> int
    decreases sources.len(),
{
    if sources.len() == 0 {
        0
    } else {
        enabled_count(sources.drop_last()) + if sources.last().enabled { 1int } else { 0 }
    }
}

proof fn lemma_enabled_count_bound(sources: Seq<SourceConfig>)
    ensures
        0 <= enabled_count(sources) <= sources.len(),
    decreases sources.len(),
{
    if sources.len() > 0 {
        lemma_enabled_count_bound(sources.drop_last());
    }
}

/// How many sources are enabled.
pub fn count_enabled(sources: &[SourceConfig]) -> (r: usize)
    ensures
        r == enabled_count(sources@),
{
    let mut n: usize = 0;
    let mut i: usize = 0;
    while i < sources.len()
        invariant
            i <= sources.len(),
            n == enabled_count(sources@.take(i as int)),
            n <= i,
        decreases sources.len() - i,
    {
        proof {
            assert(sources@.take(i + 1).drop_last() =~= sources@.take(i as int));
            lemma_enabled_count_bound(sources@.take(i as int));
        }
        if sources[i].enabled {
            n += 1;
        }
        i += 1;
    }
    proof {
        assert(sources@.take(sources@.len() as int) =~= sources@);
    }
    n
}

impl RuntimeConfig {
    /// Takes over saved settings: concurrency and queue capacity (at least
    /// one), failure threshold, history limit, default cron, and the zone (the
    /// machine's when the setting is blank).
    pub fn apply_settings(&mut self, settings: &EditableSettings)
        ensures
            final(self).concurrency == concurrency_target(settings.concurrency as int),
            final(self).queue_capacity == concurrency_target(settings.queue_capacity as int),
            final(self).failure_notify_threshold == settings.failure_notify_threshold,
            final(self).history_limit_per_source == settings.history_limit_per_source,
            final(self).default_cron == settings.default_cron,
            trim(settings.timezone@).len() > 0 ==> final(self).timezone == settings.timezone,
            final(self).state_dir == old(self).state_dir,
            final(self).media_dir == old(self).media_dir,
            final(self).socket_path == old(self).socket_path,
            final(self).default_timeout_secs == old(self).default_timeout_secs,
            final(self).default_user_agent == old(self).default_user_agent,
            final(self).template == old(self).template,
    {
        self.concurrency = if settings.concurrency < 1 {
            1
        } else {
            settings.concurrency
        };
        self.queue_capacity = if settings.queue_capacity < 1 {
            1
        } else {
            settings.queue_capacity
        };
        self.failure_notify_threshold = settings.failure_notify_threshold;
        self.history_limit_per_source = settings.history_limit_per_source;
        let tz = chars_of(settings.timezone.as_str());
        let t = trim_chars(&tz);
        self.timezone = if t.len() == 0 {
            crate::config::system_local_timezone()
        } else {
            settings.timezone.clone()
        };
        self.default_cron = settings.default_cron.clone();
    }
}

} // verus!
