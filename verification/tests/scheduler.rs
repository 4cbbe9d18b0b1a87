use chrono::TimeZone;
use chrono::Utc;
use reading_steiner::config::{
    EditableSettings, ExtractConfig, ImageSelector, ItemSelector, RuntimeConfig, SourceConfig,
};
use reading_steiner::models::{DiffResult, Field, Item, ScheduleState, TagConfig, TelegramTarget};
use reading_steiner::scheduler::{
    changed_item_ids, classify_change, collect_due_sources, concurrency_change, count_enabled,
    initial_schedule, mark_failure_notified, next_schedule, pending_notification, prune_plan,
    record_failure_step, schedule_after_change, screenshot_path, settled_concurrency,
    due_or_retry, uses_changed_images, CheckOutcome, PermitChange, PrunePlan,
};
use reading_steiner::cron_expr::CronError;

fn ts(y: i32, mo: u32, d: u32, h: u32, mi: u32) -> i64 {
    Utc.with_ymd_and_hms(y, mo, d, h, mi, 0).unwrap().timestamp()
}

fn source(id: &str, cron: Option<&str>) -> SourceConfig {
    let mut s = SourceConfig::default();
    s.id = id.to_string();
    s.schedule.cron = cron.map(|c| c.to_string());
    s
}

fn state(id: &str, next_due_at: i64) -> ScheduleState {
    ScheduleState {
        source_id: id.to_string(),
        next_due_at,
        consecutive_failures: 0,
        consecutive_changes: 0,
        backoff_until: None,
        last_success_at: None,
        last_error: None,
        last_notified_fingerprint: None,
        last_notified_at: None,
        failure_notified: false,
    }
}

fn item(id: &str, title: &str) -> Item {
    Item {
        stable_id: id.to_string(),
        fields: vec![Field { name: "title".to_string(), value: title.to_string() }],
        image_urls: vec![],
        text: String::new(),
    }
}

#[test]
fn next_check_follows_the_source_cron() {
    let now = ts(2026, 1, 1, 9, 10);
    let s = next_schedule(&source("a", Some("*/15 * * * *")), 0, Some(now), false, None, "UTC", "", now);
    assert_eq!(s.next_due_at, ts(2026, 1, 1, 9, 15));
    assert_eq!(s.consecutive_changes, 0);
    assert_eq!(s.last_success_at, Some(now));
    let d = next_schedule(&source("a", Some("  ")), 0, None, true, None, "UTC", "0 12 * * *", now);
    assert_eq!(d.next_due_at, ts(2026, 1, 1, 12, 0));
    assert_eq!(d.consecutive_changes, 1);
    let h = next_schedule(&source("a", None), 0, None, false, None, "UTC", "", now);
    assert_eq!(h.next_due_at, ts(2026, 1, 1, 10, 0));
    let bad = next_schedule(&source("a", Some("bad")), 0, None, false, None, "UTC", "", now);
    assert_eq!(bad.next_due_at, now + 60);
}

#[test]
fn failures_back_off_and_alert_once() {
    let now = 1_000_000;
    let mut s = state("a", now);
    let mut alerts = 0;
    for k in 1..=6u32 {
        let out = record_failure_step(&s, "boom", 3, now);
        assert_eq!(out.state.consecutive_failures, k);
        assert_eq!(out.state.last_error.as_deref(), Some("boom"));
        assert_eq!(out.state.next_due_at, now + 1);
        let factor: i64 = 1 << k.min(5);
        assert_eq!(out.state.backoff_until, Some(now + 30 * factor));
        s = out.state;
        if out.alert {
            alerts += 1;
            assert_eq!(k, 3);
            mark_failure_notified(&mut s);
            assert!(s.failure_notified);
        }
    }
    assert_eq!(alerts, 1);
    let cleared = next_schedule(&source("a", None), 0, Some(now), false, Some(&s), "UTC", "", now);
    assert!(!cleared.failure_notified);
    assert_eq!(cleared.consecutive_failures, 0);
    assert!(cleared.backoff_until.is_none());
    let off = record_failure_step(&state("a", now), "e", 0, now);
    assert!(!off.alert);
}

#[test]
fn due_sources_skip_disabled_and_backed_off_and_respect_capacity() {
    let now = 5000;
    let mut disabled = source("d", None);
    disabled.enabled = false;
    let sources = vec![source("a", None), disabled, source("b", None), source("c", None), source("e", None)];
    let mut b = state("b", now - 10);
    b.backoff_until = Some(now + 100);
    let states = vec![state("a", now), b, state("c", now + 1)];
    assert_eq!(collect_due_sources(&sources, &states, now, 10), vec![0, 4]);
    assert_eq!(collect_due_sources(&sources, &states, now, 1), vec![0]);
    assert_eq!(collect_due_sources(&sources, &states, now, 0), vec![0]);
}

#[test]
fn changes_and_duplicates() {
    let mut prev = state("a", 0);
    assert_eq!(classify_change(false, Some(&prev), "k"), CheckOutcome::Unchanged);
    assert_eq!(classify_change(true, Some(&prev), "k"), CheckOutcome::Change);
    prev.last_notified_fingerprint = Some("k".to_string());
    assert_eq!(classify_change(true, Some(&prev), "k"), CheckOutcome::Duplicate);
    assert_eq!(classify_change(true, None, "k"), CheckOutcome::Change);
    let now = ts(2026, 1, 1, 0, 0);
    let after = schedule_after_change(&source("a", None), Some(&prev), "k2", "UTC", "", now);
    assert_eq!(after.last_notified_fingerprint.as_deref(), Some("k2"));
    assert_eq!(after.last_notified_at, Some(now));
    assert_eq!(after.consecutive_changes, 1);
    assert_eq!(after.next_due_at, ts(2026, 1, 1, 1, 0));
}

#[test]
fn changed_ids_are_new_or_updated_items() {
    let old_items = vec![item("a", "A"), item("b", "B")];
    let new_items = vec![item("a", "A2"), item("b", "B"), item("c", "C")];
    let diff = DiffResult {
        changed: true,
        change_type: None,
        diff_summary: String::new(),
        fingerprint: String::new(),
        old_items: old_items.clone(),
        new_items: new_items.clone(),
        dedupe_key: String::new(),
    };
    assert_eq!(changed_item_ids(&diff, &old_items), vec!["a", "c"]);
}

#[test]
fn bookkeeping_records() {
    let s = initial_schedule("x".to_string(), 100);
    assert_eq!(s.next_due_at, 101);
    assert_eq!(s.consecutive_failures, 0);
    let t = TelegramTarget { token: "t".to_string(), chat_ids: vec!["c1".to_string(), "c2".to_string()] };
    let n = pending_notification(9, &t, "{}".to_string());
    assert_eq!(n.event_id, 9);
    assert_eq!(n.chat_id, "c1");
    assert_eq!(n.status, "pending");
    assert_eq!(n.message_ids_json, "[]");
    assert_eq!(n.attempts, 0);
}

#[test]
fn screenshots_only_for_camofox_sources_that_ask() {
    let mut s = source("a", None);
    assert_eq!(screenshot_path(&s, true, 7), None);
    s.fetch.engine = "camofox".to_string();
    s.fetch.screenshot = true;
    assert_eq!(screenshot_path(&s, true, 7), Some("screenshots/event-7.png".to_string()));
    assert_eq!(screenshot_path(&s, false, 7), None);
}

#[test]
fn changed_image_mode() {
    let changed = ExtractConfig::Items {
        selector: ItemSelector::Css { selector: ".i".to_string() },
        fields: vec![],
        dedupe_key: None,
        images: Some(ImageSelector::Changed),
    };
    assert!(uses_changed_images(&changed));
    assert!(!uses_changed_images(&ExtractConfig::Text { images: Some(ImageSelector::Changed) }));
}

#[test]
fn pruning_plans() {
    let sources = vec![source("a", None), source("b", None)];
    assert!(matches!(prune_plan(&sources, &[], 0), PrunePlan::Skip));
    assert!(matches!(prune_plan(&sources, &[], 5), PrunePlan::All(5)));
    let mut g = TagConfig::named("g".to_string());
    g.history_limit = 2;
    let mut tagged = source("a", None);
    tagged.tags = vec!["g".to_string()];
    let sources = vec![tagged, source("b", None)];
    match prune_plan(&sources, &[g], 5) {
        PrunePlan::PerSource(v) => assert_eq!(v, vec![(0, 2), (1, 5)]),
        _ => panic!("per-source plan expected"),
    }
}

#[test]
fn concurrency_permits_follow_the_setting() {
    assert_eq!(concurrency_change(16, 16), PermitChange::Keep);
    assert_eq!(concurrency_change(20, 16), PermitChange::Add(4));
    assert_eq!(concurrency_change(4, 16), PermitChange::Forget(12));
    assert_eq!(concurrency_change(0, 1), PermitChange::Keep);
    assert_eq!(settled_concurrency(16, PermitChange::Forget(12), 10), 6);
    assert_eq!(settled_concurrency(16, PermitChange::Add(4), 0), 20);
    let mut off = source("x", None);
    off.enabled = false;
    assert_eq!(count_enabled(&[source("a", None), off]), 1);
}

#[test]
fn settings_apply_at_once() {
    let mut rt = RuntimeConfig {
        state_dir: "state".to_string(),
        media_dir: "media".to_string(),
        socket_path: "sock".to_string(),
        concurrency: 16,
        queue_capacity: 1024,
        default_timeout_secs: 30,
        default_cron: "0 * * * *".to_string(),
        default_user_agent: "ua".to_string(),
        history_limit_per_source: 0,
        failure_notify_threshold: 0,
        timezone: "UTC".to_string(),
        template: String::new(),
    };
    let mut e = EditableSettings::default();
    e.concurrency = 0;
    e.queue_capacity = 8;
    e.failure_notify_threshold = 3;
    e.timezone = "Asia/Tokyo".to_string();
    rt.apply_settings(&e);
    assert_eq!(rt.concurrency, 1);
    assert_eq!(rt.queue_capacity, 8);
    assert_eq!(rt.failure_notify_threshold, 3);
    assert_eq!(rt.timezone, "Asia/Tokyo");
    assert_eq!(rt.state_dir, "state");
}

#[test]
fn due_or_retry_keeps_trigger_or_retries_in_a_minute() {
    assert_eq!(due_or_retry(Ok(5_000), 1_000), 5_000);
    assert_eq!(due_or_retry(Err(CronError::NoUpcoming), 1_000), 1_060);
    assert_eq!(due_or_retry(Err(CronError::Rejected), 1_000), 1_060);
}
