use chrono::TimeZone;
use chrono::Utc;
use reading_steiner::config::TelegramConfig;
use reading_steiner::models::{MediaCacheEntry, NotificationTarget, TelegramTarget};
use reading_steiner::notifier::{
    api_base, build_target_from_record, event_delivery, failure_message_at, html_escape,
    outbox_step, retry_in_range, DeliveryOutcome, OutboxAction,
    plan_media_group, plan_photo, plan_retry, render_failure_message, render_template,
    resolve_global_target, resolve_global_token, resolve_target_token, test_chat, Delivery,
    MediaSource, NotifyError,
};

fn telegram(url: &str, token: &str, chat: &str) -> TelegramConfig {
    TelegramConfig {
        url: url.to_string(),
        api_base: String::new(),
        max_images_per_event: 10,
        image_bytes_budget: 0,
        digest_window_secs: 30,
        template: String::new(),
        token: token.to_string(),
        token_file: String::new(),
        default_chat_id: chat.to_string(),
    }
}

fn target(token: &str, chats: &[&str]) -> TelegramTarget {
    TelegramTarget { token: token.to_string(), chat_ids: chats.iter().map(|c| c.to_string()).collect() }
}

fn entry(sha: &str, file_id: Option<&str>) -> MediaCacheEntry {
    MediaCacheEntry {
        canonical_url: format!("https://example.com/{sha}.jpg"),
        sha256: sha.to_string(),
        mime: "image/jpeg".to_string(),
        size: 10,
        file_path: format!("{sha}.jpg"),
        telegram_file_id: file_id.map(|s| s.to_string()),
        phash: None,
        fetched_at: 0,
    }
}

#[test]
fn html_is_escaped_ampersand_first() {
    assert_eq!(html_escape("a < b && c > d"), "a &lt; b &amp;&amp; c &gt; d");
    assert_eq!(html_escape("&lt;"), "&amp;lt;");
    assert_eq!(html_escape("plain"), "plain");
}

#[test]
fn templates_are_filled_pair_by_pair() {
    let r = render_template("{a} and {b}", &[("{a}", "x{b}"), ("{b}", "y")]);
    assert_eq!(r, "xy and y");
    assert_eq!(render_template("ab", &[("", "-")]), "-a-b-");
    assert_eq!(render_template("none", &[("{a}", "x")]), "none");
}

#[test]
fn retries_wait_longer_then_give_up() {
    let p = plan_retry(0, 1000);
    assert_eq!(p.attempts, 1);
    assert_eq!(p.next_retry_at, Some(1030));
    assert!(!p.give_up);
    let p = plan_retry(3, 1000);
    assert_eq!(p.next_retry_at, Some(1120));
    let p = plan_retry(4, 1000);
    assert_eq!(p.attempts, 5);
    assert_eq!(p.next_retry_at, None);
    assert!(p.give_up);
}

#[test]
fn global_token_and_target() {
    let cfg = telegram("tgram://tok/c1/c2", "", "");
    assert_eq!(resolve_global_token(&cfg, None).unwrap(), "tok");
    let t = resolve_global_target(&cfg, None).unwrap();
    assert_eq!(t.chat_ids, vec!["c1", "c2"]);
    let legacy = telegram("", "", "42");
    assert_eq!(resolve_global_token(&legacy, Some(" filetok \n")).unwrap(), "filetok");
    let t = resolve_global_target(&legacy, Some("filetok")).unwrap();
    assert_eq!(t.token, "filetok");
    assert_eq!(t.chat_ids, vec!["42"]);
    let none = telegram("", "", "");
    assert_eq!(resolve_global_token(&none, None), Err(NotifyError::NoToken));
    assert!(resolve_global_target(&none, None).is_none());
    assert_eq!(NotifyError::NoToken.message(), "telegram url/token or token_file is required");
}

#[test]
fn target_token_falls_back_to_global() {
    let cfg = telegram("tgram://gtok/c", "", "");
    assert_eq!(resolve_target_token(&cfg, &target("own", &["c"]), None).unwrap(), "own");
    assert_eq!(resolve_target_token(&cfg, &target("", &["c"]), None).unwrap(), "gtok");
}

#[test]
fn record_targets_prefer_their_own_settings() {
    let global = Some(target("g", &["gc"]));
    let rec = Some(NotificationTarget { token: "r".to_string(), chat_ids: vec!["rc".to_string()] });
    let t = build_target_from_record(rec, global.clone(), None).unwrap();
    assert_eq!((t.token.as_str(), t.chat_ids.clone()), ("r", vec!["rc".to_string()]));
    let rec = Some(NotificationTarget { token: String::new(), chat_ids: vec!["rc".to_string()] });
    let t = build_target_from_record(rec, global.clone(), Some("over")).unwrap();
    assert_eq!(t.token, "g");
    assert_eq!(t.chat_ids, vec!["over"]);
    let t = build_target_from_record(None, global, None).unwrap();
    assert_eq!(t.chat_ids, vec!["gc"]);
    assert!(build_target_from_record(None, None, Some("c")).is_none());
}

#[test]
fn test_messages_go_to_the_asked_or_first_chat() {
    let t = target("tok", &["a", "b"]);
    assert_eq!(test_chat(&t, Some("z")), Some("z".to_string()));
    assert_eq!(test_chat(&t, None), Some("a".to_string()));
    assert_eq!(test_chat(&target("tok", &[]), None), None);
}

#[test]
fn api_base_defaults_to_telegram() {
    assert_eq!(api_base(&telegram("", "", "")), "https://api.telegram.org");
    let mut cfg = telegram("", "", "");
    cfg.api_base = "http://local:8081".to_string();
    assert_eq!(api_base(&cfg), "http://local:8081");
}

#[test]
fn delivery_depends_on_image_count() {
    assert_eq!(event_delivery(0, 10), (0, Delivery::Text));
    assert_eq!(event_delivery(1, 10), (1, Delivery::Photo));
    assert_eq!(event_delivery(25, 10), (10, Delivery::Album));
    assert_eq!(event_delivery(3, 0), (1, Delivery::Photo));
}

#[test]
fn media_groups_skip_missing_files_and_caption_the_first() {
    let entries = vec![entry("aa", None), entry("bb", Some("fid")), entry("cc", None)];
    let slots = plan_media_group(&entries, &[false, false, true]);
    assert_eq!(slots.len(), 2);
    assert_eq!(slots[0].entry, 1);
    assert!(matches!(&slots[0].source, MediaSource::FileId(f) if f == "fid"));
    assert!(slots[0].caption);
    assert_eq!(slots[1].entry, 2);
    assert!(matches!(&slots[1].source, MediaSource::Upload(n) if n == "photo_cc"));
    assert!(!slots[1].caption);
    assert!(plan_photo(&entry("dd", None), false).is_none());
    assert!(matches!(plan_photo(&entry("dd", None), true), Some(MediaSource::Upload(n)) if n == "photo_dd"));
}

#[test]
fn failure_alerts_name_source_count_and_error() {
    let t = Utc.with_ymd_and_hms(2026, 1, 1, 0, 0, 0).unwrap().timestamp();
    let m = failure_message_at("src<1>", 3, 3, "timeout & co", "Asia/Shanghai", t);
    assert!(m.contains("src&lt;1&gt;"));
    assert!(m.contains("已连续失败 3 次（阈值 3）"));
    assert!(m.contains("timeout &amp; co"));
    assert!(m.contains("2026-01-01 08:00:00"));
    let now = render_failure_message("s", 1, 1, "e", "UTC");
    assert!(now.contains("<b>s</b>"));
}

#[test]
fn outbox_step_fails_sends_or_retries() {
    assert!(matches!(outbox_step(DeliveryOutcome::EventMissing, 0, 1_000), OutboxAction::Fail));
    assert!(matches!(outbox_step(DeliveryOutcome::TargetMissing, 2, 1_000), OutboxAction::Fail));
    assert!(matches!(outbox_step(DeliveryOutcome::Sent, 0, 1_000), OutboxAction::Sent));
    match outbox_step(DeliveryOutcome::SendFailed, 1, 1_000) {
        OutboxAction::Retry(p) => {
            assert_eq!(p.attempts, 2);
            assert_eq!(p.next_retry_at, Some(1_060));
            assert!(!p.give_up);
        }
        _ => panic!("a failed send is retried"),
    }
    match outbox_step(DeliveryOutcome::SendFailed, 4, 1_000) {
        OutboxAction::Retry(p) => {
            assert_eq!(p.attempts, 5);
            assert_eq!(p.next_retry_at, None);
            assert!(p.give_up);
        }
        _ => panic!("a failed send is retried"),
    }
}

#[test]
fn retry_in_range_guards_the_count_and_the_clock() {
    assert!(retry_in_range(0, 1_000));
    assert!(!retry_in_range(i32::MAX, 1_000));
    assert!(!retry_in_range(0, i64::MAX));
}
