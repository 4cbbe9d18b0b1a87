use reading_steiner::config::{
    generate_source_id, is_cjk, join_path, parse_telegram_url, resolve_effective_extract,
    resolve_effective_source, resolve_notify_target, settings_verdict, slugify, source_id_from, validate_settings, zone_or_utc,
    CamofoxConfig, Config, DaemonConfig, EditableSettings, ExtractConfig, FetchConfig,
    ImageSelector, ItemSelector, SettingsError, SourceConfig, TelegramConfig, UrlError, WebConfig,
};
use reading_steiner::cron_expr::CronError;
use reading_steiner::models::TagConfig;

fn source(tags: &[&str], follow_group: bool) -> SourceConfig {
    let mut s = SourceConfig::default();
    s.id = "s1".to_string();
    s.tags = tags.iter().map(|t| t.to_string()).collect();
    s.follow_group = follow_group;
    s
}

fn group(name: &str, history_limit: usize, notify_url: &str) -> TagConfig {
    let mut g = TagConfig::named(name.to_string());
    g.history_limit = history_limit;
    g.notify_url = notify_url.to_string();
    g
}

fn telegram() -> TelegramConfig {
    TelegramConfig {
        url: String::new(),
        api_base: "https://api.telegram.org".to_string(),
        max_images_per_event: 10,
        image_bytes_budget: 10485760,
        digest_window_secs: 30,
        template: String::new(),
        token: String::new(),
        token_file: String::new(),
        default_chat_id: String::new(),
    }
}

fn config() -> Config {
    Config {
        state_dir: "state".to_string(),
        media_dir: "state/media".to_string(),
        daemon: DaemonConfig { socket_path: String::new(), log_level: "info".to_string() },
        web: WebConfig { listen: String::new(), static_dir: String::new(), auth_token: String::new() },
        telegram: telegram(),
        camofox: CamofoxConfig {
            enabled: false,
            base_url: "http://127.0.0.1:9377".to_string(),
            access_key_file: String::new(),
            api_key_file: String::new(),
            user_id: String::new(),
            session_key: String::new(),
            health_check_interval_secs: 30,
            pool_size: 1,
        },
    }
}

#[test]
fn tgram_urls_parse_into_token_and_chats() {
    let t = parse_telegram_url("tgram://bottoken/ChatID1/ChatID2").unwrap();
    assert_eq!(t.token, "bottoken");
    assert_eq!(t.chat_ids, vec!["ChatID1", "ChatID2"]);
    let t = parse_telegram_url("  tgram://tok/ a //b/ ").unwrap();
    assert_eq!(t.token, "tok");
    assert_eq!(t.chat_ids, vec!["a", "b"]);
}

#[test]
fn tgram_url_errors() {
    assert!(matches!(parse_telegram_url("   "), Err(UrlError::Empty)));
    assert!(matches!(parse_telegram_url("https://x/y"), Err(UrlError::NotTgram)));
    assert!(matches!(parse_telegram_url("tgram:// /chat"), Err(UrlError::MissingToken)));
    assert!(matches!(parse_telegram_url("tgram://tok"), Err(UrlError::MissingChatId)));
    assert!(matches!(parse_telegram_url("tgram://tok/ / "), Err(UrlError::MissingChatId)));
}

#[test]
fn slugs_keep_letters_digits_and_cjk() {
    assert_eq!(slugify("My Blog"), "my-blog");
    assert_eq!(slugify("  Hello__World -- 2 "), "hello-world-2");
    assert_eq!(slugify("新闻 Feed!"), "新闻-feed");
    assert_eq!(slugify("!!!"), "");
    assert!(is_cjk('中'));
    assert!(is_cjk('ア'));
    assert!(is_cjk('한'));
    assert!(!is_cjk('a'));
}

#[test]
fn source_ids_from_name_host_or_fallback() {
    assert_eq!(source_id_from("My Blog", None, 0xabcdef12), "my-blog-cdef12");
    assert_eq!(source_id_from("  ", Some("news.example.com"), 0x1), "newsexamplecom-000001");
    assert_eq!(source_id_from("", None, 0xff), "source-0000ff");
}

#[test]
fn generated_ids_end_with_six_hex_digits() {
    let id = generate_source_id("", " https://Example.com/feed ", 7);
    assert!(id.starts_with("examplecom-"), "{id}");
    let suffix = &id["examplecom-".len()..];
    assert_eq!(suffix.len(), 6);
    assert!(suffix.chars().all(|c| c.is_ascii_hexdigit() && !c.is_ascii_uppercase()));
    assert!(generate_source_id("", "not a url", 1).starts_with("source-"));
}

#[test]
fn history_limit_is_the_strictest_group_limit() {
    let groups = vec![group("a", 5, ""), group("b", 3, ""), group("c", 0, "")];
    assert_eq!(resolve_effective_source(&source(&["a", "b"], true), &groups, 100), (true, true, 3));
    assert_eq!(resolve_effective_source(&source(&["c"], true), &groups, 100), (true, true, 100));
    assert_eq!(resolve_effective_source(&source(&["a"], false), &groups, 100), (true, true, 100));
    assert_eq!(resolve_effective_source(&source(&[], true), &groups, 7), (true, true, 7));
}

#[test]
fn group_target_wins_over_global() {
    let groups = vec![group("b", 0, "tgram://tb/cb"), group("a", 0, "tgram://ta/ca")];
    let t = resolve_notify_target(&source(&["a", "b"], true), &groups, "tgram://g/cg").unwrap();
    assert_eq!(t.token, "ta");
    let t = resolve_notify_target(&source(&["a"], false), &groups, "tgram://g/cg").unwrap();
    assert_eq!(t.token, "g");
    assert!(resolve_notify_target(&source(&["x"], true), &groups, "").is_none());
}

#[test]
fn group_extract_replaces_the_source_extract() {
    let mut g = group("shop", 0, "");
    g.extract = Some(ExtractConfig::Items {
        selector: ItemSelector::Css { selector: ".product".to_string() },
        fields: vec![],
        dedupe_key: None,
        images: Some(ImageSelector::Changed),
    });
    let groups = vec![g];
    match resolve_effective_extract(&source(&["shop"], true), &groups) {
        ExtractConfig::Items { selector: ItemSelector::Css { selector }, .. } => {
            assert_eq!(selector, ".product")
        }
        _ => panic!("the group's extraction applies"),
    }
    assert!(matches!(
        resolve_effective_extract(&source(&["shop"], false), &groups),
        ExtractConfig::Text { images: None }
    ));
}

#[test]
fn defaults_of_sources_and_settings() {
    let f = FetchConfig::default();
    assert_eq!(f.engine, "http");
    assert_eq!(f.method, "GET");
    assert_eq!(f.max_body_bytes, 5 * 1024 * 1024);
    assert_eq!(f.timeout_secs, 30);
    assert_eq!(f.tab_policy, "reuse");
    let s = SourceConfig::default();
    assert!(s.enabled && s.notify_enabled && s.follow_group);
    assert!(s.schedule.cron.is_none());
    let e = EditableSettings::default();
    assert_eq!(e.concurrency, 16);
    assert_eq!(e.queue_capacity, 1024);
    assert_eq!(e.default_cron, "0 * * * *");
    assert_eq!(e.max_images_per_event, 10);
    assert!(!e.timezone.is_empty());
    assert_eq!(validate_settings(&e), Ok(()));
}

#[test]
fn settings_refusals() {
    let mut e = EditableSettings::default();
    e.concurrency = 0;
    assert_eq!(validate_settings(&e), Err(SettingsError::ZeroConcurrency));
    let mut e = EditableSettings::default();
    e.queue_capacity = 0;
    assert_eq!(validate_settings(&e), Err(SettingsError::ZeroQueueCapacity));
    let mut e = EditableSettings::default();
    e.default_timeout_secs = 0;
    assert_eq!(validate_settings(&e), Err(SettingsError::ZeroTimeout));
    let mut e = EditableSettings::default();
    e.default_cron = "0 9 * *".to_string();
    assert_eq!(validate_settings(&e), Err(SettingsError::InvalidCron(CronError::Arity { found: 4 })));
    let mut e = EditableSettings::default();
    e.timezone = "Mars/Base".to_string();
    assert_eq!(validate_settings(&e), Err(SettingsError::InvalidTimezone));
    let mut e = EditableSettings::default();
    e.telegram_url = "tgram://tok".to_string();
    assert_eq!(validate_settings(&e), Err(SettingsError::InvalidTelegramUrl(UrlError::MissingChatId)));
}

#[test]
fn boot_paths_and_fallbacks() {
    let cfg = config();
    assert_eq!(cfg.socket_path(), "state/daemon.sock");
    assert_eq!(cfg.web.effective_listen(), "127.0.0.1:8901");
    assert_eq!(cfg.web.static_dir(), "web/dist");
    assert!(cfg.telegram.event_template().contains("{summary}"));
    assert_eq!(join_path("state", "backups"), "state/backups");
    assert_eq!(join_path("state/", "x"), "state/x");
    assert_eq!(join_path("state", "/abs"), "/abs");
    assert_eq!(join_path("", "x"), "x");
}

#[test]
fn zone_or_utc_keeps_found_zone_and_falls_back_to_utc() {
    assert_eq!(zone_or_utc(Some("Asia/Tokyo".to_string())), "Asia/Tokyo");
    assert_eq!(zone_or_utc(None), "UTC");
}

#[test]
fn settings_verdict_accepts_the_machine_zone_name_only() {
    let mut e = EditableSettings::default();
    e.timezone = "Mars/Base".to_string();
    assert_eq!(settings_verdict(&e, "Mars/Base"), Ok(()));
    assert_eq!(settings_verdict(&e, "UTC"), Err(SettingsError::InvalidTimezone));
    e.timezone = "Asia/Tokyo".to_string();
    assert_eq!(settings_verdict(&e, "UTC"), Ok(()));
    e.timezone = "   ".to_string();
    assert_eq!(settings_verdict(&e, "UTC"), Ok(()));
}
