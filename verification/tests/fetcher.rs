use reading_steiner::config::{
    CamofoxConfig, Config, DaemonConfig, EditableSettings, FetchConfig, TelegramConfig, WebConfig,
};
use reading_steiner::fetcher::{
    at_least_one, body_limit, camofox_base, camofox_document, charset_from_content_type,
    classify_status, close_tab_path, closes_tab, create_fetcher, decode_body, engine_name,
    evaluated_text, evaluation_text, fetch_retry_wait, http_document, next_snapshot_offset, not_modified_document,
    pick_bearer, screenshot_bytes, snapshot_path, sort_dedup_images, tab_query_path, take_chunk, urlencoding,
    FetchError, FetcherChoice, StatusClass, SNAPSHOT_LIMIT,
};
use reading_steiner::models::ImageRef;
use reading_steiner::pipeline::{JsonKind, JsonValue};

fn config(camofox: bool) -> Config {
    Config {
        state_dir: "state".to_string(),
        media_dir: "media".to_string(),
        daemon: DaemonConfig { socket_path: String::new(), log_level: String::new() },
        web: WebConfig { listen: String::new(), static_dir: String::new(), auth_token: String::new() },
        telegram: TelegramConfig {
            url: String::new(),
            api_base: String::new(),
            max_images_per_event: 10,
            image_bytes_budget: 0,
            digest_window_secs: 0,
            template: String::new(),
            token: String::new(),
            token_file: String::new(),
            default_chat_id: String::new(),
        },
        camofox: CamofoxConfig {
            enabled: camofox,
            base_url: "http://127.0.0.1:9377/".to_string(),
            access_key_file: String::new(),
            api_key_file: String::new(),
            user_id: String::new(),
            session_key: String::new(),
            health_check_interval_secs: 0,
            pool_size: 1,
        },
    }
}

fn img(url: &str, alt: &str) -> ImageRef {
    ImageRef { canonical_url: url.to_string(), alt: alt.to_string(), width: None, height: None }
}

#[test]
fn fetchers_by_engine() {
    let mut settings = EditableSettings::default();
    settings.default_user_agent = "  ".to_string();
    settings.default_timeout_secs = 12;
    match create_fetcher("http", &config(false), &settings).unwrap() {
        FetcherChoice::Http { user_agent, timeout_secs } => {
            assert!(user_agent.starts_with("Mozilla/5.0"));
            assert_eq!(timeout_secs, 12);
        }
        _ => panic!("http fetcher expected"),
    }
    assert_eq!(create_fetcher("camofox", &config(true), &settings), Ok(FetcherChoice::Camofox));
    assert_eq!(create_fetcher("camofox", &config(false), &settings), Err(FetchError::CamofoxDisabled));
    assert_eq!(
        create_fetcher("gopher", &config(true), &settings),
        Err(FetchError::UnknownEngine("gopher".to_string()))
    );
    let mut f = FetchConfig::default();
    f.engine = String::new();
    assert_eq!(engine_name(&f), "http");
}

#[test]
fn bodies_are_bounded() {
    assert_eq!(at_least_one(0), 1);
    assert_eq!(at_least_one(9), 9);
    assert_eq!(body_limit(10), 1024);
    assert_eq!(body_limit(4096), 4096);
    assert_eq!(take_chunk(900, 100, 1024), (100, false));
    assert_eq!(take_chunk(1000, 100, 1024), (24, true));
    assert_eq!(take_chunk(1024, 1, 1024), (0, true));
}

#[test]
fn statuses() {
    assert_eq!(classify_status(304), StatusClass::NotModified);
    assert_eq!(classify_status(200), StatusClass::Success);
    assert_eq!(classify_status(299), StatusClass::Success);
    assert_eq!(classify_status(404), StatusClass::Failure);
    assert_eq!(classify_status(301), StatusClass::Failure);
}

#[test]
fn charsets_and_decoding() {
    assert_eq!(charset_from_content_type(Some("text/html; Charset=x; charset=\"GBK\"")), Some("gbk".to_string()));
    assert_eq!(charset_from_content_type(Some("text/html")), None);
    assert_eq!(charset_from_content_type(None), None);
    let gbk: [u8; 4] = [0xc4, 0xe3, 0xba, 0xc3];
    assert_eq!(decode_body(&gbk, Some("gbk")), "你好");
    assert_eq!(decode_body("héllo".as_bytes(), None), "héllo");
    assert_eq!(decode_body(&[0x66, 0xff], Some("utf-8")), "f\u{fffd}");
    assert_eq!(decode_body("ok".as_bytes(), Some("no-such-charset")), "ok");
}

#[test]
fn documents_of_answers() {
    let d = not_modified_document("u".to_string(), Some("e".to_string()), None, None, 5);
    assert!(d.not_modified);
    assert_eq!(d.status, 304);
    assert!(d.text.is_empty());
    let d = http_document(
        "u".to_string(),
        200,
        "hello".as_bytes(),
        None,
        None,
        Some("text/plain; charset=utf-8".to_string()),
        7,
    );
    assert_eq!(d.text, "hello");
    assert_eq!(d.content_sha256, blake3::hash(b"hello").to_hex().to_string());
    assert_eq!(d.normalized_fingerprint, d.content_sha256);
    assert_eq!(d.engine, "http");
    let c = camofox_document("u".to_string(), "t".to_string(), &[img("b", "1"), img("a", "2"), img("b", "3")], None, 1);
    assert_eq!(c.engine, "camofox");
    let urls: Vec<&str> = c.images.iter().map(|i| i.canonical_url.as_str()).collect();
    assert_eq!(urls, vec!["a", "b"]);
    assert_eq!(c.images[1].alt, "1");
}

#[test]
fn retry_waits() {
    assert_eq!(fetch_retry_wait(true, 1), Some(100));
    assert_eq!(fetch_retry_wait(true, 2), Some(200));
    assert_eq!(fetch_retry_wait(true, 3), Some(400));
    assert_eq!(fetch_retry_wait(true, 4), None);
    assert_eq!(fetch_retry_wait(false, 1), None);
}

#[test]
fn camofox_requests() {
    assert_eq!(urlencoding("a b&c/é"), "a%20b%26c%2F%C3%A9");
    assert_eq!(camofox_base("http://h:1//"), "http://h:1");
    assert_eq!(snapshot_path("t1", "u 1", 40), "/tabs/t1/snapshot?userId=u%201&format=text&offset=40");
    assert_eq!(tab_query_path("t1", "images", "u"), "/tabs/t1/images?userId=u");
    assert_eq!(close_tab_path("t1", "u"), "/tabs/t1?userId=u");
    assert_eq!(next_snapshot_offset(true, Some(10), 5), Some(10));
    assert_eq!(next_snapshot_offset(false, Some(10), 5), None);
    assert_eq!(next_snapshot_offset(true, None, 5), None);
    assert_eq!(next_snapshot_offset(true, Some(10), SNAPSHOT_LIMIT + 1), None);
    assert!(closes_tab("per_check"));
    assert!(!closes_tab("reuse"));
    assert_eq!(pick_bearer(Some("  "), Some(" k2 ")), Some("k2".to_string()));
    assert_eq!(pick_bearer(Some(" k1\n"), Some("k2")), Some("k1".to_string()));
    assert_eq!(pick_bearer(None, None), None);
    let s = JsonValue { kind: JsonKind::Str("x".to_string()), text: "\"x\"".to_string() };
    assert_eq!(evaluated_text(&s), "x");
    let n = JsonValue { kind: JsonKind::Number, text: "42".to_string() };
    assert_eq!(evaluated_text(&n), "42");
    assert_eq!(evaluation_text("\"x\""), "x");
    assert_eq!(evaluation_text("{\"b\":1,\"a\":[true,null]}"), "{\"a\":[true,null],\"b\":1}");
    assert_eq!(evaluation_text("42"), "42");
    assert_eq!(evaluation_text("not json"), "not json");
    assert_eq!(sort_dedup_images(&[img("z", ""), img("z", ""), img("y", "")]).len(), 2);
}

#[test]
fn screenshot_bytes_decodes_base64() {
    assert_eq!(screenshot_bytes("aGk="), Some(b"hi".to_vec()));
    assert_eq!(screenshot_bytes("not base64!"), None);
}
