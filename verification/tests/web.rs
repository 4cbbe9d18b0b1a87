use reading_steiner::error::{api_status, is_not_found, is_retryable, Error, IoKind};
use reading_steiner::web::{constant_time_eq, is_authorized, screenshot_mime};

#[test]
fn constant_time_comparison_is_plain_equality() {
    assert!(constant_time_eq(b"secret", b"secret"));
    assert!(!constant_time_eq(b"secret", b"secreT"));
    assert!(!constant_time_eq(b"secret", b"secret!"));
    assert!(constant_time_eq(b"", b""));
}

#[test]
fn bearer_tokens_guard_the_api() {
    assert!(is_authorized("", None));
    assert!(is_authorized("   ", Some("Bearer nope")));
    assert!(is_authorized(" tok ", Some("Bearer  tok ")));
    assert!(!is_authorized("tok", Some("Bearer other")));
    assert!(!is_authorized("tok", Some("Basic tok")));
    assert!(!is_authorized("tok", None));
}

#[test]
fn screenshot_types_by_extension() {
    assert_eq!(screenshot_mime("screenshots/event-1.jpg"), "image/jpeg");
    assert_eq!(screenshot_mime("a.jpeg"), "image/jpeg");
    assert_eq!(screenshot_mime("a.webp"), "image/webp");
    assert_eq!(screenshot_mime("a.png"), "image/png");
    assert_eq!(screenshot_mime("noext"), "image/png");
}

#[test]
fn errors_map_to_statuses() {
    assert_eq!(api_status(&Error::Config("bad".to_string())), 400);
    assert_eq!(api_status(&Error::Other("x".to_string())), 400);
    assert_eq!(api_status(&Error::Control("x".to_string())), 400);
    let missing = Error::Io { kind: IoKind::NotFound, message: "gone".to_string() };
    assert!(is_not_found(&missing));
    assert_eq!(api_status(&missing), 404);
    let io = Error::Io { kind: IoKind::Other, message: "disk".to_string() };
    assert!(!is_not_found(&io));
    assert_eq!(api_status(&io), 500);
    assert_eq!(api_status(&Error::Db("locked".to_string())), 500);
    assert_eq!(missing.to_string(), "gone");
}

#[test]
fn only_transport_failures_are_retried() {
    assert!(is_retryable(&Error::Http("reset".to_string())));
    assert!(is_retryable(&Error::Other("x".to_string())));
    assert!(!is_retryable(&Error::Config("x".to_string())));
    assert!(!is_retryable(&Error::Parse("x".to_string())));
}

#[test]
fn constant_time_comparison_refuses_other_lengths() {
    assert!(!constant_time_eq(b"secret", b"secret-longer"));
    assert!(!constant_time_eq(b"secret-longer", b"secret"));
    assert!(!constant_time_eq(b"", b"x"));
    assert!(constant_time_eq(b"", b""));
}
