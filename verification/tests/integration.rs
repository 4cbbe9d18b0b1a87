use chrono::Utc;
use reading_steiner::config::{ChangeType, ExtractConfig, ImageSelector};
use reading_steiner::differ;
use reading_steiner::models::{ChangeEvent, FetchedDocument, Field, Item};
use reading_steiner::notifier::render_event_message;
use reading_steiner::pipeline;

fn item(id: &str, fields: &[(&str, &str)], text: &str) -> Item {
    Item {
        stable_id: id.to_string(),
        fields: fields
            .iter()
            .map(|(n, v)| Field { name: n.to_string(), value: v.to_string() })
            .collect(),
        image_urls: vec![],
        text: text.to_string(),
    }
}

#[test]
fn test_differ_items_new_updated_removed() {
    let old_items = vec![item("a", &[("title", "A")], ""), item("b", &[("title", "B")], "")];
    let new_items = vec![item("a", &[("title", "A2")], ""), item("c", &[("title", "C")], "")];
    let result = differ::diff("", "", &old_items, &new_items);
    assert!(result.changed);
    assert!(result.diff_summary.contains('+'));
    assert!(result.diff_summary.contains('~'));
    assert!(result.diff_summary.contains('-'));
}

#[test]
fn test_differ_text_changed() {
    let old_item = item("page", &[], "hello");
    let new_item = item("page", &[], "hello world");
    let result = differ::diff(
        "fp-old",
        "fp-new",
        std::slice::from_ref(&old_item),
        std::slice::from_ref(&new_item),
    );
    assert!(result.changed);
    assert_eq!(result.change_type, Some(ChangeType::Updated));
}

#[test]
fn test_item_fingerprint_ignore_fields_exact_match() {
    let it = item("i1", &[("price", "10"), ("price2", "20"), ("title", "x")], "");
    let fp_ignored = it.fingerprint(&["price".to_string()]);
    assert!(fp_ignored.contains("price2=20"));
    assert!(!fp_ignored.contains("price=10"));
    let fp_ignored2 = it.fingerprint(&["price2".to_string()]);
    assert_ne!(fp_ignored, fp_ignored2);
}

#[test]
fn test_css_image_selector_ignores_non_html() {
    let make_doc = |content_type: Option<&str>, text: &str| FetchedDocument {
        final_url: "https://example.com".to_string(),
        status: 200,
        text: text.to_string(),
        html: None,
        images: vec![],
        screenshot: None,
        etag: None,
        last_modified: None,
        content_sha256: "x".to_string(),
        normalized_fingerprint: "x".to_string(),
        duration_ms: 0,
        engine: "http".to_string(),
        content_type: content_type.map(|s| s.to_string()),
        not_modified: false,
    };
    let json_doc = make_doc(Some("application/json"), r#"{"html":"<img src=\"/x.jpg\">"}"#);
    let extract = ExtractConfig::Text {
        images: Some(ImageSelector::Css { selector: "img".to_string() }),
    };
    let out = pipeline::run_pipeline(&json_doc, &extract).unwrap();
    assert!(out.image_urls.is_empty(), "non-HTML content is not matched by a CSS image selector");

    let html_doc = make_doc(
        Some("text/html; charset=utf-8"),
        r#"<html><body><img src="/a.jpg"></body></html>"#,
    );
    let out = pipeline::run_pipeline(&html_doc, &extract).unwrap();
    assert_eq!(out.image_urls, vec!["/a.jpg"]);
}

#[test]
fn test_event_template_rendering() {
    let event = ChangeEvent {
        id: 1,
        watchpoint_id: "watch1".to_string(),
        change_type: ChangeType::New,
        old_items_json: "[]".to_string(),
        new_items_json: "[]".to_string(),
        diff_summary: "added 2 items".to_string(),
        fingerprint: "f".to_string(),
        dedupe_key: "d".to_string(),
        image_urls_json: "[]".to_string(),
        detected_at: Utc::now().timestamp(),
        read: false,
        screenshot_path: None,
    };
    let text = render_event_message(
        &event,
        &[],
        "<b>{label}</b> {watch} @ {time} {tz}\n{summary}",
        "Asia/Shanghai",
    );
    assert!(text.contains("NEW"));
    assert!(text.contains("watch1"));
    assert!(text.contains("added 2 items"));
    assert!(text.contains("Asia/Shanghai"));
}

#[test]
fn identical_rounds_are_unchanged() {
    let items = vec![item("a", &[("title", "A")], ""), item("b", &[("title", "B")], "")];
    let result = differ::diff("", "", &items, &items);
    assert!(!result.changed);
    assert_eq!(result.change_type, None);
}

#[test]
fn only_new_items_are_new() {
    let old_items = vec![item("a", &[("title", "A")], "")];
    let new_items = vec![item("a", &[("title", "A")], ""), item("b", &[("title", "B")], "")];
    let result = differ::diff("", "", &old_items, &new_items);
    assert!(result.changed);
    assert_eq!(result.change_type, Some(ChangeType::New));
    let removed = differ::diff("", "", &new_items, &old_items);
    assert_eq!(removed.change_type, Some(ChangeType::Removed));
}
