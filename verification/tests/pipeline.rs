use reading_steiner::config::{ExtractConfig, ImageSelector, ItemField, ItemSelector};
use reading_steiner::models::{DiffResult, FetchedDocument, Item};
use reading_steiner::scheduler::resolve_image_urls;
use reading_steiner::pipeline::{
    collect_changed_element_images, dedupe_urls, eval_json_path, run_pipeline, tokenize_path_steps,
    JsonKind, JsonMember, JsonValue, PathError, PathStep,
};

fn doc(text: &str) -> FetchedDocument {
    FetchedDocument {
        final_url: "https://example.com".to_string(),
        status: 200,
        text: text.to_string(),
        html: Some(text.to_string()),
        images: vec![],
        screenshot: None,
        etag: None,
        last_modified: None,
        content_sha256: "x".to_string(),
        normalized_fingerprint: "x".to_string(),
        duration_ms: 0,
        engine: "http".to_string(),
        content_type: Some("text/html; charset=utf-8".to_string()),
        not_modified: false,
    }
}

fn field(name: &str, selector: Option<&str>, attr: Option<&str>) -> ItemField {
    ItemField {
        name: name.to_string(),
        selector: selector.map(|s| s.to_string()),
        attr: attr.map(|s| s.to_string()),
        path: None,
    }
}

fn field_value<'a>(item: &'a Item, name: &str) -> Option<&'a str> {
    item.fields.iter().find(|f| f.name == name).map(|f| f.value.as_str())
}

fn css_items(selector: &str, fields: Vec<ItemField>, images: Option<ImageSelector>) -> ExtractConfig {
    ExtractConfig::Items {
        selector: ItemSelector::Css { selector: selector.to_string() },
        fields,
        dedupe_key: None,
        images,
    }
}

fn jstr(s: &str) -> JsonValue {
    JsonValue { kind: JsonKind::Str(s.to_string()), text: format!("\"{}\"", s) }
}

fn jobj(members: Vec<(&str, JsonValue)>, text: &str) -> JsonValue {
    JsonValue {
        kind: JsonKind::Object(
            members.into_iter().map(|(k, v)| JsonMember { key: k.to_string(), value: v }).collect(),
        ),
        text: text.to_string(),
    }
}

fn jarr(items: Vec<JsonValue>, text: &str) -> JsonValue {
    JsonValue { kind: JsonKind::Array(items), text: text.to_string() }
}

#[test]
fn test_text_extract() {
    let out = run_pipeline(&doc("hello world"), &ExtractConfig::Text { images: None }).unwrap();
    assert_eq!(out.items.len(), 1);
    assert_eq!(out.items[0].text, "hello world");
}

#[test]
fn test_text_fingerprint_tracks_changes() {
    let a = run_pipeline(&doc("hello world"), &ExtractConfig::Text { images: None }).unwrap();
    let b = run_pipeline(&doc("hello world!"), &ExtractConfig::Text { images: None }).unwrap();
    assert_ne!(a.fingerprint, b.fingerprint);
}

#[test]
fn test_css_items() {
    let extract = css_items(
        ".item",
        vec![field("id", None, Some("data-id")), field("title", Some(".title"), None)],
        None,
    );
    let out = run_pipeline(
        &doc(
            r#"<html><body><div class="item" data-id="a"><span class="title">A</span></div><div class="item" data-id="b"><span class="title">B</span></div></body></html>"#,
        ),
        &extract,
    )
    .unwrap();
    assert_eq!(out.items.len(), 2);
    assert_eq!(out.items[0].stable_id, "a");
    assert_eq!(field_value(&out.items[0], "title"), Some("A"));
}

#[test]
fn test_text_with_css_image_selector() {
    let html = r#"<html><body><div class="cover"><img src="/a.jpg"></div>
            <p>content</p><img src="/b.png" data-src="/b2.png"></body></html>"#;
    let extract = ExtractConfig::Text {
        images: Some(ImageSelector::Css { selector: ".cover img".to_string() }),
    };
    let out = run_pipeline(&doc(html), &extract).unwrap();
    assert_eq!(out.items.len(), 1);
    assert_eq!(out.image_urls, vec!["/a.jpg"]);
}

#[test]
fn test_text_without_image_selector_has_no_images() {
    let out = run_pipeline(&doc("plain"), &ExtractConfig::Text { images: None }).unwrap();
    assert!(out.image_urls.is_empty());
}

#[test]
fn test_items_image_selector_collects_item_images() {
    let extract = css_items(".item", vec![], Some(ImageSelector::Items));
    let html = r#"<html><body>
            <div class="item"><img src="/1.jpg"></div>
            <div class="item"><img src="/2.jpg"><img src="/1.jpg"></div>
        </body></html>"#;
    let out = run_pipeline(&doc(html), &extract).unwrap();
    assert_eq!(out.items.len(), 2);
    assert_eq!(out.image_urls, vec!["/1.jpg", "/2.jpg"]);
}

#[test]
fn test_collect_changed_element_images_only_changed() {
    let html = r#"<html><body>
            <div class="item"><img src="/a.jpg"><p>item-a</p></div>
            <div class="item"><img src="/b.jpg"><p>item-b</p></div>
        </body></html>"#;
    let selector = ItemSelector::Css { selector: ".item".to_string() };
    let fields: Vec<ItemField> = vec![];
    let changed = vec!["item-1".to_string()];
    let urls = collect_changed_element_images(&doc(html), &selector, &fields, &changed);
    assert_eq!(urls, vec!["/b.jpg"]);
}

#[test]
fn test_css_items_without_fields_captures_text() {
    let extract = css_items(".item", vec![], None);
    let html = r#"<html><body>
            <div class="item"><h2>First</h2><p>alpha</p></div>
            <div class="item"><h2>Second</h2><p>beta</p></div>
        </body></html>"#;
    let out = run_pipeline(&doc(html), &extract).unwrap();
    assert_eq!(out.items.len(), 2);
    assert!(field_value(&out.items[0], "text").is_some());
    assert!(field_value(&out.items[0], "text").unwrap().contains("First"));
    assert_ne!(out.items[0].fingerprint(&[]), out.items[1].fingerprint(&[]));
}

#[test]
fn test_json_path_chain_wildcard_field() {
    // {"items":[{"id":"a","name":"A"},{"id":"b","name":"B"}]}
    let a = jobj(vec![("id", jstr("a")), ("name", jstr("A"))], r#"{"id":"a","name":"A"}"#);
    let b = jobj(vec![("id", jstr("b")), ("name", jstr("B"))], r#"{"id":"b","name":"B"}"#);
    let items = jarr(vec![a, b], r#"[{"id":"a","name":"A"},{"id":"b","name":"B"}]"#);
    let binding = jobj(vec![("items", items)], r#"{"items":[{"id":"a","name":"A"},{"id":"b","name":"B"}]}"#);
    let matches = eval_json_path(&binding, "$.items[*].id").unwrap();
    let ids: Vec<String> = matches
        .iter()
        .filter_map(|v| match &v.kind {
            JsonKind::Str(s) => Some(s.clone()),
            _ => None,
        })
        .collect();
    assert_eq!(ids, vec!["a", "b"]);
}

#[test]
fn test_json_path_index_then_field() {
    // {"items":[{"name":"first"},{"name":"second"}]}
    let first = jobj(vec![("name", jstr("first"))], r#"{"name":"first"}"#);
    let second = jobj(vec![("name", jstr("second"))], r#"{"name":"second"}"#);
    let items = jarr(vec![first, second], r#"[{"name":"first"},{"name":"second"}]"#);
    let binding = jobj(vec![("items", items)], r#"{"items":[{"name":"first"},{"name":"second"}]}"#);
    let matches = eval_json_path(&binding, "$.items[1].name").unwrap();
    assert_eq!(matches.len(), 1);
    assert!(matches!(&matches[0].kind, JsonKind::Str(s) if s == "second"));
}

#[test]
fn test_extract_css_empty_id_falls_back_to_index() {
    let extract = css_items(".item", vec![field("id", Some("span.id"), None)], None);
    let out = run_pipeline(
        &doc(r#"<html><body><div class="item"><span class="id"></span><img src="/a.jpg"></div></body></html>"#),
        &extract,
    )
    .unwrap();
    assert_eq!(out.items.len(), 1);
    assert_eq!(out.items[0].stable_id, "item-0");
}

#[test]
fn json_path_missing_field_and_index_are_errors() {
    let first = jobj(vec![("name", jstr("first"))], r#"{"name":"first"}"#);
    let items = jarr(vec![first], r#"[{"name":"first"}]"#);
    let binding = jobj(vec![("items", items)], r#"{"items":[{"name":"first"}]}"#);
    assert_eq!(eval_json_path(&binding, "$.nothing").err(), Some(PathError::NotFound));
    assert_eq!(eval_json_path(&binding, "$.items[3]").err(), Some(PathError::OutOfBounds));
}

#[test]
fn path_tokens_cover_fields_indexes_and_wildcards() {
    let steps = tokenize_path_steps("items[*].tags[2].name");
    assert_eq!(steps.len(), 5);
    assert!(matches!(&steps[0], PathStep::Field(f) if f == "items"));
    assert!(matches!(&steps[1], PathStep::Wildcard));
    assert!(matches!(&steps[2], PathStep::Field(f) if f == "tags"));
    assert!(matches!(&steps[3], PathStep::Index(2)));
    assert!(matches!(&steps[4], PathStep::Field(f) if f == "name"));
}

#[test]
fn dedupe_urls_keeps_first_occurrence_order() {
    let urls = vec!["/b".to_string(), "/a".to_string(), "/b".to_string(), "/c".to_string(), "/a".to_string()];
    assert_eq!(dedupe_urls(urls), vec!["/b", "/a", "/c"]);
}

#[test]
fn json_items_extracted_by_path() {
    let mut d = doc(r#"{"data":[{"id":"x","title":"X"},{"id":"y","title":"Y"}]}"#);
    d.content_type = Some("application/json".to_string());
    d.html = None;
    let extract = ExtractConfig::Items {
        selector: ItemSelector::JsonPath { path: "$.data[*]".to_string() },
        fields: vec![
            field("id", None, None),
            ItemField {
                name: "title".to_string(),
                selector: None,
                attr: None,
                path: Some("title".to_string()),
            },
        ],
        dedupe_key: None,
        images: None,
    };
    let out = run_pipeline(&d, &extract).unwrap();
    assert_eq!(out.items.len(), 2);
    assert_eq!(out.items[0].stable_id, "x");
    assert_eq!(field_value(&out.items[1], "title"), Some("Y"));
    let no_id = ExtractConfig::Items {
        selector: ItemSelector::JsonPath { path: "$.data[*]".to_string() },
        fields: vec![field("title", None, None)],
        dedupe_key: None,
        images: None,
    };
    let out = run_pipeline(&d, &no_id).unwrap();
    assert_eq!(out.items[1].stable_id, "json-1");
}

fn diff_of(old_items: &[Item], new_items: &[Item]) -> DiffResult {
    DiffResult {
        changed: true,
        change_type: None,
        diff_summary: String::new(),
        fingerprint: String::new(),
        old_items: old_items.to_vec(),
        new_items: new_items.to_vec(),
        dedupe_key: String::new(),
    }
}

#[test]
fn resolve_image_urls_takes_changed_elements_only_in_changed_mode() {
    let old_html = r#"<html><body>
            <div class="item"><img src="/a.jpg"><p>item-a</p></div>
            <div class="item"><img src="/b.jpg"><p>item-b</p></div>
        </body></html>"#;
    let new_html = r#"<html><body>
            <div class="item"><img src="/a.jpg"><p>item-a</p></div>
            <div class="item"><img src="/b.jpg"><p>item-b, edited</p></div>
        </body></html>"#;
    let changed_mode = css_items(".item", vec![], Some(ImageSelector::Changed));
    let old_out = run_pipeline(&doc(old_html), &changed_mode).unwrap();
    let new_out = run_pipeline(&doc(new_html), &changed_mode).unwrap();
    let diff = diff_of(&old_out.items, &new_out.items);
    let urls = resolve_image_urls(&doc(new_html), &changed_mode, &new_out, &diff, &old_out.items);
    assert_eq!(urls, vec!["/b.jpg"]);

    let all_mode = css_items(".item", vec![], None);
    let all_out = run_pipeline(&doc(new_html), &all_mode).unwrap();
    let urls = resolve_image_urls(&doc(new_html), &all_mode, &all_out, &diff, &old_out.items);
    assert_eq!(urls, all_out.image_urls);
}
