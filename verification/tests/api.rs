use reading_steiner::api::{
    apply_source_updates, check_media_path, check_source_exists, extract_title, list_limit,
    plan_set_flags, prepare_new_source, remove_source, tag_name, ApiError, MAX_BATCH_SIZE,
};
use reading_steiner::config::SourceConfig;

fn source(id: &str, url: &str) -> SourceConfig {
    let mut s = SourceConfig::default();
    s.id = id.to_string();
    s.fetch.url = url.to_string();
    s
}

fn ids(v: &[SourceConfig]) -> Vec<String> {
    v.iter().map(|s| s.id.clone()).collect()
}

#[test]
fn batch_switches_touch_only_named_sources() {
    let sources = vec![source("a", ""), source("b", ""), source("c", "")];
    let names = vec!["c".to_string(), "x".to_string(), "a".to_string()];
    let updated = plan_set_flags(&sources, &names, Some(false), None).unwrap();
    assert_eq!(ids(&updated), vec!["c", "a"]);
    assert!(updated.iter().all(|s| !s.enabled && s.notify_enabled));
    assert!(plan_set_flags(&sources, &names, None, None).unwrap().is_empty());
    assert!(plan_set_flags(&sources, &[], Some(true), None).unwrap().is_empty());
    let many: Vec<String> = (0..=MAX_BATCH_SIZE).map(|i| i.to_string()).collect();
    assert_eq!(plan_set_flags(&sources, &many, Some(true), None).err(), Some(ApiError::BatchTooLarge(101)));
}

#[test]
fn updates_replace_sources_by_id() {
    let mut sources = vec![source("a", "u1"), source("b", "u2")];
    let mut changed = source("b", "u3");
    changed.enabled = false;
    apply_source_updates(&mut sources, &[changed, source("zz", "u4")]);
    assert_eq!(ids(&sources), vec!["a", "b"]);
    assert_eq!(sources[1].fetch.url, "u3");
    assert!(!sources[1].enabled);
    remove_source(&mut sources, "a");
    assert_eq!(ids(&sources), vec!["b"]);
    remove_source(&mut sources, "missing");
    assert_eq!(ids(&sources), vec!["b"]);
}

#[test]
fn new_sources_get_an_id_and_a_name() {
    let existing = vec![source("taken", "")];
    let s = prepare_new_source(source("", "https://news.example.org/x"), &existing, 1).unwrap();
    assert!(s.id.starts_with("newsexampleorg-"), "{}", s.id);
    assert_eq!(s.name, "news.example.org");
    let mut named = source("mine", "https://a.example/");
    named.name = "Mine".to_string();
    let s = prepare_new_source(named, &existing, 2).unwrap();
    assert_eq!(s.id, "mine");
    assert_eq!(s.name, "Mine");
    assert_eq!(
        prepare_new_source(source("taken", ""), &existing, 3).err(),
        Some(ApiError::SourceExists("taken".to_string()))
    );
}

#[test]
fn updates_need_an_existing_source() {
    let existing = vec![source("a", "")];
    assert_eq!(check_source_exists(&existing, "a"), Ok(()));
    assert_eq!(check_source_exists(&existing, "b"), Err(ApiError::SourceNotFound("b".to_string())));
}

#[test]
fn tag_names_are_trimmed_and_required() {
    assert_eq!(tag_name("  news ").unwrap(), "news");
    assert_eq!(tag_name("   "), Err(ApiError::TagNameRequired));
}

#[test]
fn media_paths_stay_inside_the_media_directory() {
    assert_eq!(check_media_path("screenshots/event-1.png"), Ok(()));
    assert_eq!(check_media_path("a/b/c.jpg"), Ok(()));
    for bad in ["/etc/passwd", "\\x", "../x", "a/../b", "a//b", "a\\..\\b", "", "a/"] {
        assert_eq!(check_media_path(bad), Err(ApiError::InvalidMediaPath), "{bad}");
    }
}

#[test]
fn list_limit_defaults_to_twenty() {
    assert_eq!(list_limit(None), 20);
    assert_eq!(list_limit(Some(5)), 5);
}

#[test]
fn preview_titles() {
    assert_eq!(extract_title("  <html><head><title> Hello </title></head></html>", Some("text/html")), "Hello");
    assert_eq!(extract_title("<h1>Big <b>news</b></h1>", None), "Big  news");
    assert_eq!(extract_title(r#"{"name":" N ","title":""}"#, Some("application/json")), "N");
    assert_eq!(extract_title("not json", Some("application/json")), "");
    assert_eq!(extract_title("   ", Some("text/html")), "");
    assert_eq!(extract_title("<p>no title</p>", None), "");
}
