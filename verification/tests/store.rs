use chrono::TimeZone;
use chrono::Utc;
use reading_steiner::config::SourceConfig;
use reading_steiner::db::{assemble_source_meta, daemon_status, migration_plan, SchemaStep, SCHEMA_VERSION};

fn source(id: &str, enabled: bool) -> SourceConfig {
    let mut s = SourceConfig::default();
    s.id = id.to_string();
    s.enabled = enabled;
    s
}

#[test]
fn schema_upgrades_by_version() {
    assert_eq!(migration_plan(0), vec![SchemaStep::Create]);
    let from1 = migration_plan(1);
    assert_eq!(from1[0], SchemaStep::V3 { add_counter: true });
    assert_eq!(from1.len(), 9);
    assert_eq!(from1[8], SchemaStep::To(11));
    assert_eq!(migration_plan(2)[0], SchemaStep::V3 { add_counter: false });
    assert_eq!(migration_plan(9), vec![SchemaStep::To(10), SchemaStep::To(11)]);
    assert!(migration_plan(SCHEMA_VERSION).is_empty());
    assert!(migration_plan(40).is_empty());
}

#[test]
fn source_meta_from_query_rows() {
    let sources = vec![source("a", true), source("b", true)];
    let checks = vec![("a".to_string(), 10), ("a".to_string(), 20)];
    let changes = vec![("b".to_string(), 5)];
    let unread = vec![("a".to_string(), 3)];
    let failures = vec![("b".to_string(), Some("timeout".to_string())), ("b".to_string(), None)];
    let m = assemble_source_meta(&sources, &checks, &changes, &unread, &failures);
    assert_eq!(m.len(), 2);
    assert_eq!(m[0].last_check_at, Some(20));
    assert_eq!(m[0].last_change_at, None);
    assert_eq!(m[0].unread_count, 3);
    assert!(!m[0].has_error);
    assert_eq!(m[1].last_change_at, Some(5));
    assert_eq!(m[1].unread_count, 0);
    assert!(m[1].has_error);
    assert_eq!(m[1].last_error.as_deref(), Some("timeout"));
}

#[test]
fn daemon_status_counts_and_clock() {
    let now = Utc.with_ymd_and_hms(2026, 1, 1, 0, 0, 0).unwrap().timestamp();
    let st = daemon_status(
        true,
        "1.0".to_string(),
        &[source("a", true), source("b", false)],
        3,
        Some(now - 1),
        vec![("http".to_string(), true)],
        "Asia/Shanghai".to_string(),
        now,
    );
    assert_eq!(st.sources, 2);
    assert_eq!(st.enabled_sources, 1);
    assert_eq!(st.queue_depth, 3);
    assert_eq!(st.server_time_utc, now);
    assert_eq!(st.server_time_local, "2026-01-01 08:00:00");
}
