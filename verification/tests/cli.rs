use reading_steiner::cli::{
    config_path, daemon_request, is_yaml_list, restore_dir, source_line, web_console_lines, Command,
    SourcesAction,
};
use reading_steiner::config::{CamofoxConfig, Config, DaemonConfig, TelegramConfig, WebConfig};
use reading_steiner::control::{events_limit, ControlRequest};
use reading_steiner::tui::{events_panel, is_quit_key, sources_panel, status_line, Key};

fn config() -> Config {
    Config {
        state_dir: "/var/lib/rs".to_string(),
        media_dir: "/var/lib/rs/media".to_string(),
        daemon: DaemonConfig { socket_path: String::new(), log_level: String::new() },
        web: WebConfig { listen: "0.0.0.0:9000".to_string(), static_dir: String::new(), auth_token: String::new() },
        telegram: TelegramConfig {
            url: String::new(),
            api_base: String::new(),
            max_images_per_event: 10,
            image_bytes_budget: 0,
            digest_window_secs: 0,
            template: String::new(),
            token: String::new(),
            token_file: String::new(),
            default_chat_id: String::new(),
        },
        camofox: CamofoxConfig {
            enabled: false,
            base_url: String::new(),
            access_key_file: String::new(),
            api_key_file: String::new(),
            user_id: String::new(),
            session_key: String::new(),
            health_check_interval_secs: 0,
            pool_size: 1,
        },
    }
}

#[test]
fn commands_that_go_to_the_daemon() {
    let c = "config.yaml".to_string();
    assert!(matches!(daemon_request(&Command::Status { json: false, config: c.clone() }), Some(ControlRequest::Status)));
    assert!(matches!(
        daemon_request(&Command::Sources { action: SourcesAction::List { config: c.clone() } }),
        Some(ControlRequest::ListSources)
    ));
    assert!(daemon_request(&Command::Sources { action: SourcesAction::Add { file: "f".to_string(), config: c.clone() } }).is_none());
    match daemon_request(&Command::History { id: Some("s".to_string()), config: c.clone() }) {
        Some(ControlRequest::History { source_id, limit }) => {
            assert_eq!(source_id.as_deref(), Some("s"));
            assert_eq!(limit, Some(20));
        }
        _ => panic!("history request expected"),
    }
    assert!(matches!(daemon_request(&Command::Check { id: "x".to_string(), config: c.clone() }), Some(ControlRequest::Check { .. })));
    assert!(daemon_request(&Command::Serve { config: c.clone() }).is_none());
    assert!(daemon_request(&Command::Restore { name: "n".to_string(), config: c.clone() }).is_none());
    assert_eq!(config_path(&Command::Backups { config: "b.yaml".to_string() }), "b.yaml");
}

#[test]
fn cli_texts() {
    assert!(is_yaml_list("\n  - id: a"));
    assert!(!is_yaml_list("id: a"));
    assert!(!is_yaml_list("   "));
    assert_eq!(source_line("abc", true, "https://x"), format!("{:<24} enabled https://x", "abc"));
    assert_eq!(source_line(&"x".repeat(30), false, "u"), format!("{} disabled u", "x".repeat(30)));
    let lines = web_console_lines(&config(), "c.yaml");
    assert_eq!(lines[0], "ReadingSteiner web console: http://0.0.0.0:9000");
    assert_eq!(lines[1], "  static dir: web/dist");
    assert!(lines[2].contains("--config c.yaml"));
    assert_eq!(restore_dir(&config(), "20260101-000000"), "/var/lib/rs/backups/20260101-000000");
}

#[test]
fn list_limits_of_requests() {
    assert_eq!(events_limit(&ControlRequest::ListEvents { limit: None }), Some(20));
    assert_eq!(events_limit(&ControlRequest::History { source_id: None, limit: Some(3) }), Some(3));
    assert_eq!(events_limit(&ControlRequest::Status), None);
}

#[test]
fn dashboard_panels() {
    assert_eq!(sources_panel(&[]), "sources: (none)");
    assert_eq!(sources_panel(&["a".to_string(), "b".to_string()]), "sources: a, b");
    assert_eq!(events_panel(&[]), "No change events yet");
    assert_eq!(
        events_panel(&[(2, "s".to_string(), "+1".to_string()), (1, "t".to_string(), "~1".to_string())]),
        "#2 s +1\n#1 t ~1"
    );
    assert_eq!(status_line(true, 3, 2, 0), "running: true | sources: 3 (enabled 2) | queue: 0");
    assert!(is_quit_key(&Key::Char('q')));
    assert!(is_quit_key(&Key::Esc));
    assert!(!is_quit_key(&Key::Char('x')));
    assert!(!is_quit_key(&Key::Other));
}
