use lan_manager::access::strip_port_suffix;
use lan_manager::config::{get_config, reload_config, update_config, AppConfig, Theme};
use lan_manager::client::{get_client_ip, set_client_ip, ClientIp};
use lan_manager::discovery::{service_instance_name, service_txt_properties};
use lan_manager::logbuf::{
    clear_api_logs, escape_json, get_api_logs, get_log_file_info, level_to_string, log_to_ui,
    needs_rotation, reload_logger_config, LogEntry, LogFileState, LogLevel, Logger,
};
use lan_manager::models::cache_is_fresh;
use lan_manager::models::{ApiResponse, ServerStatus, TcpServer};
use lan_manager::text::{has_whitespace, split_whitespace_tokens, str_eq, trim_spaces};

#[test]
fn whitespace_splitting() {
    assert_eq!(
        split_whitespace_tokens("  ping  127.0.0.1 \t-c 3\n"),
        vec!["ping", "127.0.0.1", "-c", "3"]
    );
    assert!(split_whitespace_tokens("   ").is_empty());
    assert!(split_whitespace_tokens("").is_empty());
    assert!(has_whitespace("a b"));
    assert!(!has_whitespace("ab"));
}

#[test]
fn trimming_and_port_stripping() {
    assert_eq!(trim_spaces("  10.0.0.1  "), "10.0.0.1");
    assert_eq!(trim_spaces("\t\n"), "");
    assert_eq!(strip_port_suffix("10.0.0.1:8080"), "10.0.0.1");
    assert_eq!(strip_port_suffix("10.0.0.1"), "10.0.0.1");
    assert!(str_eq("abc", "abc"));
    assert!(!str_eq("abc", "abd"));
}

#[test]
fn json_escaping_is_exact() {
    assert_eq!(escape_json("a\"b\\c\nd\re\tf"), "a\\\"b\\\\c\\nd\\re\\tf");
    assert_eq!(escape_json("plain"), "plain");
    assert_eq!(escape_json(""), "");
}

#[test]
fn level_tags_are_fixed() {
    assert_eq!(level_to_string(&LogLevel::Error), "ERROR");
    assert_eq!(level_to_string(&LogLevel::Warn), "WARN");
    assert_eq!(level_to_string(&LogLevel::Info), "INFO");
    assert_eq!(level_to_string(&LogLevel::Success), "SUCCESS");
    assert_eq!(level_to_string(&LogLevel::System), "SYSTEM");
}

#[test]
fn log_ring_drops_the_oldest() {
    let mut logs = Logger::new(2);
    for (i, msg) in ["one", "two", "three"].iter().enumerate() {
        logs.log(LogEntry {
            timestamp: i as i64,
            level: LogLevel::Info,
            category: "test".to_string(),
            message: msg.to_string(),
            source: None,
        });
    }
    let newest = logs.get_logs(10);
    assert_eq!(newest.len(), 2);
    assert_eq!(newest[0].message, "three");
    assert_eq!(newest[1].message, "two");

    let one = logs.get_logs(1);
    assert_eq!(one.len(), 1);
    assert_eq!(one[0].message, "three");

    logs.clear_logs();
    assert!(logs.get_logs(10).is_empty());
}

#[test]
fn ui_log_levels_map_by_tag() {
    let mut logs = Logger::new(50);
    log_to_ui(&mut logs, "error", "boom", 1);
    log_to_ui(&mut logs, "warn", "careful", 2);
    log_to_ui(&mut logs, "success", "done", 3);
    log_to_ui(&mut logs, "anything", "note", 4);

    let entries = get_api_logs(&logs, 10);
    assert_eq!(entries.len(), 4);
    assert!(matches!(entries[3].level, LogLevel::Error));
    assert!(matches!(entries[2].level, LogLevel::Warn));
    assert!(matches!(entries[1].level, LogLevel::Success));
    assert!(matches!(entries[0].level, LogLevel::Info));
    assert_eq!(entries[0].category, "API");

    clear_api_logs(&mut logs);
    assert!(get_api_logs(&logs, 10).is_empty());
}

#[test]
fn rotation_threshold_is_in_mebibytes() {
    assert!(!needs_rotation(10 * 1024 * 1024, 10));
    assert!(needs_rotation(10 * 1024 * 1024 + 1, 10));
}

#[test]
fn log_file_state_follows_the_config() {
    let mut state = LogFileState {
        path: "old.log".to_string(),
        size: Some(7),
        enabled: false,
        max_size_mb: 1,
    };
    assert!(get_log_file_info(&state).is_none());

    let mut config = AppConfig::default();
    config.log_file_path = None;
    reload_logger_config(&mut state, &config, "/var/log/app.log");
    assert_eq!(state.path, "/var/log/app.log");
    assert!(state.enabled);
    assert_eq!(state.max_size_mb, 10);
    assert_eq!(get_log_file_info(&state), Some(("/var/log/app.log".to_string(), None)));

    config.log_file_path = Some("custom.log".to_string());
    reload_logger_config(&mut state, &config, "/var/log/app.log");
    assert_eq!(state.path, "custom.log");
}

#[test]
fn system_info_cache_window() {
    assert!(cache_is_fresh(299));
    assert!(!cache_is_fresh(300));
}

#[test]
fn default_config_matches_the_shipped_settings() {
    let config = AppConfig::default();
    assert_eq!(config.api_port, 8080);
    assert!(config.password_hash.is_none());
    assert_eq!(config.log_buffer_size, 100);
    assert!(config.enable_log_file);
    assert_eq!(config.log_file_max_size, 10);
    assert!(!config.auto_start_api);
    assert!(!config.auto_start_on_boot);
    assert_eq!(
        config.command_whitelist,
        vec!["shutdown", "restart", "sleep", "lock", "systeminfo", "tasklist", "wmic"]
    );
    assert!(config.custom_commands.is_empty());
    assert_eq!(config.theme, Theme::System);
    assert!(config.ip_blacklist.is_empty());
    assert!(!config.enable_ip_blacklist);
}

#[test]
fn config_password_and_updates() {
    let mut config = AppConfig::default();
    assert!(!config.has_password());
    config.set_password("password123").expect("set");
    assert!(config.has_password());
    assert!(config.verify_password("password123"));
    assert!(!config.verify_password("password124"));

    // Hashing salts, so two stores of the same password differ textually.
    let first = config.password_hash.clone().expect("hash");
    config.set_password("password123").expect("set again");
    assert_ne!(Some(first), config.password_hash);

    config.clear_password();
    assert!(!config.has_password());
    assert!(!config.verify_password("password123"));

    let mut store = AppConfig::default();
    let mut edited = get_config(&store);
    edited.api_port = 9999;
    update_config(&mut store, edited);
    assert_eq!(store.api_port, 9999);
    reload_config(&mut store, AppConfig::default());
    assert_eq!(store.api_port, 8080);
}

#[test]
fn request_context_carries_the_client_address() {
    let mut ctx = ClientIp("unknown".to_string());
    set_client_ip(&mut ctx, "10.0.0.7:1234");
    assert_eq!(get_client_ip(&ctx), "10.0.0.7:1234");
}

#[test]
fn response_envelope_and_status() {
    let ok: ApiResponse<u32> = ApiResponse::ok(7);
    assert!(ok.success);
    assert_eq!(ok.data, Some(7));
    assert!(ok.error.is_none());

    let err: ApiResponse<u32> = ApiResponse::err("nope".to_string());
    assert!(!err.success);
    assert!(err.data.is_none());
    assert_eq!(err.error.as_deref(), Some("nope"));

    let status = ServerStatus::new("desk".to_string(), "1.2.3".to_string());
    assert!(!status.running);
    assert_eq!(status.device_name, "desk");

    let server = TcpServer::new(9000);
    assert_eq!(server.port(), 9000);
}

#[test]
fn service_advertisement_fields() {
    let name = service_instance_name("0123456789abcdef");
    assert_eq!(name, "LanDevice-01234567");

    let txt = service_txt_properties(
        "1.2.3".to_string(),
        "desk".to_string(),
        "abc".to_string(),
        "9000".to_string(),
    );
    let pairs: Vec<(String, String)> = txt.into_iter().map(|p| (p.key, p.value)).collect();
    assert_eq!(
        pairs,
        vec![
            ("version".to_string(), "1.2.3".to_string()),
            ("protocol".to_string(), "tcp".to_string()),
            ("auth".to_string(), "required".to_string()),
            ("device".to_string(), "desk".to_string()),
            ("uuid".to_string(), "abc".to_string()),
            ("port".to_string(), "9000".to_string()),
        ]
    );
}
