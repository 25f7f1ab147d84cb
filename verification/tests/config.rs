use hyprtrace::daemon::config as daemon_config;
use hyprtrace::server::config::Config;
use hyprtrace::server::routes::config::{apply_config_update, config_response, AiSetting, ConfigUpdateRequest};

#[test]
fn server_defaults() {
    let c = Config::default();
    assert_eq!(c.daemon.db_path, "~/.local/share/hyprtrace/hyprtrace.db");
    assert_eq!(c.daemon.idle_timeout_seconds, 300);
    assert_eq!(c.daemon.focused_threshold_seconds, 1200);
    assert_eq!(c.server.host, "127.0.0.1");
    assert_eq!(c.server.port, 9420);
    assert_eq!(c.server.weekly_report_day, 1);
    assert_eq!(c.server.weekly_report_hour, 9);
    assert_eq!(c.ai.default_provider, "ollama");
    assert_eq!(c.ai.proactive_interval_minutes, 120);
    assert_eq!(c.ai.openai.base_url, "https://api.openai.com/v1");
}

#[test]
fn daemon_defaults_and_db_path() {
    let c = daemon_config::Config::default();
    assert_eq!(c.daemon.break_after_minutes, 90);
    assert_eq!(c.daemon.late_night_start_hour, 23);
    assert_eq!(c.daemon.late_night_end_hour, 6);
    assert_eq!(c.db_path_expanded(&Some("/home/u".to_string())), "/home/u/.local/share/hyprtrace/hyprtrace.db");
    assert_eq!(c.db_path_expanded(&None), "/root/.local/share/hyprtrace/hyprtrace.db");
    let mut abs = c.clone();
    abs.daemon.db_path = "/var/db/x.db".to_string();
    assert_eq!(abs.db_path_expanded(&Some("/home/u".to_string())), "/var/db/x.db");
}

#[test]
fn config_path_under_home() {
    assert_eq!(Config::config_path(&Some("/home/u".to_string())), "/home/u/.config/hyprtrace/config.toml");
    assert_eq!(Config::config_path(&Some("/home/u/".to_string())), "/home/u/.config/hyprtrace/config.toml");
    assert_eq!(Config::config_path(&None), "/root/.config/hyprtrace/config.toml");
}

fn empty_request() -> ConfigUpdateRequest {
    ConfigUpdateRequest {
        openai_url: None,
        openai_api_key: None,
        openai_model: None,
        ollama_url: None,
        ollama_model: None,
        default_provider: None,
        record_titles: None,
        retention_days: None,
        weekly_report_enabled: None,
        weekly_report_day: None,
        weekly_report_hour: None,
        weekly_report_minute: None,
    }
}

#[test]
fn config_update_applies_and_lists_file_writes() {
    let mut c = Config::default();
    let mut req = empty_request();
    req.openai_api_key = Some(String::new());
    req.ollama_model = Some("llama3".to_string());
    req.retention_days = Some(30);
    req.record_titles = Some(false);
    let updates = apply_config_update(&mut c, req);
    assert_eq!(updates.len(), 1);
    assert_eq!(updates[0].0, AiSetting::OllamaModel);
    assert_eq!(updates[0].1, "llama3");
    assert_eq!(updates[0].0.toml_path(), vec!["ai".to_string(), "ollama".to_string(), "default_model".to_string()]);
    assert_eq!(c.ai.ollama.default_model, "llama3");
    assert_eq!(c.ai.openai.api_key, "");
    assert_eq!(c.server.retention_days, 30);
    assert!(!c.daemon.record_titles);

    let mut req = empty_request();
    req.openai_api_key = Some("sk-1".to_string());
    req.openai_url = Some("http://x".to_string());
    req.default_provider = Some("openai".to_string());
    let updates = apply_config_update(&mut c, req);
    let kinds: Vec<AiSetting> = updates.iter().map(|u| u.0).collect();
    assert_eq!(kinds, vec![AiSetting::OpenAiBaseUrl, AiSetting::OpenAiApiKey, AiSetting::DefaultProvider]);
    let r = config_response(&c, true);
    assert_eq!(r.openai_url, "http://x");
    assert_eq!(r.default_provider, "openai");
    assert!(r.openai_configured);
    assert_eq!(r.retention_days, 30);
}
