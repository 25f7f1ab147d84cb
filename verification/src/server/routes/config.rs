//! `/api/config`: what the settings page reads, and how an update request
//! changes the running configuration and which keys of the file it rewrites.
use vstd::prelude::*;
use crate::server::config::{AiConfig, Config};

verus! {

/// The settings shown to the web UI (the API key itself never leaves the
/// server, only whether one is configured).
#[derive(Debug, Clone)]
pub struct ConfigResponse {
    pub openai_url: String,
    pub openai_model: String,
    pub openai_configured: bool,
    pub ollama_url: String,
    pub ollama_model: String,
    pub default_provider: String,
    pub record_titles: bool,
    pub retention_days: u32,
    pub weekly_report_enabled: bool,
    pub weekly_report_day: u32,
    pub weekly_report_hour: u32,
    pub weekly_report_minute: u32,
}

/// Settings to change; absent fields stay as they are.
#[derive(Debug, Clone)]
pub struct ConfigUpdateRequest {
    pub openai_url: Option<String>,
    pub openai_api_key: Option<String>,
    pub openai_model: Option<String>,
    pub ollama_url: Option<String>,
    pub ollama_model: Option<String>,
    pub default_provider: Option<String>,
    pub record_titles: Option<bool>,
    pub retention_days: Option<u32>,
    pub weekly_report_enabled: Option<bool>,
    pub weekly_report_day: Option<u32>,
    pub weekly_report_hour: Option<u32>,
    pub weekly_report_minute: Option<u32>,
}

/// The response for the current configuration.
pub fn config_response(config: &Config, openai_configured: bool) -> (r: ConfigResponse)
    ensures
        r.openai_url@ == config.ai.openai.base_url@,
        r.openai_model@ == config.ai.openai.default_model@,
        r.openai_configured == openai_configured,
        r.ollama_url@ == config.ai.ollama.base_url@,
        r.ollama_model@ == config.ai.ollama.default_model@,
        r.default_provider@ == config.ai.default_provider@,
        r.record_titles == config.daemon.record_titles,
        r.retention_days == config.server.retention_days,
        r.weekly_report_enabled == config.server.weekly_report_enabled,
        r.weekly_report_day == config.server.weekly_report_day,
        r.weekly_report_hour == config.server.weekly_report_hour,
        r.weekly_report_minute == config.server.weekly_report_minute,
{
    ConfigResponse {
        openai_url: config.ai.openai.base_url.clone(),
        openai_model: config.ai.openai.default_model.clone(),
        openai_configured,
        ollama_url: config.ai.ollama.base_url.clone(),
        ollama_model: config.ai.ollama.default_model.clone(),
        default_provider: config.ai.default_provider.clone(),
        record_titles: config.daemon.record_titles,
        retention_days: config.server.retention_days,
        weekly_report_enabled: config.server.weekly_report_enabled,
        weekly_report_day: config.server.weekly_report_day,
        weekly_report_hour: config.server.weekly_report_hour,
        weekly_report_minute: config.server.weekly_report_minute,
    }
}

/// A string setting of the `[ai]` section that an update writes back to the
/// configuration file.
#[derive(Debug, Clone, Copy, PartialEq, Eq, Structural)]
pub enum AiSetting {
    DefaultProvider,
    OllamaBaseUrl,
    OllamaModel,
    OpenAiBaseUrl,
    OpenAiApiKey,
    OpenAiModel,
}

/// Its TOML key path.
pub open spec fn toml_path_spec(s: AiSetting) -> Seq<Seq<char>> {
    match s {
        AiSetting::DefaultProvider => seq!["ai"@, "default_provider"@],
        AiSetting::OllamaBaseUrl => seq!["ai"@, "ollama"@, "base_url"@],
        AiSetting::OllamaModel => seq!["ai"@, "ollama"@, "default_model"@],
        AiSetting::OpenAiBaseUrl => seq!["ai"@, "openai"@, "base_url"@],
        AiSetting::OpenAiApiKey => seq!["ai"@, "openai"@, "api_key"@],
        AiSetting::OpenAiModel => seq!["ai"@, "openai"@, "default_model"@],
    }
}

impl AiSetting {
    /// The TOML key path of the setting.
    pub fn toml_path(&self) -> (p: Vec<String>)
        ensures
            p@.map_values(|s: String| s@) == toml_path_spec(*self),
    {
        let mut p: Vec<String> = Vec::new();
        p.push(String::from_str("ai"));
        match self {
            AiSetting::DefaultProvider => {
                p.push(String::from_str("default_provider"));
            },
            AiSetting::OllamaBaseUrl => {
                p.push(String::from_str("ollama"));
                p.push(String::from_str("base_url"));
            },
            AiSetting::OllamaModel => {
                p.push(String::from_str("ollama"));
                p.push(String::from_str("default_model"));
            },
            AiSetting::OpenAiBaseUrl => {
                p.push(String::from_str("openai"));
                p.push(String::from_str("base_url"));
            },
            AiSetting::OpenAiApiKey => {
                p.push(String::from_str("openai"));
                p.push(String::from_str("api_key"));
            },
            AiSetting::OpenAiModel => {
                p.push(String::from_str("openai"));
                p.push(String::from_str("default_model"));
            },
        }
        assert(p@.map_values(|s: String| s@) =~= toml_path_spec(*self));
        p
    }
}

pub open spec fn opt_update(o: Option<String>, s: AiSetting) -> Seq<(AiSetting, Seq<char>)> {
    match o {
        Some(v) => seq![(s, v@)],
        None => Seq::empty(),
    }
}

/// The file writes an update asks for, in this order: OpenAI URL, API key
/// (only a non-empty one), OpenAI model, Ollama URL, Ollama model, default
/// provider. The other settings change the running configuration only.
pub open spec fn file_updates(req: ConfigUpdateRequest) -> Seq<(AiSetting, Seq<char>)> {
    opt_update(req.openai_url, AiSetting::OpenAiBaseUrl) + match req.openai_api_key {
        Some(k) => if k@.len() > 0 {
            seq![(AiSetting::OpenAiApiKey, k@)]
        } else {
            Seq::empty()
        },
        None => Seq::empty(),
    } + opt_update(req.openai_model, AiSetting::OpenAiModel) + opt_update(
        req.ollama_url,
        AiSetting::OllamaBaseUrl,
    ) + opt_update(req.ollama_model, AiSetting::OllamaModel) + opt_update(
        req.default_provider,
        AiSetting::DefaultProvider,
    )
}

pub open spec fn updated_str(old: String, o: Option<String>) -> Seq<char> {
    match o {
        Some(v) => v@,
        None => old@,
    }
}

pub open spec fn update_views(u: Seq<(AiSetting, String)>) -> Seq<(AiSetting, Seq<char>)> {
    u.map_values(|e: (AiSetting, String)| (e.0, e.1@))
}

fn push_update(u: &mut Vec<(AiSetting, String)>, s: AiSetting, v: &String)
    ensures
        update_views(final(u)@) == update_views(old(u)@).push((s, v@)),
{
    let ghost before = update_views(u@);
    u.push((s, v.clone()));
    assert(update_views(u@) =~= before.push((s, v@)));
}

fn set_if_some(field: &mut String, u: &mut Vec<(AiSetting, String)>, setting: AiSetting, v: Option<String>)
    ensures
        final(field)@ == updated_str(*old(field), v),
        update_views(final(u)@) == update_views(old(u)@) + opt_update(v, setting),
{
    let ghost before = update_views(u@);
    match v {
        Some(x) => {
            push_update(u, setting, &x);
            *field = x;
        },
        None => {},
    }
    assert(update_views(u@) =~= before + opt_update(v, setting));
}

/// The `[ai]` part of an update: each given string replaces its setting (an
/// empty API key is ignored), and every change is listed for the file.
fn apply_ai_update(ai: &mut AiConfig, req: ConfigUpdateRequest) -> (u: Vec<(AiSetting, String)>)
    ensures
        update_views(u@) == file_updates(req),
        final(ai).openai.base_url@ == updated_str(old(ai).openai.base_url, req.openai_url),
        final(ai).openai.api_key@ == (match req.openai_api_key {
            Some(k) => if k@.len() > 0 {
                k@
            } else {
                old(ai).openai.api_key@
            },
            None => old(ai).openai.api_key@,
        }),
        final(ai).openai.default_model@ == updated_str(old(ai).openai.default_model, req.openai_model),
        final(ai).ollama.base_url@ == updated_str(old(ai).ollama.base_url, req.ollama_url),
        final(ai).ollama.default_model@ == updated_str(old(ai).ollama.default_model, req.ollama_model),
        final(ai).default_provider@ == updated_str(old(ai).default_provider, req.default_provider),
        final(ai).proactive_interval_minutes == old(ai).proactive_interval_minutes,
{
    let ghost r = req;
    let mut u: Vec<(AiSetting, String)> = Vec::new();
    set_if_some(&mut ai.openai.base_url, &mut u, AiSetting::OpenAiBaseUrl, req.openai_url);
    let key = match req.openai_api_key {
        Some(k) => if k.as_str().unicode_len() > 0 {
            Some(k)
        } else {
            None
        },
        None => None,
    };
    set_if_some(&mut ai.openai.api_key, &mut u, AiSetting::OpenAiApiKey, key);
    set_if_some(&mut ai.openai.default_model, &mut u, AiSetting::OpenAiModel, req.openai_model);
    set_if_some(&mut ai.ollama.base_url, &mut u, AiSetting::OllamaBaseUrl, req.ollama_url);
    set_if_some(&mut ai.ollama.default_model, &mut u, AiSetting::OllamaModel, req.ollama_model);
    set_if_some(&mut ai.default_provider, &mut u, AiSetting::DefaultProvider, req.default_provider);
    assert(update_views(u@) =~= file_updates(r));
    u
}

pub open spec fn updated_u32(old: u32, o: Option<u32>) -> u32 {
    match o {
        Some(v) => v,
        None => old,
    }
}

pub open spec fn updated_bool(old: bool, o: Option<bool>) -> bool {
    match o {
        Some(v) => v,
        None => old,
    }
}

/// Applies an update request to the running configuration and returns the
/// `[ai]` settings to write back to the configuration file; the other
/// settings change in memory only.
pub fn apply_config_update(config: &mut Config, req: ConfigUpdateRequest) -> (u: Vec<(AiSetting, String)>)
    ensures
        update_views(u@) == file_updates(req),
        final(config).ai.openai.base_url@ == updated_str(old(config).ai.openai.base_url, req.openai_url),
        final(config).ai.openai.api_key@ == (match req.openai_api_key {
            Some(k) => if k@.len() > 0 {
                k@
            } else {
                old(config).ai.openai.api_key@
            },
            None => old(config).ai.openai.api_key@,
        }),
        final(config).ai.openai.default_model@ == updated_str(old(config).ai.openai.default_model, req.openai_model),
        final(config).ai.ollama.base_url@ == updated_str(old(config).ai.ollama.base_url, req.ollama_url),
        final(config).ai.ollama.default_model@ == updated_str(old(config).ai.ollama.default_model, req.ollama_model),
        final(config).ai.default_provider@ == updated_str(old(config).ai.default_provider, req.default_provider),
        final(config).ai.proactive_interval_minutes == old(config).ai.proactive_interval_minutes,
        final(config).daemon.record_titles == updated_bool(old(config).daemon.record_titles, req.record_titles),
        final(config).daemon.db_path == old(config).daemon.db_path,
        final(config).daemon.idle_timeout_seconds == old(config).daemon.idle_timeout_seconds,
        final(config).daemon.focused_threshold_seconds == old(config).daemon.focused_threshold_seconds,
        final(config).daemon.enable_input_monitor == old(config).daemon.enable_input_monitor,
        final(config).daemon.break_after_minutes == old(config).daemon.break_after_minutes,
        final(config).daemon.late_night_start_hour == old(config).daemon.late_night_start_hour,
        final(config).daemon.late_night_end_hour == old(config).daemon.late_night_end_hour,
        final(config).daemon.hyprlock_command == old(config).daemon.hyprlock_command,
        final(config).server.host == old(config).server.host,
        final(config).server.port == old(config).server.port,
        final(config).server.retention_days == updated_u32(old(config).server.retention_days, req.retention_days),
        final(config).server.weekly_report_enabled == updated_bool(
            old(config).server.weekly_report_enabled,
            req.weekly_report_enabled,
        ),
        final(config).server.weekly_report_day == updated_u32(old(config).server.weekly_report_day, req.weekly_report_day),
        final(config).server.weekly_report_hour == updated_u32(
            old(config).server.weekly_report_hour,
            req.weekly_report_hour,
        ),
        final(config).server.weekly_report_minute == updated_u32(
            old(config).server.weekly_report_minute,
            req.weekly_report_minute,
        ),
{
    let record_titles = req.record_titles;
    let retention_days = req.retention_days;
    let weekly_report_enabled = req.weekly_report_enabled;
    let weekly_report_day = req.weekly_report_day;
    let weekly_report_hour = req.weekly_report_hour;
    let weekly_report_minute = req.weekly_report_minute;
    let u = apply_ai_update(&mut config.ai, req);
    if let Some(v) = record_titles {
        config.daemon.record_titles = v;
    }
    if let Some(v) = retention_days {
        config.server.retention_days = v;
    }
    if let Some(v) = weekly_report_enabled {
        config.server.weekly_report_enabled = v;
    }
    if let Some(v) = weekly_report_day {
        config.server.weekly_report_day = v;
    }
    if let Some(v) = weekly_report_hour {
        config.server.weekly_report_hour = v;
    }
    if let Some(v) = weekly_report_minute {
        config.server.weekly_report_minute = v;
    }
    u
}

} // verus!
