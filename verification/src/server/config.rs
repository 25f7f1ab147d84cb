//! The web server's view of `config.toml`: its sections, their defaults, the
//! database path with `~` expanded and where the file itself lives.
use vstd::prelude::*;
use crate::paths::{expand_tilde, expand_tilde_spec, home_dir_or_root, home_or_root, join, join_spec};

verus! {

/// The whole configuration file; every section falls back to its default.
#[derive(Debug, Clone)]
pub struct Config {
    pub daemon: DaemonConfig,
    pub server: ServerConfig,
    pub ai: AiConfig,
}

/// `[daemon]`: what the tracker records and when it reminds.
#[derive(Debug, Clone)]
pub struct DaemonConfig {
    pub db_path: String,
    pub idle_timeout_seconds: u64,
    pub focused_threshold_seconds: u64,
    pub enable_input_monitor: bool,
    pub record_titles: bool,
    pub break_after_minutes: u64,
    pub late_night_start_hour: u32,
    pub late_night_end_hour: u32,
    pub hyprlock_command: Option<String>,
}

pub fn default_db_path() -> (s: String)
    ensures
        s@ == "~/.local/share/hyprtrace/hyprtrace.db"@,
{
    String::from_str("~/.local/share/hyprtrace/hyprtrace.db")
}

pub fn default_idle_timeout() -> (n: u64)
    ensures
        n == 300,
{
    300
}

pub fn default_focused_threshold() -> (n: u64)
    ensures
        n == 20 * 60,
{
    20 * 60
}

pub fn default_enable_input_monitor() -> (b: bool)
    ensures
        b,
{
    true
}

pub fn default_record_titles() -> (b: bool)
    ensures
        b,
{
    true
}

pub fn default_break_after_minutes() -> (n: u64)
    ensures
        n == 90,
{
    90
}

pub fn default_late_night_start() -> (h: u32)
    ensures
        h == 23,
{
    23
}

pub fn default_late_night_end() -> (h: u32)
    ensures
        h == 6,
{
    6
}

impl Default for DaemonConfig {
    fn default() -> (c: Self)
        ensures
            c.db_path@ == "~/.local/share/hyprtrace/hyprtrace.db"@,
            c.idle_timeout_seconds == 300,
            c.focused_threshold_seconds == 1200,
            c.enable_input_monitor,
            c.record_titles,
            c.break_after_minutes == 90,
            c.late_night_start_hour == 23,
            c.late_night_end_hour == 6,
            c.hyprlock_command is None,
    {
        DaemonConfig {
            db_path: default_db_path(),
            idle_timeout_seconds: default_idle_timeout(),
            focused_threshold_seconds: default_focused_threshold(),
            enable_input_monitor: default_enable_input_monitor(),
            record_titles: default_record_titles(),
            break_after_minutes: default_break_after_minutes(),
            late_night_start_hour: default_late_night_start(),
            late_night_end_hour: default_late_night_end(),
            hyprlock_command: None,
        }
    }
}

/// `[server]`: where the web server listens, how long data is kept (0 keeps
/// everything) and when the weekly report is generated.
#[derive(Debug, Clone)]
pub struct ServerConfig {
    pub host: String,
    pub port: u16,
    pub retention_days: u32,
    pub weekly_report_enabled: bool,
    pub weekly_report_day: u32,
    pub weekly_report_hour: u32,
    pub weekly_report_minute: u32,
}

pub fn default_host() -> (s: String)
    ensures
        s@ == "127.0.0.1"@,
{
    String::from_str("127.0.0.1")
}

pub fn default_port() -> (p: u16)
    ensures
        p == 9420,
{
    9420
}

pub fn default_weekly_report_day() -> (d: u32)
    ensures
        d == 1,
{
    1
}

pub fn default_weekly_report_hour() -> (h: u32)
    ensures
        h == 9,
{
    9
}

pub fn default_weekly_report_minute() -> (m: u32)
    ensures
        m == 0,
{
    0
}

impl Default for ServerConfig {
    fn default() -> (c: Self)
        ensures
            c.host@ == "127.0.0.1"@,
            c.port == 9420,
            c.retention_days == 0,
            !c.weekly_report_enabled,
            c.weekly_report_day == 1,
            c.weekly_report_hour == 9,
            c.weekly_report_minute == 0,
    {
        ServerConfig {
            host: default_host(),
            port: default_port(),
            retention_days: 0,
            weekly_report_enabled: false,
            weekly_report_day: default_weekly_report_day(),
            weekly_report_hour: default_weekly_report_hour(),
            weekly_report_minute: default_weekly_report_minute(),
        }
    }
}

/// `[ai]`: which provider answers, how to reach each one, and how often the
/// proactive assistant looks at the day.
#[derive(Debug, Clone)]
pub struct AiConfig {
    pub default_provider: String,
    pub ollama: OllamaConfig,
    pub openai: OpenAiConfig,
    pub proactive_interval_minutes: u64,
}

pub fn default_proactive_interval() -> (m: u64)
    ensures
        m == 120,
{
    120
}

pub fn default_ai_provider() -> (s: String)
    ensures
        s@ == "ollama"@,
{
    String::from_str("ollama")
}

impl Default for AiConfig {
    fn default() -> (c: Self)
        ensures
            c.default_provider@ == "ollama"@,
            c.ollama.base_url@ == "http://localhost:11434"@,
            c.ollama.default_model@ == "qwen2.5:7b"@,
            c.openai.api_key@ == Seq::<char>::empty(),
            c.openai.base_url@ == "https://api.openai.com/v1"@,
            c.openai.default_model@ == "gpt-4o-mini"@,
            c.proactive_interval_minutes == 120,
    {
        AiConfig {
            default_provider: default_ai_provider(),
            ollama: OllamaConfig::default(),
            openai: OpenAiConfig::default(),
            proactive_interval_minutes: default_proactive_interval(),
        }
    }
}

/// `[ai.ollama]`.
#[derive(Debug, Clone)]
pub struct OllamaConfig {
    pub base_url: String,
    pub default_model: String,
}

pub fn default_ollama_url() -> (s: String)
    ensures
        s@ == "http://localhost:11434"@,
{
    String::from_str("http://localhost:11434")
}

pub fn default_ollama_model() -> (s: String)
    ensures
        s@ == "qwen2.5:7b"@,
{
    String::from_str("qwen2.5:7b")
}

impl Default for OllamaConfig {
    fn default() -> (c: Self)
        ensures
            c.base_url@ == "http://localhost:11434"@,
            c.default_model@ == "qwen2.5:7b"@,
    {
        OllamaConfig { base_url: default_ollama_url(), default_model: default_ollama_model() }
    }
}

/// `[ai.openai]` (any OpenAI-compatible endpoint).
#[derive(Debug, Clone)]
pub struct OpenAiConfig {
    pub api_key: String,
    pub base_url: String,
    pub default_model: String,
}

pub fn default_openai_url() -> (s: String)
    ensures
        s@ == "https://api.openai.com/v1"@,
{
    String::from_str("https://api.openai.com/v1")
}

pub fn default_openai_model() -> (s: String)
    ensures
        s@ == "gpt-4o-mini"@,
{
    String::from_str("gpt-4o-mini")
}

impl Default for OpenAiConfig {
    fn default() -> (c: Self)
        ensures
            c.api_key@ == Seq::<char>::empty(),
            c.base_url@ == "https://api.openai.com/v1"@,
            c.default_model@ == "gpt-4o-mini"@,
    {
        OpenAiConfig {
            api_key: String::new(),
            base_url: default_openai_url(),
            default_model: default_openai_model(),
        }
    }
}

impl Default for Config {
    fn default() -> (c: Self)
        ensures
            c.daemon.db_path@ == "~/.local/share/hyprtrace/hyprtrace.db"@,
            c.daemon.idle_timeout_seconds == 300,
            c.daemon.focused_threshold_seconds == 1200,
            c.daemon.enable_input_monitor,
            c.daemon.record_titles,
            c.daemon.break_after_minutes == 90,
            c.daemon.late_night_start_hour == 23,
            c.daemon.late_night_end_hour == 6,
            c.daemon.hyprlock_command is None,
            c.server.host@ == "127.0.0.1"@,
            c.server.port == 9420,
            c.server.retention_days == 0,
            !c.server.weekly_report_enabled,
            c.server.weekly_report_day == 1,
            c.server.weekly_report_hour == 9,
            c.server.weekly_report_minute == 0,
            c.ai.proactive_interval_minutes == 120,
            c.ai.default_provider@ == "ollama"@,
            c.ai.ollama.base_url@ == "http://localhost:11434"@,
            c.ai.ollama.default_model@ == "qwen2.5:7b"@,
            c.ai.openai.api_key@ == Seq::<char>::empty(),
            c.ai.openai.base_url@ == "https://api.openai.com/v1"@,
            c.ai.openai.default_model@ == "gpt-4o-mini"@,
    {
        Config {
            daemon: DaemonConfig::default(),
            server: ServerConfig::default(),
            ai: AiConfig::default(),
        }
    }
}

/// `$HOME/.config/hyprtrace/config.toml` (`/root` standing in for an unset
/// `$HOME`).
pub open spec fn config_path_spec(home: Seq<char>) -> Seq<char> {
    join_spec(join_spec(home, ".config/hyprtrace"@), "config.toml"@)
}

impl Config {
    /// Where the configuration file is read from and saved to.
    pub fn config_path(home: &Option<String>) -> (p: String)
        ensures
            p@ == config_path_spec(
                home_or_root(match home {
                    Some(h) => Some(h@),
                    None => None,
                }),
            ),
    {
        let h = home_dir_or_root(home);
        let dir = join(h.as_str(), ".config/hyprtrace");
        join(dir.as_str(), "config.toml")
    }

    /// The database path with a leading `~` expanded to `$HOME` (given as
    /// `home`; `/root` when it is not set).
    pub fn db_path_expanded(&self, home: &Option<String>) -> (p: String)
        ensures
            p@ == expand_tilde_spec(
                self.daemon.db_path@,
                home_or_root(match home {
                    Some(h) => Some(h@),
                    None => None,
                }),
            ),
    {
        let h = home_dir_or_root(home);
        expand_tilde(self.daemon.db_path.as_str(), h.as_str())
    }
}

} // verus!
