//! Rows and request bodies shared by the database layer and the HTTP API.
use vstd::prelude::*;

verus! {

/// A pattern -> category rule (`%` and `_` wildcards, ASCII case ignored).
#[derive(Debug, Clone)]
pub struct CategoryRule {
    pub id: Option<i64>,
    pub pattern: String,
    pub category: String,
    pub priority: i64,
}

/// Usage of one hour of a day.
#[derive(Debug, Clone, Copy, PartialEq, Eq)]
pub struct HourlyBucket {
    pub hour: u8,
    pub total_ms: i64,
    pub session_count: i64,
    pub focused_ms: i64,
}

/// One recorded window session.
#[derive(Debug, Clone)]
pub struct Session {
    pub id: i64,
    pub class: String,
    pub title: String,
    pub workspace: Option<String>,
    pub started_at: String,
    pub ended_at: Option<String>,
    pub duration_ms: Option<i64>,
    pub activity_state: Option<String>,
    pub focused_ms: Option<i64>,
}

/// Usage of one app (or all apps) on one day.
#[derive(Debug, Clone)]
pub struct DailyTrend {
    pub date: String,
    pub total_ms: i64,
    pub session_count: i64,
    pub focused_ms: i64,
}

/// One stored message of an AI conversation.
#[derive(Debug, Clone)]
pub struct AiMessage {
    pub id: i64,
    pub created_at: String,
    pub role: String,
    pub content: String,
    pub model: String,
    pub complete: Option<bool>,
}

/// An active / idle / locked stretch of a session.
#[derive(Debug, Clone)]
pub struct ActivityEvent {
    pub id: i64,
    pub session_id: Option<i64>,
    pub state: String,
    pub started_at: String,
    pub ended_at: Option<String>,
    pub duration_ms: Option<i64>,
}

/// A notification, clipboard change or similar interruption.
#[derive(Debug, Clone)]
pub struct DisruptionEvent {
    pub id: i64,
    pub kind: String,
    pub app: Option<String>,
    pub summary: Option<String>,
    pub occurred_at: String,
}

/// A daily usage goal: all usage (`target_type` `"all"`) or one app class
/// (`"class"`, named by `target_key`).
#[derive(Debug, Clone)]
pub struct Goal {
    pub id: Option<i64>,
    pub name: String,
    pub target_type: String,
    pub target_key: Option<String>,
    pub daily_target_ms: i64,
    pub enabled: bool,
}

/// A goal is enabled unless the request says otherwise.
pub fn default_true() -> (b: bool)
    ensures
        b,
{
    true
}

/// A user-defined project that app classes are attributed to.
#[derive(Debug, Clone)]
pub struct Project {
    pub id: Option<i64>,
    pub name: String,
    pub color: String,
    pub sort_order: i64,
}

/// A pattern attributing matching app classes to a project.
#[derive(Debug, Clone)]
pub struct ProjectRule {
    pub id: Option<i64>,
    pub project_id: i64,
    pub pattern: String,
    pub priority: i64,
}

} // verus!
