//! `/api/insights/*` query parameters: their defaults and the clamps applied
//! before the analytics run (limit <= 100, days <= 365, window <= 90,
//! min_ms <= 3_600_000, co-occurrence window <= one day).
use vstd::prelude::*;

verus! {

pub const MAX_LIMIT: usize = 100;
pub const MAX_DAYS: i64 = 365;
pub const MAX_WINDOW: i64 = 90;
pub const MAX_MIN_MS: i64 = 3_600_000;

pub open spec fn clamp_spec(v: int, lo: int, hi: int) -> int {
    if v < lo {
        lo
    } else if v > hi {
        hi
    } else {
        v
    }
}

/// `v.clamp(lo, hi)` on `i64`.
pub fn clamp_i64(v: i64, lo: i64, hi: i64) -> (r: i64)
    requires
        lo <= hi,
    ensures
        r == clamp_spec(v as int, lo as int, hi as int),
{
    if v < lo {
        lo
    } else if v > hi {
        hi
    } else {
        v
    }
}

/// `v.clamp(lo, hi)` on `usize`.
pub fn clamp_usize(v: usize, lo: usize, hi: usize) -> (r: usize)
    requires
        lo <= hi,
    ensures
        r == clamp_spec(v as int, lo as int, hi as int),
{
    if v < lo {
        lo
    } else if v > hi {
        hi
    } else {
        v
    }
}

#[derive(Debug, Clone)]
pub struct TransitionsQuery {
    pub from: Option<String>,
    pub to: Option<String>,
    pub min_ms: i64,
    pub limit: usize,
}

pub fn default_min_ms() -> (n: i64)
    ensures
        n == 3_000,
{
    3_000
}

pub fn default_limit() -> (n: usize)
    ensures
        n == 12,
{
    12
}

impl TransitionsQuery {
    /// `(min_ms, limit)` clamped to `0..=3_600_000` and `1..=100`.
    pub fn clamped(&self) -> (r: (i64, usize))
        ensures
            r.0 == clamp_spec(self.min_ms as int, 0, MAX_MIN_MS as int),
            r.1 == clamp_spec(self.limit as int, 1, MAX_LIMIT as int),
    {
        (clamp_i64(self.min_ms, 0, MAX_MIN_MS), clamp_usize(self.limit, 1, MAX_LIMIT))
    }
}

#[derive(Debug, Clone)]
pub struct ForecastQuery {
    pub class: Option<String>,
    pub days: i64,
    pub horizon: i64,
}

pub fn default_forecast_days() -> (n: i64)
    ensures
        n == 30,
{
    30
}

pub fn default_horizon() -> (n: i64)
    ensures
        n == 7,
{
    7
}

impl ForecastQuery {
    /// `(class, days, horizon)`: an empty class means all apps, `days` is
    /// clamped to `1..=365` and `horizon` to `0..=365`.
    pub fn clamped(&self) -> (r: (Option<String>, i64, i64))
        ensures
            match (self.class, r.0) {
                (Some(c), Some(k)) => c@.len() > 0 && k@ == c@,
                (Some(c), None) => c@.len() == 0,
                (None, None) => true,
                (None, Some(_)) => false,
            },
            r.1 == clamp_spec(self.days as int, 1, MAX_DAYS as int),
            r.2 == clamp_spec(self.horizon as int, 0, MAX_DAYS as int),
    {
        let class = match &self.class {
            Some(c) => if c.as_str().unicode_len() > 0 {
                Some(c.clone())
            } else {
                None
            },
            None => None,
        };
        (class, clamp_i64(self.days, 1, MAX_DAYS), clamp_i64(self.horizon, 0, MAX_DAYS))
    }
}

#[derive(Debug, Clone)]
pub struct RangeQuery {
    pub from: Option<String>,
    pub to: Option<String>,
}

#[derive(Debug, Clone)]
pub struct CooccurrenceQuery {
    pub from: Option<String>,
    pub to: Option<String>,
    pub window_minutes: i64,
    pub limit: usize,
}

pub fn default_window_minutes() -> (n: i64)
    ensures
        n == 30,
{
    30
}

pub fn default_cooc_limit() -> (n: usize)
    ensures
        n == 10,
{
    10
}

impl CooccurrenceQuery {
    /// `(window_minutes, limit)` clamped to `1..=1440` and `1..=100`.
    pub fn clamped(&self) -> (r: (i64, usize))
        ensures
            r.0 == clamp_spec(self.window_minutes as int, 1, 1440),
            r.1 == clamp_spec(self.limit as int, 1, MAX_LIMIT as int),
    {
        (clamp_i64(self.window_minutes, 1, 1_440), clamp_usize(self.limit, 1, MAX_LIMIT))
    }
}

/// Default baseline window of the anomaly detector, in days.
pub fn default_anomaly_window() -> (n: i64)
    ensures
        n == 14,
{
    14
}

/// The anomaly baseline window clamped to `1..=90` days.
pub fn anomaly_window(requested: i64) -> (n: i64)
    ensures
        n == clamp_spec(requested as int, 1, MAX_WINDOW as int),
{
    clamp_i64(requested, 1, MAX_WINDOW)
}

} // verus!
