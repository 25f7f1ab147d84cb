//! The figures stored when a window session ends or is refreshed: its
//! duration from the monotonic clock, its focused part, and its start time
//! rewritten when the wall clock jumped while it ran. Also which session a
//! window change ends and starts.
use vstd::prelude::*;
use crate::text::{lowercase, str_eq, to_lowercase};

verus! {

/// What ending a session stores.
#[derive(Debug, Clone, Copy, PartialEq, Eq)]
pub struct SessionEnd {
    /// Never negative.
    pub duration_ms: i64,
    /// The part of the duration beyond the focus threshold (never negative).
    pub focused_ms: i64,
    /// Start instant to store, in milliseconds since the Unix epoch.
    pub started_ms: i64,
    /// Whether the start instant was rewritten.
    pub clock_jumped: bool,
}

/// `max(0, duration - threshold)`.
pub open spec fn focused_part(duration_ms: int, threshold_ms: int) -> int {
    if duration_ms - threshold_ms > 0 {
        duration_ms - threshold_ms
    } else {
        0
    }
}

pub open spec fn abs(x: int) -> int {
    if x < 0 {
        -x
    } else {
        x
    }
}

/// The session's end figures. The duration is the monotonic elapsed time
/// when it is known, else the wall-clock time since the start (never
/// negative). When the wall-clock span and the duration disagree by more
/// than a second, the wall clock jumped while the session ran, and the start
/// is rewritten to `now - duration` so the stored timestamps stay ordered.
pub open spec fn end_spec(now_ms: int, started_ms: int, elapsed_ms: Option<i64>, threshold_ms: int) -> SessionEnd {
    let wall = now_ms - started_ms;
    let duration: int = match elapsed_ms {
        Some(e) => e as int,
        None => if wall > 0 {
            wall
        } else {
            0
        },
    };
    let jumped = abs(wall - duration) > 1000;
    SessionEnd {
        duration_ms: duration as i64,
        focused_ms: focused_part(duration, threshold_ms) as i64,
        started_ms: (if jumped {
            now_ms - duration
        } else {
            started_ms
        }) as i64,
        clock_jumped: jumped,
    }
}

/// Computes what ending a session stores, from the wall clock now, the
/// stored start, the monotonic elapsed time (when this process started the
/// session) and the focus threshold.
pub fn end_figures(now_ms: i64, started_ms: i64, elapsed_ms: Option<i64>, focused_threshold_ms: i64) -> (r: SessionEnd)
    requires
        i64::MIN <= now_ms - started_ms <= i64::MAX,
        elapsed_ms matches Some(e) ==> 0 <= e && i64::MIN <= now_ms - e,
        focused_threshold_ms >= 0,
    ensures
        r == end_spec(now_ms as int, started_ms as int, elapsed_ms, focused_threshold_ms as int),
        r.duration_ms >= 0,
        0 <= r.focused_ms <= r.duration_ms,
        r.clock_jumped ==> r.started_ms + r.duration_ms == now_ms,
        !r.clock_jumped ==> r.started_ms == started_ms && abs(now_ms - started_ms - r.duration_ms) <= 1000,
{
    let wall: i64 = now_ms - started_ms;
    let duration: i64 = match elapsed_ms {
        Some(e) => e,
        None => if wall > 0 {
            wall
        } else {
            0
        },
    };
    let diff: i128 = wall as i128 - duration as i128;
    let jumped = diff > 1000 || diff < -1000;
    let started = if jumped {
        now_ms - duration
    } else {
        started_ms
    };
    SessionEnd {
        duration_ms: duration,
        focused_ms: focused_ms(duration, focused_threshold_ms),
        started_ms: started,
        clock_jumped: jumped,
    }
}

/// The running focused time of a session: its elapsed time beyond the
/// focus threshold.
pub fn focused_ms(duration_ms: i64, focused_threshold_ms: i64) -> (f: i64)
    requires
        focused_threshold_ms >= 0,
    ensures
        f == focused_part(duration_ms as int, focused_threshold_ms as int),
{
    if duration_ms > focused_threshold_ms {
        duration_ms - focused_threshold_ms
    } else {
        0
    }
}

/// The focus threshold in milliseconds, as the database layer keeps it.
pub fn focused_threshold_ms(focused_threshold_seconds: u64) -> (ms: i64)
    requires
        focused_threshold_seconds <= u64::MAX / 1000,
    ensures
        ms == (focused_threshold_seconds * 1000) as i64,
{
    (focused_threshold_seconds * 1000) as i64
}

/// Milliseconds elapsed on the monotonic clock as stored: saturated to
/// `i64::MAX`.
pub fn elapsed_ms(elapsed_millis: u128) -> (ms: i64)
    ensures
        ms == (if elapsed_millis > i64::MAX as u128 {
            i64::MAX as int
        } else {
            elapsed_millis as int
        }),
{
    if elapsed_millis > i64::MAX as u128 {
        i64::MAX
    } else {
        elapsed_millis as i64
    }
}

/// The wall-clock duration of an activity event, never negative.
pub fn event_duration_ms(now_ms: i64, started_ms: i64) -> (d: i64)
    requires
        i64::MIN <= now_ms - started_ms <= i64::MAX,
    ensures
        d == (if now_ms - started_ms > 0 {
            now_ms - started_ms
        } else {
            0
        }),
{
    let d = now_ms - started_ms;
    if d > 0 {
        d
    } else {
        0
    }
}

/// How long the current session has been focused: its elapsed time when
/// its state is `focused`, else zero.
pub fn current_focused_duration_ms(state: &str, elapsed_ms: i64) -> (d: i64)
    ensures
        d == (if state@ == "focused"@ {
            if elapsed_ms > 0 {
                elapsed_ms as int
            } else {
                0
            }
        } else {
            0
        }),
{
    if str_eq(state, "focused") {
        if elapsed_ms > 0 {
            elapsed_ms
        } else {
            0
        }
    } else {
        0
    }
}

/// Counted in the daily summary's focused sessions: `1` for a session whose
/// state is `focused`, else `0`.
pub fn focused_session_count(state: &str) -> (n: i64)
    ensures
        n == (if state@ == "focused"@ {
            1int
        } else {
            0
        }),
{
    if str_eq(state, "focused") {
        1
    } else {
        0
    }
}

/// A window change ends the running session and, when a window got focus,
/// starts one for it (class lowercased, title as is). Returns the class and
/// title of the session to start.
pub fn window_change(active: Option<(String, String)>) -> (r: Option<(String, String)>)
    ensures
        match (active, r) {
            (Some((c, t)), Some((c2, t2))) => c2@ == lowercase(c@) && t2@ == t@,
            (None, None) => true,
            _ => false,
        },
{
    match active {
        Some((class, title)) => Some((to_lowercase(class.as_str()), title)),
        None => None,
    }
}

/// The stored duration and focused time are never negative and the focused
/// part never exceeds the duration; a rewritten start plus the duration is
/// exactly the end, so a session never ends before it starts.
pub proof fn law_session_end_ordered(now_ms: int, started_ms: int, elapsed_ms: Option<i64>, threshold_ms: int)
    requires
        i64::MIN <= now_ms <= i64::MAX,
        i64::MIN <= started_ms <= i64::MAX,
        i64::MIN <= now_ms - started_ms <= i64::MAX,
        elapsed_ms matches Some(e) ==> 0 <= e && i64::MIN <= now_ms - e,
        0 <= threshold_ms <= i64::MAX,
    ensures
        ({
            let r = end_spec(now_ms, started_ms, elapsed_ms, threshold_ms);
            &&& r.duration_ms >= 0
            &&& 0 <= r.focused_ms <= r.duration_ms
            &&& r.started_ms <= now_ms + 1000
            &&& r.clock_jumped ==> r.started_ms <= now_ms
        }),
{
}

} // verus!
