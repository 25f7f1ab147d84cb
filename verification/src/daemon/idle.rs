//! Idle detection: the activity timestamps the monitors update, how long the
//! user has been idle, the `loginctl` idle hint, and the idle monitor's
//! per-tick decisions (end the session on idle, resume on activity, mark a
//! long absence as "away", enter the focused state).
//!
//! Times are milliseconds of a monotonic clock (`now_ms`), supplied by the
//! caller, except the `loginctl` hint, which is wall-clock microseconds.
use vstd::prelude::*;
use crate::text::{
    chars_eq, chars_of, parse_u64, parse_u64_chars, slice_chars, starts_with_chars, std_lines,
    std_lines_chars, views,
};

verus! {

/// When the user was last active, as seen by the event listener and by the
/// physical input monitor.
#[derive(Debug, Clone, Copy, PartialEq, Eq)]
pub struct ActivityState {
    /// Last Hyprland event (window switch, workspace or monitor change); the
    /// fallback idle source.
    pub last_activity_ms: u64,
    /// Last physical keyboard or mouse event; authoritative while the input
    /// monitor runs.
    pub last_input_ms: u64,
    pub is_idle: bool,
    /// Whether the physical input monitor is running.
    input_monitor_active: bool,
}

impl ActivityState {
    /// Last Hyprland event.
    pub closed spec fn last_activity(&self) -> u64 {
        self.last_activity_ms
    }

    /// Last physical keyboard or mouse event.
    pub closed spec fn last_input(&self) -> u64 {
        self.last_input_ms
    }

    /// Whether the user is marked idle.
    pub closed spec fn idle(&self) -> bool {
        self.is_idle
    }

    /// Whether the physical input monitor is running.
    pub closed spec fn monitor_active(&self) -> bool {
        self.input_monitor_active
    }

    /// Everything active just now; the input monitor not running yet.
    pub fn new(now_ms: u64) -> (s: Self)
        ensures
            s.last_activity() == now_ms,
            s.last_input() == now_ms,
            !s.idle(),
            !s.monitor_active(),
    {
        ActivityState {
            last_activity_ms: now_ms,
            last_input_ms: now_ms,
            is_idle: false,
            input_monitor_active: false,
        }
    }

    /// Records a Hyprland event: the user is active.
    pub fn mark_activity(&mut self, now_ms: u64)
        ensures
            final(self).last_activity() == now_ms,
            final(self).last_input() == old(self).last_input(),
            !final(self).idle(),
            final(self).monitor_active() == old(self).monitor_active(),
    {
        self.last_activity_ms = now_ms;
        self.is_idle = false;
    }

    /// Records a physical keyboard or mouse event (which is activity too).
    pub fn mark_input_activity(&mut self, now_ms: u64)
        ensures
            final(self).last_input() == now_ms,
            final(self).last_activity() == now_ms,
            !final(self).idle(),
            final(self).monitor_active() == old(self).monitor_active(),
    {
        self.last_input_ms = now_ms;
        self.mark_activity(now_ms);
    }

    /// The input monitor found devices and is running.
    pub fn mark_input_monitor_active(&mut self)
        ensures
            final(self).monitor_active(),
            final(self).last_activity() == old(self).last_activity(),
            final(self).last_input() == old(self).last_input(),
            final(self).idle() == old(self).idle(),
    {
        self.input_monitor_active = true;
    }

    pub fn is_input_monitor_active(&self) -> (r: bool)
        ensures
            r == self.monitor_active(),
    {
        self.input_monitor_active
    }
}

/// Time elapsed since `then`; zero when the clock reads earlier.
pub open spec fn since(now_ms: int, then_ms: int) -> int {
    if now_ms >= then_ms {
        now_ms - then_ms
    } else {
        0
    }
}

/// How long the user has been idle: since the last physical input while the
/// input monitor runs, else the `loginctl` idle time when it was available,
/// else since the last Hyprland event.
pub open spec fn idle_duration_spec(s: ActivityState, now_ms: int, loginctl_idle_ms: Option<u64>) -> int {
    if s.monitor_active() {
        since(now_ms, s.last_input() as int)
    } else {
        match loginctl_idle_ms {
            Some(d) => d as int,
            None => since(now_ms, s.last_activity() as int),
        }
    }
}

/// Idle time in milliseconds. `loginctl_idle_ms` is consulted only when the
/// input monitor is not running (so it need only be queried then).
pub fn get_idle_duration(state: &ActivityState, now_ms: u64, loginctl_idle_ms: Option<u64>) -> (d: u64)
    ensures
        d == idle_duration_spec(*state, now_ms as int, loginctl_idle_ms),
{
    if state.is_input_monitor_active() {
        if now_ms >= state.last_input_ms {
            now_ms - state.last_input_ms
        } else {
            0
        }
    } else {
        match loginctl_idle_ms {
            Some(d) => d,
            None => if now_ms >= state.last_activity_ms {
                now_ms - state.last_activity_ms
            } else {
                0
            },
        }
    }
}

/// What `loginctl show-user --property=IdleHint --property=IdleSinceHint`
/// printed, line by line: whether a line reads exactly `IdleHint=yes`, and
/// the value of the last `IdleSinceHint=` line (0 without one). `None` when
/// such a value is not a `u64`.
pub open spec fn loginctl_fields(lines: Seq<Seq<char>>) -> Option<(bool, u64)>
    decreases lines.len(),
{
    if lines.len() == 0 {
        Some((false, 0))
    } else {
        match loginctl_fields(lines.drop_last()) {
            None => None,
            Some((hint, since_us)) => {
                let l = lines.last();
                if l == "IdleHint=yes"@ {
                    Some((true, since_us))
                } else if l.len() >= 14 && l.take(14) == "IdleSinceHint="@ {
                    match parse_u64(l.skip(14)) {
                        Some(v) => Some((hint, v)),
                        None => None,
                    }
                } else {
                    Some((hint, since_us))
                }
            },
        }
    }
}

/// The idle start from `loginctl`'s output: `Some(None)` when the session
/// is not idle (no hint, or no start time), `Some(Some(us))` with the idle
/// start in microseconds since the Unix epoch, `None` when the output is
/// unusable.
pub open spec fn loginctl_idle_since_spec(out: Seq<char>) -> Option<Option<u64>> {
    match loginctl_fields(std_lines(out)) {
        None => None,
        Some((hint, since_us)) => if !hint || since_us == 0 {
            Some(None)
        } else {
            Some(Some(since_us))
        },
    }
}

/// Parses `loginctl`'s idle properties.
pub fn parse_loginctl_idle(out: &str) -> (r: Option<Option<u64>>)
    ensures
        r == loginctl_idle_since_spec(out@),
{
    let text = chars_of(out);
    let lines = std_lines_chars(&text);
    let ghost lv = views(lines@);
    let yes = chars_of("IdleHint=yes");
    let prefix = chars_of("IdleSinceHint=");
    proof {
        reveal_strlit("IdleSinceHint=");
    }
    let mut hint = false;
    let mut since_us: u64 = 0;
    let mut i: usize = 0;
    while i < lines.len()
        invariant
            i <= lines@.len(),
            lv == views(lines@),
            lv == std_lines(out@),
            lv.len() == lines@.len(),
            yes@ == "IdleHint=yes"@,
            prefix@ == "IdleSinceHint="@,
            prefix@.len() == 14,
            loginctl_fields(lv.take(i as int)) == Some((hint, since_us)),
        decreases lines@.len() - i,
    {
        let l = &lines[i];
        proof {
            assert(lv.take(i + 1).drop_last() =~= lv.take(i as int));
            assert(lv.take(i + 1).last() == l@);
        }
        if chars_eq(l, &yes) {
            hint = true;
        } else if starts_with_chars(l, &prefix) {
            let v = slice_chars(l, 14, l.len());
            assert(v@ == l@.skip(14));
            match parse_u64_chars(&v) {
                Some(x) => {
                    since_us = x;
                },
                None => {
                    proof {
                        assert(loginctl_fields(lv.take(i + 1)) is None);
                        lemma_loginctl_none_sticks(lv, i as int + 1);
                    }
                    return None;
                },
            }
        }
        i = i + 1;
    }
    assert(lv.take(lv.len() as int) =~= lv);
    if !hint || since_us == 0 {
        Some(None)
    } else {
        Some(Some(since_us))
    }
}

proof fn lemma_loginctl_none_sticks(lines: Seq<Seq<char>>, k: int)
    requires
        0 <= k <= lines.len(),
        loginctl_fields(lines.take(k)) is None,
    ensures
        loginctl_fields(lines) is None,
    decreases lines.len() - k,
{
    if k < lines.len() {
        assert(lines.take(k + 1).drop_last() =~= lines.take(k));
        lemma_loginctl_none_sticks(lines, k + 1);
    } else {
        assert(lines.take(k) =~= lines);
    }
}

/// Idle time in milliseconds from the idle start and the wall clock (both
/// in microseconds); zero when the clock reads earlier than the start.
pub fn loginctl_idle_ms(idle_since_us: Option<u64>, now_us: u64) -> (d: u64)
    ensures
        d == (match idle_since_us {
            Some(s) => since(now_us as int, s as int) / 1000,
            None => 0,
        }),
{
    match idle_since_us {
        Some(s) => if now_us >= s {
            (now_us - s) / 1000
        } else {
            0
        },
        None => 0,
    }
}

/// How often the idle monitor checks: a quarter of the idle timeout, kept
/// within 5 to 30 seconds.
pub fn poll_interval_secs(idle_timeout_seconds: u64) -> (p: u64)
    ensures
        p == (if idle_timeout_seconds / 4 < 5 {
            5
        } else if idle_timeout_seconds / 4 > 30 {
            30
        } else {
            idle_timeout_seconds / 4
        }),
        5 <= p <= 30,
{
    let q = idle_timeout_seconds / 4;
    if q < 5 {
        5
    } else if q > 30 {
        30
    } else {
        q
    }
}

/// A session ended for idleness becomes "away" after twice the idle timeout.
pub fn away_timeout_secs(idle_timeout_seconds: u64) -> (a: u64)
    requires
        idle_timeout_seconds <= u64::MAX / 2,
    ensures
        a == 2 * idle_timeout_seconds,
{
    idle_timeout_seconds * 2
}

/// What one tick of the idle monitor does.
#[derive(Debug, Clone, Copy, PartialEq, Eq)]
pub enum IdleAction {
    /// Nothing to do.
    Nothing,
    /// The user is back: clear the idle flag and the remembered session,
    /// and start a session for the active window.
    Resume,
    /// Still away past the away timeout: mark this ended session "away"
    /// (and forget it).
    MarkAway { session_id: i64 },
    /// Idle past the timeout: mark this session idle, store its focused
    /// time, end it, set the idle flag and remember the session.
    EndIdle { session_id: i64 },
    /// Active and a session is running: check how long it has lasted.
    CheckFocus { session_id: i64 },
}

/// The decision of one tick, from the idle flag, the idle time, the two
/// timeouts, the session that the last idle ended (if any) and the current
/// session (if any).
pub open spec fn idle_tick_spec(
    is_idle: bool,
    idle_ms: int,
    timeout_ms: int,
    away_timeout_ms: int,
    last_idle_ended: Option<i64>,
    current_session: Option<i64>,
) -> IdleAction {
    if is_idle {
        if idle_ms < timeout_ms {
            IdleAction::Resume
        } else if idle_ms >= away_timeout_ms {
            match last_idle_ended {
                Some(id) => IdleAction::MarkAway { session_id: id },
                None => IdleAction::Nothing,
            }
        } else {
            IdleAction::Nothing
        }
    } else {
        match current_session {
            None => IdleAction::Nothing,
            Some(id) => if idle_ms >= timeout_ms {
                IdleAction::EndIdle { session_id: id }
            } else {
                IdleAction::CheckFocus { session_id: id }
            },
        }
    }
}

/// Decides what the idle monitor does on this tick.
pub fn idle_tick(
    is_idle: bool,
    idle_ms: u64,
    timeout_ms: u64,
    away_timeout_ms: u64,
    last_idle_ended: Option<i64>,
    current_session: Option<i64>,
) -> (a: IdleAction)
    ensures
        a == idle_tick_spec(
            is_idle,
            idle_ms as int,
            timeout_ms as int,
            away_timeout_ms as int,
            last_idle_ended,
            current_session,
        ),
{
    if is_idle {
        if idle_ms < timeout_ms {
            IdleAction::Resume
        } else if idle_ms >= away_timeout_ms {
            match last_idle_ended {
                Some(id) => IdleAction::MarkAway { session_id: id },
                None => IdleAction::Nothing,
            }
        } else {
            IdleAction::Nothing
        }
    } else {
        match current_session {
            None => IdleAction::Nothing,
            Some(id) => if idle_ms >= timeout_ms {
                IdleAction::EndIdle { session_id: id }
            } else {
                IdleAction::CheckFocus { session_id: id }
            },
        }
    }
}

/// For a running, active session: `(enter_focused, refresh_focused_ms)`. A
/// session not yet focused becomes focused once it has lasted the focus
/// threshold; a session that was focused when the tick began has its
/// running focused time stored.
pub fn focus_step(is_focused: bool, session_elapsed_secs: u64, focused_threshold_seconds: u64) -> (r: (bool, bool))
    ensures
        r.0 == (!is_focused && session_elapsed_secs >= focused_threshold_seconds),
        r.1 == is_focused,
{
    (!is_focused && session_elapsed_secs >= focused_threshold_seconds, is_focused)
}

/// An idle user who comes back is resumed, whatever happened while away;
/// and only an idle user is ever resumed or marked away.
pub proof fn law_idle_tick_consistent(
    is_idle: bool,
    idle_ms: int,
    timeout_ms: int,
    away_timeout_ms: int,
    last: Option<i64>,
    cur: Option<i64>,
)
    ensures
        is_idle && idle_ms < timeout_ms ==> idle_tick_spec(is_idle, idle_ms, timeout_ms, away_timeout_ms, last, cur)
            == IdleAction::Resume,
        idle_tick_spec(is_idle, idle_ms, timeout_ms, away_timeout_ms, last, cur) matches IdleAction::Resume
            ==> is_idle,
        idle_tick_spec(is_idle, idle_ms, timeout_ms, away_timeout_ms, last, cur) matches IdleAction::MarkAway { .. }
            ==> is_idle && idle_ms >= away_timeout_ms,
        idle_tick_spec(is_idle, idle_ms, timeout_ms, away_timeout_ms, last, cur) matches IdleAction::EndIdle { .. }
            ==> !is_idle && idle_ms >= timeout_ms,
{
}

} // verus!
