use hyprtrace::daemon::idle::{
    away_timeout_secs, focus_step, get_idle_duration, idle_tick, loginctl_idle_ms,
    parse_loginctl_idle, poll_interval_secs, ActivityState, IdleAction,
};

#[test]
fn input_monitor_active_uses_physical_input_time() {
    let now = 1_000_000u64;
    let mut a = ActivityState::new(now);
    a.mark_input_monitor_active();
    a.last_input_ms = now - 10_000;
    a.last_activity_ms = now;
    let d = get_idle_duration(&a, now, None);
    assert!(d / 1000 >= 9 && d / 1000 <= 11);
}

#[test]
fn mark_input_activity_updates_both_timestamps() {
    let before = 5_000u64;
    let mut a = ActivityState::new(before);
    a.mark_input_activity(before + 1);
    assert!(a.last_input_ms >= before);
    assert!(a.last_activity_ms >= before);
}

#[test]
fn idle_falls_back_to_loginctl_then_events() {
    let mut a = ActivityState::new(0);
    a.last_activity_ms = 4_000;
    assert_eq!(get_idle_duration(&a, 10_000, Some(42)), 42);
    assert_eq!(get_idle_duration(&a, 10_000, None), 6_000);
    assert_eq!(get_idle_duration(&a, 1_000, None), 0);
    a.mark_activity(10_000);
    assert!(!a.is_idle);
    assert!(!a.is_input_monitor_active());
}

#[test]
fn loginctl_output_parsing() {
    assert_eq!(parse_loginctl_idle("IdleHint=yes\nIdleSinceHint=1700000000000000\n"), Some(Some(1_700_000_000_000_000)));
    assert_eq!(parse_loginctl_idle("IdleHint=no\nIdleSinceHint=1700000000000000\n"), Some(None));
    assert_eq!(parse_loginctl_idle("IdleHint=yes\nIdleSinceHint=0\n"), Some(None));
    assert_eq!(parse_loginctl_idle("IdleHint=yes\r\nIdleSinceHint=5\r\n"), Some(Some(5)));
    assert_eq!(parse_loginctl_idle("IdleHint=yes\nIdleSinceHint=soon\n"), None);
    assert_eq!(parse_loginctl_idle(""), Some(None));
    assert_eq!(loginctl_idle_ms(Some(1_000_000), 4_000_000), 3_000);
    assert_eq!(loginctl_idle_ms(Some(5_000_000), 4_000_000), 0);
    assert_eq!(loginctl_idle_ms(None, 4_000_000), 0);
}

#[test]
fn idle_monitor_timings() {
    assert_eq!(poll_interval_secs(300), 30);
    assert_eq!(poll_interval_secs(60), 15);
    assert_eq!(poll_interval_secs(4), 5);
    assert_eq!(away_timeout_secs(300), 600);
}

#[test]
fn idle_tick_decisions() {
    assert_eq!(idle_tick(true, 1_000, 300_000, 600_000, Some(7), Some(8)), IdleAction::Resume);
    assert_eq!(idle_tick(true, 700_000, 300_000, 600_000, Some(7), None), IdleAction::MarkAway { session_id: 7 });
    assert_eq!(idle_tick(true, 700_000, 300_000, 600_000, None, None), IdleAction::Nothing);
    assert_eq!(idle_tick(true, 400_000, 300_000, 600_000, Some(7), None), IdleAction::Nothing);
    assert_eq!(idle_tick(false, 300_000, 300_000, 600_000, None, Some(9)), IdleAction::EndIdle { session_id: 9 });
    assert_eq!(idle_tick(false, 1_000, 300_000, 600_000, None, Some(9)), IdleAction::CheckFocus { session_id: 9 });
    assert_eq!(idle_tick(false, 1_000, 300_000, 600_000, None, None), IdleAction::Nothing);
    assert_eq!(focus_step(false, 1_200, 1_200), (true, false));
    assert_eq!(focus_step(true, 5_000, 1_200), (false, true));
    assert_eq!(focus_step(false, 10, 1_200), (false, false));
}
