use hyprtrace::daemon::disruption::{clipboard_changed, fnv1a_short, NotifyParser};
use hyprtrace::daemon::input::{is_activity_event, is_ignored_key, is_user_input_device};
use hyprtrace::daemon::resource::{cpu_count, jiffies_since, sample_interval_secs, CpuReading};
use hyprtrace::daemon::session::{
    current_focused_duration_ms, elapsed_ms, end_figures, event_duration_ms, focused_ms,
    focused_session_count, focused_threshold_ms, window_change,
};
use hyprtrace::daemon::wellbeing::{
    check_interval_secs, in_late_night_window, split_command, wellbeing_step, RemindedHours,
};

#[test]
fn power_and_switch_keys_are_ignored() {
    for k in [116u16, 356, 142, 205, 143] {
        assert!(is_ignored_key(k), "{k} should be ignored");
    }
}

#[test]
fn normal_keys_are_not_ignored() {
    // KEY_A, KEY_ENTER, BTN_LEFT
    for k in [30u16, 28, 0x110] {
        assert!(!is_ignored_key(k), "{k} must count as real input");
    }
}

#[test]
fn input_devices_and_events() {
    assert!(is_user_input_device(true, &vec![116, 30]));
    assert!(!is_user_input_device(true, &vec![116, 356]));
    assert!(!is_user_input_device(false, &vec![30]));
    assert!(is_activity_event(1));
    assert!(is_activity_event(2));
    assert!(!is_activity_event(0));
}

#[test]
fn session_end_uses_monotonic_duration() {
    let e = end_figures(1_000_000, 400_000, Some(600_000), 300_000);
    assert_eq!(e.duration_ms, 600_000);
    assert_eq!(e.focused_ms, 300_000);
    assert!(!e.clock_jumped);
    assert_eq!(e.started_ms, 400_000);
}

#[test]
fn end_session_clamps_clock_going_backwards() {
    // A session whose stored start lies an hour in the future (the wall
    // clock was set back while it ran) and that this process did not start
    // (no monotonic reading): no negative duration, and start <= end.
    let now: i64 = 1_788_220_800_000;
    let future = now + 60 * 60_000;
    let e = end_figures(now, future, None, 20 * 60 * 1000);
    assert!(e.duration_ms >= 0);
    assert!(now >= e.started_ms);
    assert!(e.focused_ms >= 0);
}

#[test]
fn clock_jump_rewrites_start_from_monotonic_duration() {
    let now = 1_000_000_000;
    let started = now + 3_600_000;
    let e = end_figures(now, started, Some(300_000), 1_200_000);
    assert_eq!(e.duration_ms, 300_000);
    assert!(e.clock_jumped);
    assert_eq!(e.started_ms, now - 300_000);
    assert_eq!(e.focused_ms, 0);
}

#[test]
fn session_helpers() {
    assert_eq!(focused_ms(1_500_000, 1_200_000), 300_000);
    assert_eq!(focused_ms(1_000, 1_200_000), 0);
    assert_eq!(focused_threshold_ms(1200), 1_200_000);
    assert_eq!(elapsed_ms(5), 5);
    assert_eq!(elapsed_ms(u128::MAX), i64::MAX);
    assert_eq!(event_duration_ms(10, 20), 0);
    assert_eq!(event_duration_ms(20, 10), 10);
    assert_eq!(current_focused_duration_ms("focused", 42), 42);
    assert_eq!(current_focused_duration_ms("active", 42), 0);
    assert_eq!(focused_session_count("focused"), 1);
    assert_eq!(focused_session_count("idle"), 0);
    assert_eq!(
        window_change(Some(("Firefox".to_string(), "Docs".to_string()))),
        Some(("firefox".to_string(), "Docs".to_string()))
    );
    assert_eq!(window_change(None), None);
}

#[test]
fn fnv_fingerprint() {
    assert_eq!(fnv1a_short(b""), "cbf29ce484222325");
    assert_eq!(fnv1a_short(b"a"), "af63dc4c8601ec8c");
    let big = vec![7u8; 5000];
    assert_eq!(fnv1a_short(&big), fnv1a_short(&big[..4096]));
    assert!(!clipboard_changed(&None, "x"));
    assert!(!clipboard_changed(&Some("x".to_string()), "x"));
    assert!(clipboard_changed(&Some("x".to_string()), "y"));
}

#[test]
fn dbus_monitor_notify_calls_are_parsed() {
    let out = "signal time=1 sender=org.freedesktop.DBus\n\
method call time=2 sender=:1.5 -> destination=:1.9 serial=7 path=/org/freedesktop/Notifications; interface=org.freedesktop.Notifications; member=Notify\n\
   string \"Firefox\"\n\
   uint32 0\n\
   string \"firefox\"\n\
   string \"Download \"done\"\"\n\
   string \"body\"\n\
   array [\n\
   ]\n";
    let mut p = NotifyParser::new();
    let mut got = Vec::new();
    for line in out.lines() {
        if let Some(n) = p.feed_line(line) {
            got.push(n);
        }
    }
    assert_eq!(got, vec![("Firefox".to_string(), "Download \"done\"".to_string())]);
    // Lines outside a Notify call are ignored.
    let mut p = NotifyParser::new();
    assert_eq!(p.feed_line("array ["), None);
    assert_eq!(p.feed_line("string \"x\""), None);
}

#[test]
fn late_night_window_and_reminders() {
    assert!(in_late_night_window(23, 23, 6));
    assert!(in_late_night_window(2, 23, 6));
    assert!(!in_late_night_window(6, 23, 6));
    assert!(!in_late_night_window(12, 23, 6));
    assert!(in_late_night_window(1, 0, 5));
    assert!(!in_late_night_window(5, 0, 5));
    let mut r = RemindedHours::new();
    assert!(wellbeing_step(&mut r, "2026-01-01", 23, 23, 6, true));
    assert!(!wellbeing_step(&mut r, "2026-01-01", 23, 23, 6, true));
    assert!(!wellbeing_step(&mut r, "2026-01-02", 0, 23, 6, false));
    assert!(wellbeing_step(&mut r, "2026-01-02", 0, 23, 6, true));
    assert!(!wellbeing_step(&mut r, "2026-01-02", 7, 23, 6, true));
    assert!(wellbeing_step(&mut r, "2026-01-01", 23, 23, 6, true));
    assert_eq!(check_interval_secs(10), 60);
    assert_eq!(check_interval_secs(300), 300);
}

#[test]
fn lock_command_is_split_without_a_shell() {
    assert_eq!(split_command("swaylock -f  -c 000000"), Some(("swaylock".to_string(), vec!["-f".to_string(), "-c".to_string(), "000000".to_string()])));
    assert_eq!(split_command("hyprlock"), Some(("hyprlock".to_string(), vec![])));
    assert_eq!(split_command("   "), None);
    assert_eq!(split_command("rm -rf /; echo"), Some(("rm".to_string(), vec!["-rf".to_string(), "/;".to_string(), "echo".to_string()])));
}

#[test]
fn cpu_sampling_baseline() {
    let a = CpuReading { pid: 10, starttime: 5, jiffies: 100 };
    assert_eq!(jiffies_since(None, a), None);
    assert_eq!(jiffies_since(Some(a), CpuReading { jiffies: 150, ..a }), Some(50));
    assert_eq!(jiffies_since(Some(a), CpuReading { jiffies: 50, ..a }), Some(0));
    assert_eq!(jiffies_since(Some(a), CpuReading { starttime: 6, ..a }), None);
    assert_eq!(jiffies_since(Some(a), CpuReading { pid: 11, ..a }), None);
    assert_eq!(sample_interval_secs(1), 5);
    assert_eq!(cpu_count(Some(0)), 1);
    assert_eq!(cpu_count(None), 1);
    assert_eq!(cpu_count(Some(8)), 8);
}
