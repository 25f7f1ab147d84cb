use hyprtrace::server::insights::{day_counts, is_late_night_hour, switch_cost_ms, InsightSession};

fn session(class: &str, start: &str, end: &str, dur: i64, date: &str) -> InsightSession {
    InsightSession {
        class: class.to_string(),
        started_at: start.to_string(),
        ended_at: Some(end.to_string()),
        duration_ms: dur,
        date_local: date.to_string(),
    }
}

#[test]
fn late_night_hours_match_the_sql_predicate() {
    for hour in 0..24u8 {
        assert_eq!(is_late_night_hour(hour), hour == 23 || hour <= 5, "hour {hour}");
    }
}

#[test]
fn fragmentation_cost_helper_is_half_of_capped_dwell() {
    assert_eq!(switch_cost_ms(0), 0);
    assert_eq!(switch_cost_ms(-500), 0);
    assert_eq!(switch_cost_ms(10_000), 5_000);
    assert_eq!(switch_cost_ms(60_000), 30_000);
    assert_eq!(switch_cost_ms(120_000), 30_000);
    assert_eq!(switch_cost_ms(5_400_000), 30_000);
}

#[test]
fn switch_cost_rounds_half_up() {
    assert_eq!(switch_cost_ms(1), 1);
    assert_eq!(switch_cost_ms(3), 2);
}

#[test]
fn day_counts_switches_focus_blocks_and_short_sessions() {
    let sessions = vec![
        session("kitty", "2026-09-01T00:00:00Z", "2026-09-01T00:20:00Z", 1_200_000, "2026-09-01"),
        session("kitty", "2026-09-01T00:20:00Z", "2026-09-01T00:25:00Z", 300_000, "2026-09-01"),
        session("firefox", "2026-09-01T00:25:00Z", "2026-09-01T00:25:10Z", 10_000, "2026-09-01"),
        session("kitty", "2026-09-01T00:25:10Z", "2026-09-01T00:30:00Z", 290_000, "2026-09-01"),
    ];
    let d = day_counts(&sessions);
    assert_eq!(d.session_count, 4);
    assert_eq!(d.switch_count, 2);
    assert_eq!(d.short_sessions, 1);
    assert_eq!(d.focus_blocks, 1);
    assert_eq!(d.longest_focus_ms, 1_500_000);
    assert_eq!(d.active_ms, 1_800_000);
    assert_eq!(d.avg_dwell_ms, 450_000);
    assert_eq!(d.context_switch_cost_ms, 35_000);
    let empty = day_counts(&Vec::new());
    assert_eq!(empty.session_count, 0);
    assert_eq!(empty.avg_dwell_ms, 0);
    assert_eq!(empty.focus_blocks, 0);
}

#[test]
fn session_instants_and_dwell() {
    let s = session("kitty", "2026-09-01T00:00:00Z", "2026-09-01T00:00:10Z", -5, "2026-09-01");
    assert_eq!(s.start_ms(), Some(1_788_220_800_000));
    assert_eq!(s.end_ms(), Some(1_788_220_810_000));
    assert_eq!(s.dwell_ms(), 0);
    let open = InsightSession { ended_at: None, ..s.clone() };
    assert_eq!(open.end_ms(), open.start_ms());
    let bad = InsightSession { started_at: "yesterday".to_string(), ended_at: None, ..s };
    assert_eq!(bad.start_ms(), None);
    assert_eq!(bad.end_ms(), None);
}
