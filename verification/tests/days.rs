use hyprtrace::server::days::{fragmentation_counts, group_by_day};
use hyprtrace::server::insights::InsightSession;

fn session(class: &str, start: &str, end: &str, dur: i64, date: &str) -> InsightSession {
    InsightSession {
        class: class.to_string(),
        started_at: start.to_string(),
        ended_at: Some(end.to_string()),
        duration_ms: dur,
        date_local: date.to_string(),
    }
}

#[test]
fn fragmentation_counts_switches_focus_blocks_and_short_sessions() {
    let sessions = vec![
        session("kitty", "2026-09-01T00:00:00Z", "2026-09-01T00:20:00Z", 1_200_000, "2026-09-01"),
        session("kitty", "2026-09-01T00:20:00Z", "2026-09-01T00:25:00Z", 300_000, "2026-09-01"),
        session("firefox", "2026-09-01T00:25:00Z", "2026-09-01T00:25:10Z", 10_000, "2026-09-01"),
        session("kitty", "2026-09-01T00:25:10Z", "2026-09-01T00:30:00Z", 290_000, "2026-09-01"),
    ];
    let r = fragmentation_counts(&sessions);
    assert_eq!(r.days.len(), 1);
    let d = &r.days[0].counts;
    assert_eq!(d.session_count, 4);
    // k→k is not a switch; k→f and f→k are.
    assert_eq!(d.switch_count, 2);
    // Short-session ratio 1/4.
    assert_eq!((d.short_sessions, d.session_count), (1, 4));
    // First two kitty sessions = 25 min ≥ 15 min → one focus block.
    assert_eq!(d.focus_blocks, 1);
    assert_eq!(d.longest_focus_ms, 1_500_000);
    assert_eq!(d.active_ms, 1_800_000);
    assert_eq!(d.context_switch_cost_ms, 35_000);
    assert_eq!(r.worst_day.as_ref().unwrap().date, "2026-09-01");
    // Empty input stays valid.
    let empty = fragmentation_counts(&vec![]);
    assert_eq!(empty.avg_dwell_ms, 0);
    assert_eq!((empty.total_switches, empty.active_ms), (0, 0));
    assert!(empty.worst_day.is_none());
}

#[test]
fn days_come_out_in_date_order_with_totals() {
    let sessions = vec![
        session("a", "2026-09-02T10:00:00Z", "2026-09-02T10:01:00Z", 60_000, "2026-09-02"),
        session("b", "2026-09-01T10:00:00Z", "2026-09-01T10:02:00Z", 120_000, "2026-09-01"),
        session("c", "2026-09-02T11:00:00Z", "2026-09-02T11:01:00Z", 30_000, "2026-09-02"),
        session("a", "2026-09-01T11:00:00Z", "2026-09-01T11:03:00Z", 180_000, "2026-09-01"),
        session("a", "2026-09-01T12:00:00Z", "2026-09-01T12:03:00Z", 180_000, "2026-09-01"),
    ];
    let r = fragmentation_counts(&sessions);
    let dates: Vec<&str> = r.days.iter().map(|d| d.date.as_str()).collect();
    assert_eq!(dates, vec!["2026-09-01", "2026-09-02"]);
    assert_eq!(r.total_sessions, 5);
    assert_eq!(r.active_ms, 570_000);
    assert_eq!(r.avg_dwell_ms, 114_000);
    // 09-01: b→a (1 switch); 09-02: a→c (1 switch).
    assert_eq!(r.total_switches, 2);
    assert_eq!(r.avg_switch_count, 1);
    // Equal switches: the shorter average dwell (09-02, 45 s) is worse.
    let w = r.worst_day.unwrap();
    assert_eq!((w.date.as_str(), w.switch_count, w.avg_dwell_ms), ("2026-09-02", 1, 45_000));
}

#[test]
fn grouping_keeps_each_day_in_input_order() {
    let sessions = vec![
        session("x", "t1", "t2", 1, "2026-09-03"),
        session("y", "t3", "t4", 2, "2026-09-01"),
        session("z", "t5", "t6", 3, "2026-09-03"),
    ];
    let g = group_by_day(&sessions);
    assert_eq!(g.len(), 2);
    assert_eq!(g[0].date, "2026-09-01");
    let classes: Vec<&str> = g[1].sessions.iter().map(|s| s.class.as_str()).collect();
    assert_eq!(classes, vec!["x", "z"]);
    let total: usize = g.iter().map(|d| d.sessions.len()).sum();
    assert_eq!(total, sessions.len());
}
