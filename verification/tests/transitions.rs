use hyprtrace::server::insights::InsightSession;
use hyprtrace::server::transitions::{
    class_totals, rank_classes, steps_of, transition_counts, ClassTotals, TransitionCounts, TransitionStep,
};

const FIREFOX: u64 = 0;
const KITTY: u64 = 1;

fn session(class: &str, start: &str, end: &str, dur: i64) -> InsightSession {
    InsightSession {
        class: class.to_string(),
        started_at: start.to_string(),
        ended_at: Some(end.to_string()),
        duration_ms: dur,
        date_local: "2026-09-01".to_string(),
    }
}

fn id_of(class: &str) -> u64 {
    match class {
        "firefox" => FIREFOX,
        "kitty" => KITTY,
        _ => 2,
    }
}

fn counts(sessions: &[InsightSession], limit: usize) -> TransitionCounts {
    let sessions = sessions.to_vec();
    let ids: Vec<u64> = sessions.iter().map(|s| id_of(&s.class)).collect();
    transition_counts(&steps_of(&sessions, &ids), limit)
}

fn step(class: u64, dwell_ms: i64) -> TransitionStep {
    TransitionStep { class, dwell_ms, start_ms: None, end_ms: None }
}

#[test]
fn transition_matrix_rows_are_normalised() {
    // kitty → firefox → kitty → kitty
    let sessions = vec![
        session("kitty", "2026-09-01T00:00:00Z", "2026-09-01T00:10:00Z", 600_000),
        session("firefox", "2026-09-01T00:11:00Z", "2026-09-01T00:20:00Z", 540_000),
        session("kitty", "2026-09-01T00:21:00Z", "2026-09-01T00:30:00Z", 540_000),
        session("kitty", "2026-09-01T00:31:00Z", "2026-09-01T00:40:00Z", 540_000),
    ];
    let r = counts(&sessions, 12);
    assert_eq!(r.total_transitions, 3);
    assert_eq!(r.total_sessions, 4);
    let kitty = r.nodes.iter().find(|n| n.class == KITTY).unwrap();
    assert_eq!(kitty.out_total, 2);
    // Self-probability 1/2.
    assert_eq!(kitty.self_count, 1);
    assert!((kitty.self_count as f64 / kitty.out_total as f64 - 0.5).abs() < 1e-9);
    // Self edges are excluded from `edges`.
    assert!(r.edges.iter().all(|e| e.from != e.to));
    // Each row's counts (edges plus the self count) add up to the row's
    // out_total, so the normalised row sums to 1 where there is one.
    for node in &r.nodes {
        let row: i64 = r.edges.iter().filter(|e| e.from == node.class).map(|e| e.count).sum::<i64>() + node.self_count;
        assert_eq!(row, node.out_total);
    }
    // kitty → firefox once out of two.
    let kf = r.edges.iter().find(|e| e.from == KITTY && e.to == FIREFOX).unwrap();
    assert_eq!((kf.count, kf.from_out_total), (1, 2));
    assert!((kf.count as f64 / kf.from_out_total as f64 - 0.5).abs() < 1e-9);
    // Gaps of one minute.
    assert_eq!(kf.avg_gap_ms, 60_000);
}

#[test]
fn transition_edge_gap_is_clamped_and_probability_row_normalised() {
    // firefox ends 00:10, kitty starts 00:05 → negative gap clamps to 0.
    let sessions = vec![
        session("firefox", "2026-09-01T00:00:00Z", "2026-09-01T00:10:00Z", 600_000),
        session("kitty", "2026-09-01T00:05:00Z", "2026-09-01T00:20:00Z", 900_000),
    ];
    let r = counts(&sessions, 12);
    assert_eq!(r.edges.len(), 1);
    assert_eq!(r.edges[0].avg_gap_ms, 0);
    assert_eq!(r.edges[0].count, r.edges[0].from_out_total);
    assert_eq!(r.edges[0].from_out_total, 1);
    assert!((r.edges[0].count as f64 / r.edges[0].from_out_total as f64 - 1.0).abs() < 1e-9);
    let empty = counts(&[], 12);
    assert_eq!(empty.total_transitions, 0);
    assert!(empty.nodes.is_empty() && empty.edges.is_empty());
}

#[test]
fn nodes_are_ranked_by_total_then_sessions_then_name() {
    let steps = vec![step(3, 100), step(1, 50), step(2, 100), step(1, 50), step(0, 40)];
    let r = transition_counts(&steps, 12);
    let order: Vec<u64> = r.nodes.iter().map(|n| n.class).collect();
    // 1 and 2 and 3 all total 100; 1 has two sessions; 2 before 3 by name.
    assert_eq!(order, vec![1, 2, 3, 0]);
    assert_eq!(r.nodes[0].avg_dwell_ms, 50);
    assert_eq!(r.all_total_ms, 340);
}

#[test]
fn limit_keeps_top_apps_but_counts_every_transition() {
    let steps = vec![step(0, 10), step(1, 500), step(2, 400), step(0, 10), step(1, 500)];
    let r = transition_counts(&steps, 2);
    let order: Vec<u64> = r.nodes.iter().map(|n| n.class).collect();
    assert_eq!(order, vec![1, 2]);
    assert_eq!(r.total_transitions, 4);
    // 1 → 2 is kept; 2 → 0 and 0 → 1 touch a dropped app.
    assert_eq!(r.edges.len(), 1);
    assert_eq!((r.edges[0].from, r.edges[0].to, r.edges[0].count), (1, 2, 1));
    // out_total still counts transitions to dropped apps.
    let n2 = r.nodes.iter().find(|n| n.class == 2).unwrap();
    assert_eq!(n2.out_total, 1);
}

#[test]
fn negative_dwell_counts_as_zero() {
    let steps = vec![step(0, -5), step(0, 7)];
    let r = transition_counts(&steps, 12);
    assert_eq!(r.nodes[0].total_ms, 7);
    assert_eq!(r.nodes[0].self_count, 1);
}

#[test]
fn class_totals_and_ranking_by_hand() {
    let steps = vec![step(5, 10), step(4, 30), step(5, 25)];
    let mut t = class_totals(&steps);
    t.sort_by_key(|x| x.class);
    assert_eq!(
        t,
        vec![
            ClassTotals { class: 4, total_ms: 30, session_count: 1 },
            ClassTotals { class: 5, total_ms: 35, session_count: 2 },
        ]
    );
    let ranked = rank_classes(&t, 1);
    assert_eq!(ranked, vec![ClassTotals { class: 5, total_ms: 35, session_count: 2 }]);
    assert_eq!(rank_classes(&t, 0), vec![]);
}
