use hyprtrace::server::cooccur::{cooccurrence_counts, PairCounts};
use hyprtrace::server::days::group_by_day;
use hyprtrace::server::insights::InsightSession;
use hyprtrace::server::pairs::ClassStart;

const FIREFOX: u64 = 0;
const KITTY: u64 = 1;

fn session(class: &str, start: &str, end: &str, dur: i64, date: &str) -> InsightSession {
    InsightSession {
        class: class.to_string(),
        started_at: start.to_string(),
        ended_at: Some(end.to_string()),
        duration_ms: dur,
        date_local: date.to_string(),
    }
}

fn days_of(sessions: &[InsightSession]) -> Vec<Vec<ClassStart>> {
    group_by_day(&sessions.to_vec())
        .iter()
        .map(|d| {
            d.sessions
                .iter()
                .map(|s| ClassStart { class: if s.class == "firefox" { FIREFOX } else { KITTY }, start_ms: s.start_ms() })
                .collect()
        })
        .collect()
}

#[test]
fn cooccurrence_dedupes_within_window_and_computes_lift() {
    let sessions = vec![
        session("kitty", "2026-09-01T00:00:00Z", "2026-09-01T00:01:00Z", 60_000, "2026-09-01"),
        session("firefox", "2026-09-01T00:02:00Z", "2026-09-01T00:03:00Z", 60_000, "2026-09-01"),
        session("kitty", "2026-09-01T00:04:00Z", "2026-09-01T00:05:00Z", 60_000, "2026-09-01"),
        session("firefox", "2026-09-01T00:06:00Z", "2026-09-01T00:07:00Z", 60_000, "2026-09-01"),
    ];
    let r = cooccurrence_counts(&days_of(&sessions), 30);
    assert_eq!(r.pairs.len(), 1);
    // All four starts are inside one 30-minute window → a single hit.
    assert_eq!(r.pairs[0].co_occurrences, 1);
    assert_eq!((r.pairs[0].a, r.pairs[0].b), (FIREFOX, KITTY));
    // Support, Jaccard index and lift all 1: one day, both apps on it.
    assert_eq!((r.pairs[0].days_both, r.total_days), (1, 1));
    let mut cd = r.class_days.clone();
    cd.sort();
    assert_eq!(cd, vec![(FIREFOX, 1), (KITTY, 1)]);
    let (both, total, da, db) = (r.pairs[0].days_both as f64, r.total_days as f64, cd[0].1 as f64, cd[1].1 as f64);
    assert!((both / total - 1.0).abs() < 1e-9);
    assert!((both / (da + db - both) - 1.0).abs() < 1e-9);
    assert!(((both / total) / ((da / total) * (db / total)) - 1.0).abs() < 1e-9);
    // Each app is in one pair: degree 1.
    assert!(r.pairs.iter().all(|p| p.a != p.b));
    // Empty input stays valid.
    let empty = cooccurrence_counts(&vec![], 30);
    assert!(empty.pairs.is_empty() && empty.class_days.is_empty());
    assert_eq!(empty.total_days, 0);
}

#[test]
fn cooccurrence_sums_over_days() {
    let sessions = vec![
        session("kitty", "2026-09-01T09:00:00Z", "x", 1, "2026-09-01"),
        session("firefox", "2026-09-01T09:10:00Z", "x", 1, "2026-09-01"),
        session("kitty", "2026-09-02T09:00:00Z", "x", 1, "2026-09-02"),
        session("firefox", "2026-09-02T09:20:00Z", "x", 1, "2026-09-02"),
        session("kitty", "2026-09-03T09:00:00Z", "x", 1, "2026-09-03"),
    ];
    let r = cooccurrence_counts(&days_of(&sessions), 30);
    assert_eq!(r.total_days, 3);
    assert_eq!(
        r.pairs,
        vec![PairCounts {
            a: FIREFOX,
            b: KITTY,
            co_occurrences: 2,
            gap_sum_ms: 1_800_000,
            avg_gap_ms: 900_000,
            days_both: 2,
        }]
    );
    let mut cd = r.class_days.clone();
    cd.sort();
    assert_eq!(cd, vec![(FIREFOX, 2), (KITTY, 3)]);
    // A window of zero minutes (or a negative one) only pairs equal starts.
    assert!(cooccurrence_counts(&days_of(&sessions), -5).pairs.is_empty());
    assert_eq!(cooccurrence_counts(&days_of(&sessions), -5).window_ms, 0);
}
