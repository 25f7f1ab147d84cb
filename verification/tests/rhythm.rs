use hyprtrace::server::rhythm::{rhythm, rhythm_checked};

#[test]
fn rhythm_averages_over_matching_weekdays() {
    // 2026-08-31 (Mon) and 2026-09-07 (Mon) → 2 Mondays.
    let rows = vec![
        ("2026-08-31".to_string(), 9u8, 1_000_000i64),
        ("2026-09-07".to_string(), 9, 3_000_000),
        ("2026-09-01".to_string(), 9, 500_000), // Tuesday
    ];
    let r = rhythm(&rows, "2026-08-31", "2026-09-07");
    let monday = r.cells.iter().find(|c| c.weekday == 0 && c.hour == 9).unwrap();
    assert_eq!(monday.total_ms, 4_000_000);
    assert_eq!(monday.days, 2);
    assert_eq!(monday.avg_ms, 2_000_000);
    let tuesday = r.cells.iter().find(|c| c.weekday == 1).unwrap();
    assert_eq!(tuesday.days, 1);
    assert_eq!(tuesday.avg_ms, 500_000);
    assert_eq!(r.max_avg_ms, 2_000_000);
    // Empty rows → valid empty response.
    let empty = rhythm(&vec![], "2026-08-31", "2026-09-07");
    assert!(empty.cells.is_empty());
    assert_eq!(empty.max_avg_ms, 0);
}

#[test]
fn rhythm_skips_bad_rows_and_orders_cells() {
    let rows = vec![
        ("2026-09-06".to_string(), 23u8, 100i64), // Sunday
        ("not a date".to_string(), 9, 700),
        ("2026-09-01".to_string(), 24, 900), // hour out of range
        ("2026-09-01".to_string(), 2, 50),   // Tuesday
        ("2026-09-01".to_string(), 2, -50),  // cancels to zero: no cell
        ("2026-08-31".to_string(), 0, 30),   // Monday
    ];
    let r = rhythm(&rows, "2026-08-31", "2026-09-06");
    let keys: Vec<(u8, u8)> = r.cells.iter().map(|c| (c.weekday, c.hour)).collect();
    assert_eq!(keys, vec![(0, 0), (6, 23)]);
    assert!(r.cells.iter().all(|c| c.days == 1));
    assert_eq!(r.from, "2026-08-31");
    assert_eq!(r.to, "2026-09-06");
}

#[test]
fn rhythm_with_a_reversed_or_bad_range_has_no_days() {
    let rows = vec![("2026-09-01".to_string(), 10u8, 600i64)];
    let reversed = rhythm(&rows, "2026-09-07", "2026-08-31");
    assert_eq!(reversed.cells.len(), 1);
    assert_eq!((reversed.cells[0].days, reversed.cells[0].avg_ms), (0, 0));
    let bad = rhythm(&rows, "yesterday", "2026-09-07");
    assert_eq!(bad.cells[0].days, 0);
    assert_eq!(bad.max_avg_ms, 0);
}

#[test]
fn rhythm_counts_weekdays_across_years() {
    // 2024-12-30 is a Monday; the range spans New Year and 15 days.
    let rows = vec![("2025-01-06".to_string(), 8u8, 3_000i64)];
    let r = rhythm(&rows, "2024-12-30", "2025-01-13");
    assert_eq!(r.cells[0].weekday, 0);
    assert_eq!(r.cells[0].days, 3);
    assert_eq!(r.cells[0].avg_ms, 1_000);
}

#[test]
fn checked_rhythm_refuses_totals_that_could_overflow() {
    let rows = vec![
        ("2026-08-31".to_string(), 9u8, 1_000_000i64),
        ("2026-09-01".to_string(), 9, 500_000),
    ];
    let r = rhythm_checked(&rows, "2026-08-31", "2026-09-07").expect("small totals");
    assert_eq!(r.cells.len(), 2);
    assert_eq!(r.max_avg_ms, 500_000);
    let big = vec![
        ("2026-08-31".to_string(), 9u8, i64::MAX),
        ("2026-09-07".to_string(), 10, 1),
    ];
    assert!(rhythm_checked(&big, "2026-08-31", "2026-09-07").is_none());
    let negative = vec![("2026-08-31".to_string(), 9u8, i64::MIN)];
    assert!(rhythm_checked(&negative, "2026-08-31", "2026-08-31").is_none());
}
