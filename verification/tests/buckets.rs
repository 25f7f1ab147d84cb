use hyprtrace::server::buckets::disruption_buckets;

fn days(v: &[(&str, i64)]) -> Vec<(String, i64)> {
    v.iter().map(|(d, n)| (d.to_string(), *n)).collect()
}

#[test]
fn disruption_impact_buckets_and_insight() {
    let d = days(&[("2026-09-01", 0), ("2026-09-02", 1), ("2026-09-03", 2), ("2026-09-04", 10)]);
    let (high, low) = disruption_buckets(&d);
    // ceil(4*0.25) = 1 day per bucket.
    assert_eq!(high, vec![3]);
    assert_eq!(low, vec![0]);
    // Empty input stays valid.
    let (h, l) = disruption_buckets(&vec![]);
    assert!(h.is_empty() && l.is_empty());
}

#[test]
fn buckets_round_up_and_break_ties_by_date() {
    let d = days(&[
        ("2026-09-05", 3),
        ("2026-09-01", 3),
        ("2026-09-02", 7),
        ("2026-09-03", 0),
        ("2026-09-04", 1),
    ]);
    // ceil(5/4) = 2 days per bucket.
    let (high, low) = disruption_buckets(&d);
    assert_eq!(high, vec![2, 1]);
    // Ranking order: 09-02(7), 09-01(3), 09-05(3), 09-04(1), 09-03(0).
    assert_eq!(low, vec![4, 3]);
    let one = days(&[("2026-09-01", 4)]);
    assert_eq!(disruption_buckets(&one), (vec![0], vec![0]));
}

#[test]
fn repeated_dates_keep_input_order() {
    let d: Vec<(String, i64)> = vec![
        ("2026-03-01".to_string(), 2),
        ("2026-03-01".to_string(), 2),
        ("2026-03-01".to_string(), 5),
        ("2026-03-01".to_string(), 2),
    ];
    let (high, low) = disruption_buckets(&d);
    assert_eq!(high, vec![2]);
    assert_eq!(low, vec![3]);
}
