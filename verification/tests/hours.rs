use hyprtrace::server::hours::{buckets_from_summary, hourly_buckets};

#[test]
fn hourly_buckets_sum_and_count_per_hour() {
    let rows = vec![(9u8, 1_000i64, 400i64), (9, 2_000, 0), (23, 500, 500), (0, 10, 10)];
    let b = hourly_buckets(&rows);
    assert_eq!(b.len(), 24);
    assert!(b.iter().enumerate().all(|(i, x)| x.hour as usize == i));
    assert_eq!((b[9].total_ms, b[9].session_count, b[9].focused_ms), (3_000, 2, 400));
    assert_eq!((b[23].total_ms, b[23].session_count), (500, 1));
    assert_eq!((b[0].total_ms, b[0].focused_ms), (10, 10));
    assert_eq!((b[12].total_ms, b[12].session_count, b[12].focused_ms), (0, 0, 0));
    // An hour past 23 is counted nowhere.
    let odd = hourly_buckets(&vec![(30u8, 5i64, 5i64)]);
    assert!(odd.iter().all(|x| x.total_ms == 0 && x.session_count == 0));
}

#[test]
fn summary_rows_fill_missing_hours_with_zeros() {
    let rows = vec![(3u8, 100i64, 2i64, 50i64), (5, 7, 1, 0), (3, 300, 4, 60)];
    let b = buckets_from_summary(&rows);
    assert_eq!(b.len(), 24);
    // Hour 3 appears twice: the later row counts.
    assert_eq!((b[3].total_ms, b[3].session_count, b[3].focused_ms), (300, 4, 60));
    assert_eq!((b[5].total_ms, b[5].session_count), (7, 1));
    assert_eq!((b[4].total_ms, b[4].session_count, b[4].focused_ms), (0, 0, 0));
}
