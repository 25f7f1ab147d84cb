//! The 24 hourly buckets of one day's activity.
use vstd::prelude::*;
use crate::server::models::HourlyBucket;

verus! {

/// Summed durations (`focused` false) or focused times (`focused` true) of
/// the first `k` `(hour, duration_ms, focused_ms)` rows that fall in hour
/// `h`.
pub open spec fn hour_sum(rows: Seq<(u8, i64, i64)>, k: int, h: int, focused: bool) -> int
    decreases k,
{
    if k <= 0 {
        0
    } else {
        hour_sum(rows, k - 1, h, focused) + if rows[k - 1].0 == h {
            if focused {
                rows[k - 1].2 as int
            } else {
                rows[k - 1].1 as int
            }
        } else {
            0
        }
    }
}

/// Number of the first `k` rows that fall in hour `h`.
pub open spec fn hour_count(rows: Seq<(u8, i64, i64)>, k: int, h: int) -> int
    decreases k,
{
    if k <= 0 {
        0
    } else {
        hour_count(rows, k - 1, h) + if rows[k - 1].0 == h {
            1int
        } else {
            0int
        }
    }
}

/// Every running sum fits in an `i64`.
pub open spec fn hour_sums_fit(rows: Seq<(u8, i64, i64)>) -> bool {
    forall|k: int, h: int, f: bool|
        0 <= k <= rows.len() ==> i64::MIN <= #[trigger] hour_sum(rows, k, h, f) <= i64::MAX
}

proof fn lemma_hour_count_bounded(rows: Seq<(u8, i64, i64)>, k: int, h: int)
    requires
        0 <= k,
    ensures
        0 <= hour_count(rows, k, h) <= k,
    decreases k,
{
    if k > 0 {
        lemma_hour_count_bounded(rows, k - 1, h);
    }
}

/// The buckets of hours 0 to 23 from `(local hour, duration_ms, focused_ms)`
/// rows of sessions: each bucket sums the durations and focused times of
/// its hour's rows and counts them; an hour without rows is all zeros.
pub fn hourly_buckets(rows: &Vec<(u8, i64, i64)>) -> (r: Vec<HourlyBucket>)
    requires
        rows@.len() <= i64::MAX,
        hour_sums_fit(rows@),
    ensures
        r@.len() == 24,
        forall|h: int|
            0 <= h < 24 ==> {
                &&& (#[trigger] r@[h]).hour == h
                &&& r@[h].total_ms == hour_sum(rows@, rows@.len() as int, h, false)
                &&& r@[h].focused_ms == hour_sum(rows@, rows@.len() as int, h, true)
                &&& r@[h].session_count == hour_count(rows@, rows@.len() as int, h)
            },
{
    let mut r: Vec<HourlyBucket> = Vec::new();
    let mut h: u8 = 0;
    while h < 24
        invariant
            h <= 24,
            r@.len() == h,
            forall|q: int| 0 <= q < h ==> (#[trigger] r@[q]).hour == q && r@[q].total_ms == 0 && r@[q].focused_ms == 0 && r@[q].session_count == 0,
        decreases 24 - h,
    {
        r.push(HourlyBucket { hour: h, total_ms: 0, session_count: 0, focused_ms: 0 });
        h = h + 1;
    }
    let n = rows.len();
    let mut i: usize = 0;
    while i < n
        invariant
            n == rows@.len(),
            n <= i64::MAX,
            i <= n,
            hour_sums_fit(rows@),
            r@.len() == 24,
            forall|q: int|
                0 <= q < 24 ==> {
                    &&& (#[trigger] r@[q]).hour == q
                    &&& r@[q].total_ms == hour_sum(rows@, i as int, q, false)
                    &&& r@[q].focused_ms == hour_sum(rows@, i as int, q, true)
                    &&& r@[q].session_count == hour_count(rows@, i as int, q)
                },
        decreases n - i,
    {
        let (hour, duration, focused) = rows[i];
        let ghost before = r@;
        if hour < 24 {
            let k = hour as usize;
            let b = r[k];
            proof {
                assert(i64::MIN <= hour_sum(rows@, i + 1, k as int, false) <= i64::MAX);
                assert(i64::MIN <= hour_sum(rows@, i + 1, k as int, true) <= i64::MAX);
                lemma_hour_count_bounded(rows@, i + 1, k as int);
            }
            r.set(
                k,
                HourlyBucket {
                    hour: b.hour,
                    total_ms: b.total_ms + duration,
                    session_count: b.session_count + 1,
                    focused_ms: b.focused_ms + focused,
                },
            );
        }
        proof {
            assert forall|q: int| 0 <= q < 24 implies {
                &&& (#[trigger] r@[q]).hour == q
                &&& r@[q].total_ms == hour_sum(rows@, i + 1, q, false)
                &&& r@[q].focused_ms == hour_sum(rows@, i + 1, q, true)
                &&& r@[q].session_count == hour_count(rows@, i + 1, q)
            } by {
                assert(before[q].hour == q);
                assert(rows@[i as int] == (hour, duration, focused));
            }
        }
        i = i + 1;
    }
    r
}

/// The hour's row of pre-aggregated `(hour, total_ms, session_count,
/// focused_ms)` rows: the last one with that hour, if any.
pub open spec fn last_row_for(rows: Seq<(u8, i64, i64, i64)>, k: int, h: int) -> Option<(u8, i64, i64, i64)>
    decreases k,
{
    if k <= 0 {
        None
    } else if rows[k - 1].0 == h {
        Some(rows[k - 1])
    } else {
        last_row_for(rows, k - 1, h)
    }
}

/// The buckets of hours 0 to 23 from pre-aggregated rows, an hour without
/// a row being all zeros (when an hour has several rows the last one
/// counts).
pub fn buckets_from_summary(rows: &Vec<(u8, i64, i64, i64)>) -> (r: Vec<HourlyBucket>)
    ensures
        r@.len() == 24,
        forall|h: int|
            0 <= h < 24 ==> (#[trigger] r@[h]).hour == h && match last_row_for(rows@, rows@.len() as int, h) {
                Some(x) => r@[h].total_ms == x.1 && r@[h].session_count == x.2 && r@[h].focused_ms == x.3,
                None => r@[h].total_ms == 0 && r@[h].session_count == 0 && r@[h].focused_ms == 0,
            },
{
    let mut r: Vec<HourlyBucket> = Vec::new();
    let mut h: u8 = 0;
    while h < 24
        invariant
            h <= 24,
            r@.len() == h,
            forall|q: int|
                0 <= q < h ==> (#[trigger] r@[q]).hour == q && match last_row_for(rows@, rows@.len() as int, q) {
                    Some(x) => r@[q].total_ms == x.1 && r@[q].session_count == x.2 && r@[q].focused_ms == x.3,
                    None => r@[q].total_ms == 0 && r@[q].session_count == 0 && r@[q].focused_ms == 0,
                },
        decreases 24 - h,
    {
        let mut k: usize = rows.len();
        while k > 0 && rows[k - 1].0 != h
            invariant
                k <= rows@.len(),
                last_row_for(rows@, rows@.len() as int, h as int) == last_row_for(rows@, k as int, h as int),
            decreases k,
        {
            k = k - 1;
        }
        let b = if k > 0 {
            let x = rows[k - 1];
            HourlyBucket { hour: h, total_ms: x.1, session_count: x.2, focused_ms: x.3 }
        } else {
            HourlyBucket { hour: h, total_ms: 0, session_count: 0, focused_ms: 0 }
        };
        r.push(b);
        h = h + 1;
    }
    r
}

} // verus!
