//! Co-occurrence figures of a date range: the per-day pair counts summed
//! over the days, how many days each pair co-occurred on, and how many days
//! each app was used on (the inputs of support, lift and the Jaccard index).
use vstd::prelude::*;
use crate::server::pairs::{
    ClassStart, PairTable, day_pairs, day_pairs_spec, gaps_fit, fits, lemma_day_pairs_nonneg, lemma_day_pairs_keys,
    law_pairs_are_distinct_and_ordered,
};

verus! {

/// Figures of pair `k` over the first `n` days: summed co-occurrences,
/// summed gaps, and the number of days it co-occurred on.
pub open spec fn range_figs(days: Seq<Vec<ClassStart>>, n: int, w: int, k: (u64, u64)) -> (int, int, int)
    decreases n,
{
    if n <= 0 {
        (0, 0, 0)
    } else {
        let p = range_figs(days, n - 1, w, k);
        let m = day_pairs_spec(days[n - 1]@, w);
        if m.contains_key(k) {
            (p.0 + m[k].0, p.1 + m[k].1, p.2 + 1)
        } else {
            p
        }
    }
}

/// Each day's figures can be computed in `i64`.
pub open spec fn days_ok(days: Seq<Vec<ClassStart>>, w: int) -> bool {
    forall|d: int| 0 <= d < days.len() ==> gaps_fit(#[trigger] days[d]@) && fits(day_pairs_spec(days[d]@, w))
}

/// The summed figures fit in an `i64`.
pub open spec fn range_fits(days: Seq<Vec<ClassStart>>, w: int) -> bool {
    forall|k: (u64, u64)|
        #[trigger] range_figs(days, days.len() as int, w, k).0 <= i64::MAX && range_figs(days, days.len() as int, w, k).1
            <= i64::MAX
}

proof fn lemma_range_grows(days: Seq<Vec<ClassStart>>, j: int, n: int, w: int, k: (u64, u64))
    requires
        0 <= j <= n,
    ensures
        0 <= range_figs(days, j, w, k).0 <= range_figs(days, n, w, k).0,
        0 <= range_figs(days, j, w, k).1 <= range_figs(days, n, w, k).1,
        0 <= range_figs(days, j, w, k).2 <= range_figs(days, n, w, k).2 <= n,
        range_figs(days, n, w, k).2 == 0 ==> range_figs(days, n, w, k) == (0int, 0int, 0int),
    decreases n,
{
    if n > 0 {
        if j < n {
            lemma_range_grows(days, j, n - 1, w, k);
        } else {
            lemma_range_grows(days, n - 1, n - 1, w, k);
        }
        lemma_day_pairs_nonneg(days[n - 1]@, w);
    }
}

proof fn lemma_range_ordered(days: Seq<Vec<ClassStart>>, n: int, w: int, k: (u64, u64))
    requires
        range_figs(days, n, w, k).2 > 0,
    ensures
        k.0 < k.1,
    decreases n,
{
    if n > 0 {
        if day_pairs_spec(days[n - 1]@, w).contains_key(k) {
            law_pairs_are_distinct_and_ordered(days[n - 1]@, w);
        } else {
            lemma_range_ordered(days, n - 1, w, k);
        }
    }
}

/// Whether pair `k` is at figure level `n` in the table.
pub open spec fn table_at(t: Map<(u64, u64), (int, int, int)>, days: Seq<Vec<ClassStart>>, n: int, w: int, k: (u64, u64)) -> bool {
    &&& (t.contains_key(k) <==> range_figs(days, n, w, k).2 > 0)
    &&& (t.contains_key(k) ==> t[k] == range_figs(days, n, w, k))
}

pub open spec fn seen_before(raw: Seq<((u64, u64), (i64, i64, i64))>, q: int, k: (u64, u64)) -> bool {
    exists|i: int| 0 <= i < q && raw[i].0 == k
}

pub open spec fn level(raw: Seq<((u64, u64), (i64, i64, i64))>, q: int, d: int, k: (u64, u64)) -> int {
    if seen_before(raw, q, k) {
        d + 1
    } else {
        d
    }
}

/// Co-occurrence figures summed over days (each day's sessions in start
/// order): for every pair, the co-occurrences and gaps of all days and the
/// number of days it co-occurred on; pairs that never co-occurred are
/// absent.
pub fn range_pairs(days: &Vec<Vec<ClassStart>>, window_ms: i64) -> (t: PairTable)
    requires
        days@.len() <= i64::MAX,
        days_ok(days@, window_ms as int),
        range_fits(days@, window_ms as int),
    ensures
        t.wf(),
        forall|k: (u64, u64)| #[trigger] table_at(t.view(), days@, days@.len() as int, window_ms as int, k),
{
    let ghost dv = days@;
    let ghost w = window_ms as int;
    let mut t = PairTable::new();
    let mut d: usize = 0;
    while d < days.len()
        invariant
            dv == days@,
            w == window_ms as int,
            d <= dv.len(),
            dv.len() <= i64::MAX,
            days_ok(dv, w),
            range_fits(dv, w),
            t.wf(),
            forall|k: (u64, u64)| #[trigger] table_at(t.view(), dv, d as int, w, k),
        decreases dv.len() - d,
    {
        assert(gaps_fit(dv[d as int]@) && fits(day_pairs_spec(dv[d as int]@, w)));
        let dt = day_pairs(&days[d], window_ms);
        let raw = dt.figures();
        let ghost m = day_pairs_spec(dv[d as int]@, w);
        let mut q: usize = 0;
        while q < raw.len()
            invariant
                dv == days@,
                w == window_ms as int,
                d < dv.len(),
                dv.len() <= i64::MAX,
                range_fits(dv, w),
                m == day_pairs_spec(dv[d as int]@, w),
                dt.view() == m,
                forall|i: int, j: int| 0 <= i < j < raw@.len() ==> raw@[i].0 != raw@[j].0,
                forall|i: int| 0 <= i < raw@.len() ==> {
                    &&& m.contains_key((#[trigger] raw@[i]).0)
                    &&& m[raw@[i].0] == (raw@[i].1.0 as int, raw@[i].1.1 as int, raw@[i].1.2 as int)
                },
                q <= raw@.len(),
                t.wf(),
                forall|k: (u64, u64)| #[trigger] table_at(t.view(), dv, level(raw@, q as int, d as int, k), w, k),
            decreases raw@.len() - q,
        {
            let (k, (c, g, _)) = raw[q];
            let ghost before = t.view();
            proof {
                assert(m.contains_key(raw@[q as int].0));
                assert(!seen_before(raw@, q as int, k)) by {
                    if seen_before(raw@, q as int, k) {
                        let i = choose|i: int| 0 <= i < q && raw@[i].0 == k;
                        assert(raw@[i].0 != raw@[q as int].0);
                    }
                }
                assert(table_at(before, dv, level(raw@, q as int, d as int, k), w, k));
                assert(level(raw@, q as int, d as int, k) == d as int);
                lemma_range_grows(dv, d + 1, dv.len() as int, w, k);
                assert(range_figs(dv, dv.len() as int, w, k).0 <= i64::MAX);
            }
            match t.get(k) {
                Some((c0, g0, n0)) => {
                    t.put(k, (c0 + c, g0 + g, n0 + 1));
                },
                None => {
                    proof {
                        lemma_range_grows(dv, d as int, d as int, w, k);
                    }
                    t.put(k, (c, g, 1));
                },
            }
            proof {
                assert forall|k2: (u64, u64)| #[trigger] table_at(t.view(), dv, level(raw@, q + 1, d as int, k2), w, k2) by {
                    if k2 == k {
                        assert(raw@[q as int].0 == k2);
                        assert(seen_before(raw@, q + 1, k2));
                        assert(m.contains_key(k));
                        assert(m[k] == (c as int, g as int, raw@[q as int].1.2 as int));
                        assert(range_figs(dv, d + 1, w, k) == (range_figs(dv, d as int, w, k).0 + m[k].0, range_figs(dv, d as int, w, k).1
                            + m[k].1, range_figs(dv, d as int, w, k).2 + 1));
                        lemma_range_grows(dv, d as int, d as int, w, k);
                    } else {
                        assert(seen_before(raw@, q + 1, k2) == seen_before(raw@, q as int, k2)) by {
                            if seen_before(raw@, q + 1, k2) {
                                let i = choose|i: int| 0 <= i < q + 1 && raw@[i].0 == k2;
                                assert(i < q);
                            }
                        }
                        assert(table_at(before, dv, level(raw@, q as int, d as int, k2), w, k2));
                    }
                }
            }
            q = q + 1;
        }
        proof {
            assert forall|k: (u64, u64)| #[trigger] table_at(t.view(), dv, d + 1, w, k) by {
                assert(table_at(t.view(), dv, level(raw@, raw@.len() as int, d as int, k), w, k));
                if m.contains_key(k) {
                    let i = choose|i: int| 0 <= i < raw@.len() && raw@[i].0 == k;
                    assert(seen_before(raw@, raw@.len() as int, k));
                } else {
                    assert(!seen_before(raw@, raw@.len() as int, k)) by {
                        if seen_before(raw@, raw@.len() as int, k) {
                            let i = choose|i: int| 0 <= i < raw@.len() && raw@[i].0 == k;
                            assert(m.contains_key(raw@[i].0));
                        }
                    }
                    assert(table_at(t.view(), dv, d as int, w, k));
                }
            }
        }
        d = d + 1;
    }
    t
}

// ---------------------------------------------------------------------------
// Days per app
// ---------------------------------------------------------------------------

pub open spec fn seen_class(day: Seq<ClassStart>, j: int, c: u64) -> bool {
    exists|i: int| 0 <= i < j && day[i].class == c
}

/// Number of the first `n` days on which app `c` was used.
pub open spec fn days_with(days: Seq<Vec<ClassStart>>, n: int, c: u64) -> int
    decreases n,
{
    if n <= 0 {
        0
    } else {
        days_with(days, n - 1, c) + if seen_class(days[n - 1]@, days[n - 1]@.len() as int, c) {
            1int
        } else {
            0int
        }
    }
}

proof fn lemma_days_with_bounded(days: Seq<Vec<ClassStart>>, n: int, c: u64)
    requires
        0 <= n,
    ensures
        0 <= days_with(days, n, c) <= n,
    decreases n,
{
    if n > 0 {
        lemma_days_with_bounded(days, n - 1, c);
    }
}

/// App `c` has count `v` in `r` (and is absent exactly when `v` is 0).
pub open spec fn count_at(r: Seq<(u64, i64)>, c: u64, v: int) -> bool {
    &&& ((exists|i: int| 0 <= i < r.len() && r[i].0 == c) <==> v > 0)
    &&& forall|i: int| 0 <= i < r.len() && r[i].0 == c ==> r[i].1 == v
}

pub open spec fn distinct_keys(r: Seq<(u64, i64)>) -> bool {
    forall|i: int, j: int| 0 <= i < j < r.len() ==> r[i].0 != r[j].0
}

pub open spec fn day_level(day: Seq<ClassStart>, j: int, base: int, c: u64) -> int {
    base + if seen_class(day, j, c) {
        1int
    } else {
        0int
    }
}

/// For every app used on the days, the number of days it was used on.
pub fn class_days(days: &Vec<Vec<ClassStart>>) -> (r: Vec<(u64, i64)>)
    requires
        days@.len() <= i64::MAX,
    ensures
        distinct_keys(r@),
        forall|c: u64| #[trigger] count_at(r@, c, days_with(days@, days@.len() as int, c)),
{
    let ghost dv = days@;
    let mut r: Vec<(u64, i64)> = Vec::new();
    let mut d: usize = 0;
    while d < days.len()
        invariant
            dv == days@,
            d <= dv.len(),
            dv.len() <= i64::MAX,
            distinct_keys(r@),
            forall|c: u64| #[trigger] count_at(r@, c, days_with(dv, d as int, c)),
        decreases dv.len() - d,
    {
        let day = &days[d];
        let ghost dayv = day@;
        let mut j: usize = 0;
        while j < day.len()
            invariant
                dv == days@,
                dayv == day@,
                dayv == dv[d as int]@,
                d < dv.len(),
                dv.len() <= i64::MAX,
                j <= dayv.len(),
                distinct_keys(r@),
                forall|c: u64| #[trigger] count_at(r@, c, day_level(dayv, j as int, days_with(dv, d as int, c), c)),
            decreases dayv.len() - j,
        {
            let c = day[j].class;
            let mut i: usize = 0;
            while i < j && day[i].class != c
                invariant
                    j < dayv.len(),
                    dayv == day@,
                    i <= j,
                    forall|q: int| 0 <= q < i ==> dayv[q].class != c,
                decreases j - i,
            {
                i = i + 1;
            }
            let ghost before = r@;
            if i == j {
                // First time this day: one more day for `c`.
                proof {
                    assert(!seen_class(dayv, j as int, c));
                    assert(count_at(before, c, day_level(dayv, j as int, days_with(dv, d as int, c), c)));
                    lemma_days_with_bounded(dv, d as int, c);
                }
                let mut p: usize = 0;
                while p < r.len() && r[p].0 != c
                    invariant
                        r@ == before,
                        p <= r@.len(),
                        forall|q: int| 0 <= q < p ==> r@[q].0 != c,
                    decreases r@.len() - p,
                {
                    p = p + 1;
                }
                if p < r.len() {
                    let v = r[p].1;
                    r.set(p, (c, v + 1));
                } else {
                    r.push((c, 1));
                }
                proof {
                    assert forall|x: u64| #[trigger] count_at(r@, x, day_level(dayv, j + 1, days_with(dv, d as int, x), x)) by {
                        assert(count_at(before, x, day_level(dayv, j as int, days_with(dv, d as int, x), x)));
                        if x == c {
                            assert(seen_class(dayv, j + 1, x)) by {
                                assert(dayv[j as int].class == x);
                            }
                            if p < before.len() {
                                assert(r@[p as int].0 == x);
                            } else {
                                assert(r@[before.len() as int].0 == x);
                            }
                        } else {
                            assert(seen_class(dayv, j + 1, x) == seen_class(dayv, j as int, x)) by {
                                if seen_class(dayv, j + 1, x) {
                                    let w = choose|w: int| 0 <= w < j + 1 && dayv[w].class == x;
                                    assert(w < j);
                                }
                            }
                            if exists|q: int| 0 <= q < r@.len() && r@[q].0 == x {
                                let q = choose|q: int| 0 <= q < r@.len() && r@[q].0 == x;
                                assert(before[q].0 == x);
                            }
                            if exists|q: int| 0 <= q < before.len() && before[q].0 == x {
                                let q = choose|q: int| 0 <= q < before.len() && before[q].0 == x;
                                assert(r@[q].0 == x);
                            }
                        }
                    }
                    assert forall|a: int, b: int| 0 <= a < b < r@.len() implies r@[a].0 != r@[b].0 by {
                        if b == before.len() {
                            assert(before[a].0 != c);
                        }
                    }
                }
            } else {
                proof {
                    assert forall|x: u64| #[trigger] count_at(r@, x, day_level(dayv, j + 1, days_with(dv, d as int, x), x)) by {
                        assert(count_at(before, x, day_level(dayv, j as int, days_with(dv, d as int, x), x)));
                        assert(seen_class(dayv, j + 1, x) == seen_class(dayv, j as int, x)) by {
                            if seen_class(dayv, j + 1, x) {
                                let w = choose|w: int| 0 <= w < j + 1 && dayv[w].class == x;
                                if w == j {
                                    assert(dayv[i as int].class == x);
                                }
                            }
                        }
                    }
                }
            }
            j = j + 1;
        }
        proof {
            assert forall|x: u64| #[trigger] count_at(r@, x, days_with(dv, d + 1, x)) by {
                assert(count_at(r@, x, day_level(dayv, dayv.len() as int, days_with(dv, d as int, x), x)));
            }
        }
        d = d + 1;
    }
    r
}

// ---------------------------------------------------------------------------
// The range figures
// ---------------------------------------------------------------------------

/// Integer figures of one app pair over the range.
#[derive(Debug, Clone, Copy, PartialEq, Eq)]
pub struct PairCounts {
    pub a: u64,
    pub b: u64,
    pub co_occurrences: i64,
    pub gap_sum_ms: i64,
    pub avg_gap_ms: i64,
    /// Days on which the pair co-occurred.
    pub days_both: i64,
}

/// Integer figures of the co-occurrence report of a range.
#[derive(Debug, Clone)]
pub struct CooccurrenceCounts {
    pub window_ms: i64,
    pub total_days: i64,
    pub pairs: Vec<PairCounts>,
    /// `(app, days it was used on)` for every app of the range.
    pub class_days: Vec<(u64, i64)>,
}

pub open spec fn has_pair(pairs: Seq<PairCounts>, k: (u64, u64)) -> bool {
    exists|i: int| 0 <= i < pairs.len() && pairs[i].a == k.0 && pairs[i].b == k.1
}

pub open spec fn pair_matches(days: Seq<Vec<ClassStart>>, w: int, p: PairCounts) -> bool {
    let f = range_figs(days, days.len() as int, w, (p.a, p.b));
    &&& f.2 > 0
    &&& p.co_occurrences == f.0
    &&& p.gap_sum_ms == f.1
    &&& p.days_both == f.2
    &&& p.avg_gap_ms == if f.0 > 0 {
        f.1 / f.0
    } else {
        0
    }
}

/// The co-occurrence window in milliseconds: `window_minutes` (negative
/// counting as zero) times a minute.
pub open spec fn window_ms_of(window_minutes: int) -> int {
    if window_minutes < 0 {
        0
    } else {
        window_minutes * 60_000
    }
}

/// Co-occurrence figures of a range given its days (each a list of the
/// day's sessions in start order, apps by id): every pair that co-occurred,
/// once, with its summed co-occurrences and gaps over the days, its average
/// gap and the number of days it co-occurred on; the number of days each
/// app was used on; and the number of days.
pub fn cooccurrence_counts(days: &Vec<Vec<ClassStart>>, window_minutes: i64) -> (r: CooccurrenceCounts)
    requires
        window_minutes <= i64::MAX / 60_000,
        days@.len() <= i64::MAX,
        days_ok(days@, window_ms_of(window_minutes as int)),
        range_fits(days@, window_ms_of(window_minutes as int)),
    ensures
        r.window_ms == window_ms_of(window_minutes as int),
        r.total_days == days@.len(),
        forall|i: int, j: int| 0 <= i < j < r.pairs@.len() ==> (r.pairs@[i].a, r.pairs@[i].b) != (r.pairs@[j].a, r.pairs@[j].b),
        forall|i: int| 0 <= i < r.pairs@.len() ==> pair_matches(days@, r.window_ms as int, #[trigger] r.pairs@[i]),
        forall|i: int| 0 <= i < r.pairs@.len() ==> (#[trigger] r.pairs@[i]).a < r.pairs@[i].b,
        forall|k: (u64, u64)| #[trigger] range_figs(days@, days@.len() as int, r.window_ms as int, k).2 > 0 ==> has_pair(r.pairs@, k),
        distinct_keys(r.class_days@),
        forall|c: u64| #[trigger] count_at(r.class_days@, c, days_with(days@, days@.len() as int, c)),
{
    let window_ms: i64 = if window_minutes < 0 {
        0
    } else {
        window_minutes * 60_000
    };
    let ghost w = window_ms as int;
    let t = range_pairs(days, window_ms);
    let raw = t.figures();
    let mut pairs: Vec<PairCounts> = Vec::new();
    let mut q: usize = 0;
    while q < raw.len()
        invariant
            w == window_ms as int,
            t.wf(),
            forall|k: (u64, u64)| #[trigger] table_at(t.view(), days@, days@.len() as int, w, k),
            forall|i: int, j: int| 0 <= i < j < raw@.len() ==> raw@[i].0 != raw@[j].0,
            forall|i: int| 0 <= i < raw@.len() ==> {
                &&& t.view().contains_key((#[trigger] raw@[i]).0)
                &&& t.view()[raw@[i].0] == (raw@[i].1.0 as int, raw@[i].1.1 as int, raw@[i].1.2 as int)
            },
            q <= raw@.len(),
            pairs@.len() == q,
            forall|i: int| 0 <= i < q ==> pair_matches(days@, w, #[trigger] pairs@[i]) && (pairs@[i].a, pairs@[i].b) == raw@[i].0,
        decreases raw@.len() - q,
    {
        let (k, (c, g, n)) = raw[q];
        proof {
            assert(table_at(t.view(), days@, days@.len() as int, w, raw@[q as int].0));
            lemma_range_grows(days@, days@.len() as int, days@.len() as int, w, k);
        }
        let avg: i64 = if c > 0 {
            g / c
        } else {
            0
        };
        pairs.push(PairCounts { a: k.0, b: k.1, co_occurrences: c, gap_sum_ms: g, avg_gap_ms: avg, days_both: n });
        q = q + 1;
    }
    proof {
        assert forall|i: int, j: int| 0 <= i < j < pairs@.len() implies (pairs@[i].a, pairs@[i].b) != (pairs@[j].a, pairs@[j].b) by {
            assert((pairs@[i].a, pairs@[i].b) == raw@[i].0);
            assert((pairs@[j].a, pairs@[j].b) == raw@[j].0);
        }
        assert forall|i: int| 0 <= i < pairs@.len() implies (#[trigger] pairs@[i]).a < pairs@[i].b by {
            assert(pair_matches(days@, w, pairs@[i]));
            lemma_range_ordered(days@, days@.len() as int, w, (pairs@[i].a, pairs@[i].b));
        }
        assert forall|k: (u64, u64)| #[trigger] range_figs(days@, days@.len() as int, w, k).2 > 0 implies has_pair(pairs@, k) by {
            assert(table_at(t.view(), days@, days@.len() as int, w, k));
            let i = choose|i: int| 0 <= i < raw@.len() && raw@[i].0 == k;
            assert((pairs@[i].a, pairs@[i].b) == raw@[i].0);
        }
    }
    let cd = class_days(days);
    CooccurrenceCounts { window_ms, total_days: days.len() as i64, pairs, class_days: cd }
}

proof fn lemma_pair_days_within(days: Seq<Vec<ClassStart>>, n: int, w: int, k: (u64, u64))
    requires
        0 <= n <= days.len(),
    ensures
        range_figs(days, n, w, k).2 <= days_with(days, n, k.0),
        range_figs(days, n, w, k).2 <= days_with(days, n, k.1),
    decreases n,
{
    if n > 0 {
        lemma_pair_days_within(days, n - 1, w, k);
        let day = days[n - 1]@;
        lemma_day_pairs_keys(day, w);
        if day_pairs_spec(day, w).contains_key(k) {
            let i = choose|i: int| 0 <= i < day.len() && day[i].class == k.0;
            let j = choose|j: int| 0 <= j < day.len() && day[j].class == k.1;
            assert(seen_class(day, day.len() as int, k.0));
            assert(seen_class(day, day.len() as int, k.1));
        }
    }
}

/// A pair co-occurs on no more days than either of its apps is used on, so
/// its support and its Jaccard index never exceed 1.
pub proof fn law_pair_days_within_app_days(days: Seq<Vec<ClassStart>>, window_ms: int, k: (u64, u64))
    ensures
        range_figs(days, days.len() as int, window_ms, k).2 <= days_with(days, days.len() as int, k.0),
        range_figs(days, days.len() as int, window_ms, k).2 <= days_with(days, days.len() as int, k.1),
{
    lemma_pair_days_within(days, days.len() as int, window_ms, k);
}

} // verus!
