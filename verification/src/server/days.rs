//! Sessions grouped by local calendar day, in date order, and the range
//! totals of the fragmentation figures built on them.
use vstd::prelude::*;
use crate::text::{seq_lt, str_lt, str_eq, lemma_seq_lt_strict_total};
use crate::server::insights::{
    InsightSession, DayCounts, WorstDay, day_counts, dwell, dwell_sum, switch_count_spec, short_count, switch_cost_sum,
    focus_blocks_spec, longest_focus_spec, lemma_sums_bounded,
};

verus! {

/// The sessions of `s` dated `d`, in their order in `s`.
pub open spec fn day_of(s: Seq<InsightSession>, d: Seq<char>) -> Seq<InsightSession>
    decreases s.len(),
{
    if s.len() == 0 {
        Seq::empty()
    } else {
        let p = day_of(s.drop_last(), d);
        if s.last().date_local@ == d {
            p.push(s.last())
        } else {
            p
        }
    }
}

proof fn lemma_day_of_take(s: Seq<InsightSession>, d: Seq<char>, k: int)
    requires
        0 <= k < s.len(),
    ensures
        day_of(s.take(k + 1), d) == if s[k].date_local@ == d {
            day_of(s.take(k), d).push(s[k])
        } else {
            day_of(s.take(k), d)
        },
{
    assert(s.take(k + 1).drop_last() =~= s.take(k));
}

proof fn lemma_day_of_nonempty(s: Seq<InsightSession>, d: Seq<char>, k: int)
    requires
        0 <= k < s.len(),
        s[k].date_local@ == d,
    ensures
        day_of(s, d).len() > 0,
    decreases s.len(),
{
    if k < s.len() - 1 {
        lemma_day_of_nonempty(s.drop_last(), d, k);
    }
}

pub open spec fn sorted_strs(r: Seq<String>) -> bool {
    forall|i: int, j: int| 0 <= i < j < r.len() ==> seq_lt(r[i]@, r[j]@)
}

pub open spec fn has_date(r: Seq<String>, d: Seq<char>) -> bool {
    exists|i: int| 0 <= i < r.len() && r[i]@ == d
}

pub open spec fn is_date_of(s: Seq<InsightSession>, d: Seq<char>) -> bool {
    exists|q: int| 0 <= q < s.len() && s[q].date_local@ == d
}

proof fn lemma_insert_sorted(old_r: Seq<String>, x: String, j: int)
    requires
        0 <= j <= old_r.len(),
        sorted_strs(old_r),
        forall|q: int| 0 <= q < j ==> seq_lt(old_r[q]@, x@),
        j < old_r.len() ==> old_r[j]@ != x@ && !seq_lt(old_r[j]@, x@),
    ensures
        sorted_strs(old_r.insert(j, x)),
        forall|d: Seq<char>| has_date(old_r, d) ==> #[trigger] has_date(old_r.insert(j, x), d),
        has_date(old_r.insert(j, x), x@),
        forall|i: int| 0 <= i < old_r.len() + 1 ==> (#[trigger] old_r.insert(j, x)[i])@ == x@ || has_date(old_r, old_r.insert(j, x)[i]@),
{
    let r = old_r.insert(j, x);
    old_r.insert_ensures(j, x);
    if j < old_r.len() {
        lemma_seq_lt_strict_total(old_r[j]@, x@, x@);
    }
    assert forall|a: int, b: int| 0 <= a < b < r.len() implies seq_lt(r[a]@, r[b]@) by {
        if a < j && b > j {
            lemma_seq_lt_strict_total(r[a]@, x@, r[b]@);
            if b - 1 > j {
                assert(seq_lt(old_r[j]@, old_r[b - 1]@));
                lemma_seq_lt_strict_total(x@, old_r[j]@, old_r[b - 1]@);
            }
        } else if a == j {
            if b - 1 > j {
                assert(seq_lt(old_r[j]@, old_r[b - 1]@));
                lemma_seq_lt_strict_total(x@, old_r[j]@, old_r[b - 1]@);
            }
        } else if a > j {
            assert(seq_lt(old_r[a - 1]@, old_r[b - 1]@));
        }
    }
    assert forall|d: Seq<char>| has_date(old_r, d) implies #[trigger] has_date(r, d) by {
        let i = choose|i: int| 0 <= i < old_r.len() && old_r[i]@ == d;
        if i < j {
            assert(r[i]@ == d);
        } else {
            assert(r[i + 1]@ == d);
        }
    }
    assert(r[j]@ == x@);
    assert forall|i: int| 0 <= i < old_r.len() + 1 implies (#[trigger] r[i])@ == x@ || has_date(old_r, r[i]@) by {
        if i < j {
            assert(r[i] == old_r[i]);
        } else if i > j {
            assert(r[i] == old_r[i - 1]);
        }
    }
}

/// The distinct dates of `s`, in increasing order.
fn sorted_dates(s: &Vec<InsightSession>) -> (r: Vec<String>)
    ensures
        sorted_strs(r@),
        forall|k: int| 0 <= k < s@.len() ==> #[trigger] has_date(r@, s@[k].date_local@),
        forall|i: int| 0 <= i < r@.len() ==> #[trigger] is_date_of(s@, r@[i]@),
{
    let mut r: Vec<String> = Vec::new();
    let mut k: usize = 0;
    while k < s.len()
        invariant
            k <= s@.len(),
            sorted_strs(r@),
            forall|q: int| 0 <= q < k ==> #[trigger] has_date(r@, s@[q].date_local@),
            forall|i: int| 0 <= i < r@.len() ==> #[trigger] is_date_of(s@, r@[i]@),
        decreases s@.len() - k,
    {
        let d = &s[k].date_local;
        let mut j: usize = 0;
        while j < r.len() && str_lt(r[j].as_str(), d.as_str())
            invariant
                j <= r@.len(),
                forall|q: int| 0 <= q < j ==> seq_lt(r@[q]@, d@),
            decreases r@.len() - j,
        {
            j = j + 1;
        }
        let ghost old_r = r@;
        if j < r.len() && str_eq(r[j].as_str(), d.as_str()) {
            assert(has_date(r@, d@)) by {
                assert(r@[j as int]@ == d@);
            }
        } else {
            let x = d.clone();
            proof {
                lemma_insert_sorted(old_r, x, j as int);
            }
            r.insert(j, x);
            proof {
                assert forall|i: int| 0 <= i < r@.len() implies #[trigger] is_date_of(s@, r@[i]@) by {
                    if r@[i]@ != x@ {
                        let w = choose|w: int| 0 <= w < old_r.len() && old_r[w]@ == r@[i]@;
                        assert(is_date_of(s@, old_r[w]@));
                    } else {
                        assert(s@[k as int].date_local@ == r@[i]@);
                    }
                }
            }
        }
        k = k + 1;
    }
    r
}

/// The sessions of `s` on date `d`, in order.
fn sessions_on(s: &Vec<InsightSession>, d: &str) -> (r: Vec<InsightSession>)
    ensures
        r@ == day_of(s@, d@),
{
    let mut r: Vec<InsightSession> = Vec::new();
    let mut k: usize = 0;
    while k < s.len()
        invariant
            k <= s@.len(),
            r@ == day_of(s@.take(k as int), d@),
        decreases s@.len() - k,
    {
        proof {
            lemma_day_of_take(s@, d@, k as int);
        }
        if str_eq(s[k].date_local.as_str(), d) {
            r.push(s[k].duplicate());
        }
        k = k + 1;
    }
    assert(s@.take(s@.len() as int) =~= s@);
    r
}

/// One local day and its sessions, in chronological order.
#[derive(Debug, Clone)]
pub struct DaySessions {
    pub date: String,
    pub sessions: Vec<InsightSession>,
}

pub open spec fn has_day(r: Seq<DaySessions>, d: Seq<char>) -> bool {
    exists|i: int| 0 <= i < r.len() && r[i].date@ == d
}

/// The sessions of `s` grouped by `date_local`, one group per date in
/// increasing date order, each keeping the order of `s`.
pub fn group_by_day(s: &Vec<InsightSession>) -> (r: Vec<DaySessions>)
    ensures
        forall|i: int, j: int| 0 <= i < j < r@.len() ==> seq_lt(r@[i].date@, r@[j].date@),
        forall|i: int| 0 <= i < r@.len() ==> (#[trigger] r@[i]).sessions@ == day_of(s@, r@[i].date@) && r@[i].sessions@.len() > 0,
        forall|k: int| 0 <= k < s@.len() ==> #[trigger] has_day(r@, s@[k].date_local@),
{
    let dates = sorted_dates(s);
    let mut r: Vec<DaySessions> = Vec::new();
    let mut i: usize = 0;
    while i < dates.len()
        invariant
            i <= dates@.len(),
            r@.len() == i,
            forall|q: int| 0 <= q < i ==> (#[trigger] r@[q]).date@ == dates@[q]@ && r@[q].sessions@ == day_of(s@, r@[q].date@)
                && r@[q].sessions@.len() > 0,
            forall|q: int| 0 <= q < dates@.len() ==> #[trigger] is_date_of(s@, dates@[q]@),
        decreases dates@.len() - i,
    {
        let d = dates[i].clone();
        let day = sessions_on(s, d.as_str());
        proof {
            assert(is_date_of(s@, dates@[i as int]@));
            let w = choose|w: int| 0 <= w < s@.len() && s@[w].date_local@ == dates@[i as int]@;
            lemma_day_of_nonempty(s@, d@, w);
        }
        r.push(DaySessions { date: d, sessions: day });
        i = i + 1;
    }
    proof {
        assert forall|a: int, b: int| 0 <= a < b < r@.len() implies seq_lt(r@[a].date@, r@[b].date@) by {
            assert(r@[a].date@ == dates@[a]@);
            assert(r@[b].date@ == dates@[b]@);
        }
        assert forall|k: int| 0 <= k < s@.len() implies #[trigger] has_day(r@, s@[k].date_local@) by {
            assert(has_date(dates@, s@[k].date_local@));
            let q = choose|q: int| 0 <= q < dates@.len() && dates@[q]@ == s@[k].date_local@;
            assert(r@[q].date@ == dates@[q]@);
        }
    }
    r
}

// ---------------------------------------------------------------------------
// Grouping loses and duplicates nothing
// ---------------------------------------------------------------------------

/// Weight of a session: its dwell time, or one to count it.
pub open spec fn weight(dw: bool, x: InsightSession) -> int {
    if dw {
        dwell(x)
    } else {
        1
    }
}

/// Summed weight of the sessions of `s`.
pub open spec fn wsum(s: Seq<InsightSession>, dw: bool) -> int
    decreases s.len(),
{
    if s.len() == 0 {
        0
    } else {
        wsum(s.drop_last(), dw) + weight(dw, s.last())
    }
}

/// Summed weight of the sessions of each date of `ds`, date by date.
pub open spec fn wsum_days(s: Seq<InsightSession>, ds: Seq<Seq<char>>, dw: bool) -> int
    decreases ds.len(),
{
    if ds.len() == 0 {
        0
    } else {
        wsum_days(s, ds.drop_last(), dw) + wsum(day_of(s, ds.last()), dw)
    }
}

pub open spec fn count_eq(ds: Seq<Seq<char>>, d: Seq<char>) -> int
    decreases ds.len(),
{
    if ds.len() == 0 {
        0
    } else {
        count_eq(ds.drop_last(), d) + if ds.last() == d {
            1int
        } else {
            0int
        }
    }
}

pub open spec fn distinct_dates(ds: Seq<Seq<char>>) -> bool {
    forall|i: int, j: int| 0 <= i < j < ds.len() ==> ds[i] != ds[j]
}

pub open spec fn covers(ds: Seq<Seq<char>>, s: Seq<InsightSession>) -> bool {
    forall|k: int| 0 <= k < s.len() ==> #[trigger] ds.contains(s[k].date_local@)
}

proof fn lemma_wsum_push(s: Seq<InsightSession>, x: InsightSession, dw: bool)
    ensures
        wsum(s.push(x), dw) == wsum(s, dw) + weight(dw, x),
{
    assert(s.push(x).drop_last() =~= s);
}

proof fn lemma_wsum_days_push(s: Seq<InsightSession>, x: InsightSession, ds: Seq<Seq<char>>, dw: bool)
    ensures
        wsum_days(s.push(x), ds, dw) == wsum_days(s, ds, dw) + count_eq(ds, x.date_local@) * weight(dw, x),
    decreases ds.len(),
{
    if ds.len() > 0 {
        lemma_wsum_days_push(s, x, ds.drop_last(), dw);
        let d = ds.last();
        assert(s.push(x).drop_last() =~= s);
        assert(s.push(x).last() == x);
        if x.date_local@ == d {
            lemma_wsum_push(day_of(s, d), x, dw);
        }
        assert(count_eq(ds, x.date_local@) * weight(dw, x) == count_eq(ds.drop_last(), x.date_local@) * weight(dw, x) + if d == x.date_local@ {
            weight(dw, x)
        } else {
            0
        }) by (nonlinear_arith)
            requires
                count_eq(ds, x.date_local@) == count_eq(ds.drop_last(), x.date_local@) + if ds.last() == x.date_local@ {
                    1int
                } else {
                    0int
                },
                d == ds.last(),
        ;
    }
}

proof fn lemma_count_eq_one(ds: Seq<Seq<char>>, d: Seq<char>)
    requires
        distinct_dates(ds),
        ds.contains(d),
    ensures
        count_eq(ds, d) == 1,
    decreases ds.len(),
{
    let p = ds.drop_last();
    if ds.last() == d {
        assert(!p.contains(d)) by {
            if p.contains(d) {
                let i = choose|i: int| 0 <= i < p.len() && p[i] == d;
                assert(ds[i] == ds[ds.len() - 1]);
            }
        }
        lemma_count_eq_zero(p, d);
    } else {
        let i = choose|i: int| 0 <= i < ds.len() && ds[i] == d;
        assert(p[i] == d);
        lemma_count_eq_one(p, d);
    }
}

proof fn lemma_count_eq_zero(ds: Seq<Seq<char>>, d: Seq<char>)
    requires
        !ds.contains(d),
    ensures
        count_eq(ds, d) == 0,
    decreases ds.len(),
{
    if ds.len() > 0 {
        assert(!ds.drop_last().contains(d)) by {
            if ds.drop_last().contains(d) {
                let i = choose|i: int| 0 <= i < ds.drop_last().len() && ds.drop_last()[i] == d;
                assert(ds[i] == d);
            }
        }
        lemma_count_eq_zero(ds.drop_last(), d);
    }
}

/// Splitting sessions by distinct dates that cover all of them keeps every
/// weight exactly once.
proof fn lemma_partition(s: Seq<InsightSession>, ds: Seq<Seq<char>>, dw: bool)
    requires
        distinct_dates(ds),
        covers(ds, s),
    ensures
        wsum_days(s, ds, dw) == wsum(s, dw),
    decreases s.len(),
{
    if s.len() == 0 {
        lemma_wsum_days_empty(ds, dw);
        assert(s =~= Seq::<InsightSession>::empty());
    } else {
        let p = s.drop_last();
        let x = s.last();
        assert(covers(ds, p)) by {
            assert forall|k: int| 0 <= k < p.len() implies #[trigger] ds.contains(p[k].date_local@) by {
                assert(ds.contains(s[k].date_local@));
            }
        }
        lemma_partition(p, ds, dw);
        assert(p.push(x) =~= s);
        lemma_wsum_days_push(p, x, ds, dw);
        assert(ds.contains(s[s.len() - 1].date_local@));
        lemma_count_eq_one(ds, x.date_local@);
    }
}

proof fn lemma_wsum_days_empty(ds: Seq<Seq<char>>, dw: bool)
    ensures
        wsum_days(Seq::<InsightSession>::empty(), ds, dw) == 0,
    decreases ds.len(),
{
    if ds.len() > 0 {
        lemma_wsum_days_empty(ds.drop_last(), dw);
    }
}


proof fn lemma_wsum_named(s: Seq<InsightSession>)
    ensures
        wsum(s, false) == s.len(),
        wsum(s, true) == dwell_sum(s),
    decreases s.len(),
{
    if s.len() > 0 {
        lemma_wsum_named(s.drop_last());
    }
}

pub open spec fn group_dates(g: Seq<DaySessions>) -> Seq<Seq<char>> {
    g.map_values(|d: DaySessions| d.date@)
}

/// Grouping by day neither loses nor duplicates a session: the groups hold
/// as many sessions, and as much dwell time, as the input.
pub proof fn law_grouping_partitions_sessions(s: Seq<InsightSession>, g: Seq<DaySessions>)
    requires
        forall|i: int, j: int| 0 <= i < j < g.len() ==> seq_lt(g[i].date@, g[j].date@),
        forall|i: int| 0 <= i < g.len() ==> (#[trigger] g[i]).sessions@ == day_of(s, g[i].date@),
        forall|k: int| 0 <= k < s.len() ==> #[trigger] has_day(g, s[k].date_local@),
    ensures
        wsum_days(s, group_dates(g), false) == s.len(),
        wsum_days(s, group_dates(g), true) == dwell_sum(s),
{
    let ds = group_dates(g);
    assert(distinct_dates(ds)) by {
        assert forall|i: int, j: int| 0 <= i < j < ds.len() implies ds[i] != ds[j] by {
            lemma_seq_lt_strict_total(g[i].date@, g[j].date@, g[j].date@);
        }
    }
    assert(covers(ds, s)) by {
        assert forall|k: int| 0 <= k < s.len() implies #[trigger] ds.contains(s[k].date_local@) by {
            assert(has_day(g, s[k].date_local@));
            let i = choose|i: int| 0 <= i < g.len() && g[i].date@ == s[k].date_local@;
            assert(ds[i] == s[k].date_local@);
        }
    }
    lemma_partition(s, ds, false);
    lemma_partition(s, ds, true);
    lemma_wsum_named(s);
}

// ---------------------------------------------------------------------------
// Fragmentation of a range
// ---------------------------------------------------------------------------

proof fn lemma_wsum_nonneg(s: Seq<InsightSession>, dw: bool)
    ensures
        wsum(s, dw) >= 0,
    decreases s.len(),
{
    if s.len() > 0 {
        lemma_wsum_nonneg(s.drop_last(), dw);
    }
}

proof fn lemma_wsum_days_prefix(s: Seq<InsightSession>, ds: Seq<Seq<char>>, i: int, dw: bool)
    requires
        0 <= i <= ds.len(),
    ensures
        0 <= wsum_days(s, ds.take(i), dw) <= wsum_days(s, ds, dw),
        i < ds.len() ==> wsum_days(s, ds.take(i + 1), dw) == wsum_days(s, ds.take(i), dw) + wsum(day_of(s, ds[i]), dw),
    decreases ds.len(),
{
    if i < ds.len() {
        assert(ds.take(i + 1).drop_last() =~= ds.take(i));
        lemma_wsum_nonneg(day_of(s, ds[i]), dw);
    }
    if ds.len() > 0 {
        let p = ds.drop_last();
        lemma_wsum_nonneg(day_of(s, ds.last()), dw);
        lemma_wsum_days_prefix(s, p, p.len() as int, dw);
        assert(p.take(p.len() as int) =~= p);
        if i < ds.len() {
            assert(p.take(i) =~= ds.take(i));
            lemma_wsum_days_prefix(s, p, i, dw);
        } else {
            assert(ds.take(i) =~= ds);
        }
    } else {
        assert(ds.take(i) =~= ds);
    }
}

proof fn lemma_days_count(s: Seq<InsightSession>, ds: Seq<Seq<char>>)
    requires
        forall|i: int| 0 <= i < ds.len() ==> #[trigger] day_of(s, ds[i]).len() > 0,
    ensures
        wsum_days(s, ds, false) >= ds.len(),
    decreases ds.len(),
{
    if ds.len() > 0 {
        let p = ds.drop_last();
        assert forall|i: int| 0 <= i < p.len() implies #[trigger] day_of(s, p[i]).len() > 0 by {
            assert(day_of(s, ds[i]).len() > 0);
        }
        lemma_days_count(s, p);
        lemma_wsum_named(day_of(s, ds.last()));
        assert(day_of(s, ds[ds.len() - 1]).len() > 0);
    }
}

proof fn lemma_day_sums_bounded(s: Seq<InsightSession>, d: Seq<char>)
    ensures
        wsum(day_of(s, d), false) == day_of(s, d).len(),
        wsum(day_of(s, d), true) == dwell_sum(day_of(s, d)),
{
    lemma_wsum_named(day_of(s, d));
}

/// One day of the range and its integer fragmentation figures.
#[derive(Debug, Clone)]
pub struct DayFigures {
    pub date: String,
    pub counts: DayCounts,
}

pub open spec fn day_figures_match(s: Seq<InsightSession>, f: DayFigures) -> bool {
    let day = day_of(s, f.date@);
    &&& day.len() > 0
    &&& f.counts.session_count == day.len()
    &&& f.counts.switch_count == switch_count_spec(day)
    &&& f.counts.short_sessions == short_count(day)
    &&& f.counts.focus_blocks == focus_blocks_spec(day)
    &&& f.counts.longest_focus_ms == longest_focus_spec(day)
    &&& f.counts.active_ms == dwell_sum(day)
    &&& f.counts.avg_dwell_ms == dwell_sum(day) / (day.len() as int)
    &&& f.counts.context_switch_cost_ms == switch_cost_sum(day)
}

pub open spec fn has_figures(d: Seq<DayFigures>, date: Seq<char>) -> bool {
    exists|i: int| 0 <= i < d.len() && d[i].date@ == date
}

pub open spec fn sum_switches(d: Seq<DayFigures>) -> int
    decreases d.len(),
{
    if d.len() == 0 {
        0
    } else {
        sum_switches(d.drop_last()) + d.last().counts.switch_count
    }
}

pub open spec fn sum_sessions(d: Seq<DayFigures>) -> int
    decreases d.len(),
{
    if d.len() == 0 {
        0
    } else {
        sum_sessions(d.drop_last()) + d.last().counts.session_count
    }
}

pub open spec fn sum_active(d: Seq<DayFigures>) -> int
    decreases d.len(),
{
    if d.len() == 0 {
        0
    } else {
        sum_active(d.drop_last()) + d.last().counts.active_ms
    }
}

pub open spec fn sum_short(d: Seq<DayFigures>) -> int
    decreases d.len(),
{
    if d.len() == 0 {
        0
    } else {
        sum_short(d.drop_last()) + d.last().counts.short_sessions
    }
}

/// `a` is a more fragmented day than `b`: more switches, then a shorter
/// average dwell, then the later date.
pub open spec fn worse_day(a: DayFigures, b: DayFigures) -> bool {
    ||| a.counts.switch_count > b.counts.switch_count
    ||| (a.counts.switch_count == b.counts.switch_count && a.counts.avg_dwell_ms < b.counts.avg_dwell_ms)
    ||| (a.counts.switch_count == b.counts.switch_count && a.counts.avg_dwell_ms == b.counts.avg_dwell_ms && seq_lt(
        b.date@,
        a.date@,
    ))
}

fn worse_day_exec(a: &DayFigures, b: &DayFigures) -> (r: bool)
    ensures
        r == worse_day(*a, *b),
{
    a.counts.switch_count > b.counts.switch_count || (a.counts.switch_count == b.counts.switch_count
        && a.counts.avg_dwell_ms < b.counts.avg_dwell_ms) || (a.counts.switch_count == b.counts.switch_count
        && a.counts.avg_dwell_ms == b.counts.avg_dwell_ms && str_lt(b.date.as_str(), a.date.as_str()))
}

/// The integer figures of the fragmentation report of a range.
#[derive(Debug, Clone)]
pub struct FragmentationCounts {
    pub days: Vec<DayFigures>,
    pub total_sessions: i64,
    pub total_switches: i64,
    pub total_short: i64,
    pub active_ms: i64,
    pub avg_dwell_ms: i64,
    pub avg_switch_count: i64,
    pub worst_day: Option<WorstDay>,
}

/// The most fragmented of `days`, if any.
fn worst_of(days: &Vec<DayFigures>) -> (r: Option<usize>)
    requires
        forall|i: int, j: int| 0 <= i < j < days@.len() ==> seq_lt(days@[i].date@, days@[j].date@),
    ensures
        match r {
            None => days@.len() == 0,
            Some(w) => w < days@.len() && forall|j: int| 0 <= j < days@.len() ==> !worse_day(#[trigger] days@[j], days@[w as int]),
        },
{
    if days.len() == 0 {
        return None;
    }
    let mut best: usize = 0;
    let mut j: usize = 1;
    proof {
        lemma_seq_lt_strict_total(days@[0].date@, days@[0].date@, days@[0].date@);
    }
    while j < days.len()
        invariant
            1 <= j <= days@.len(),
            best < j,
            forall|i: int, k: int| 0 <= i < k < days@.len() ==> seq_lt(days@[i].date@, days@[k].date@),
            forall|q: int| 0 <= q < j ==> !worse_day(#[trigger] days@[q], days@[best as int]),
        decreases days@.len() - j,
    {
        if worse_day_exec(&days[j], &days[best]) {
            proof {
                assert forall|q: int| 0 <= q < j + 1 implies !worse_day(#[trigger] days@[q], days@[j as int]) by {
                    if q < j {
                        lemma_seq_lt_strict_total(days@[q].date@, days@[best as int].date@, days@[j as int].date@);
                        lemma_seq_lt_strict_total(days@[best as int].date@, days@[j as int].date@, days@[q].date@);
                        lemma_seq_lt_strict_total(days@[q].date@, days@[j as int].date@, days@[q].date@);
                    } else {
                        lemma_seq_lt_strict_total(days@[j as int].date@, days@[j as int].date@, days@[j as int].date@);
                    }
                }
            }
            best = j;
        } else {
            proof {
                assert(days@[j as int].date@ != days@[best as int].date@) by {
                    lemma_seq_lt_strict_total(days@[best as int].date@, days@[j as int].date@, days@[j as int].date@);
                }
                lemma_seq_lt_strict_total(days@[j as int].date@, days@[best as int].date@, days@[j as int].date@);
            }
        }
        j = j + 1;
    }
    Some(best)
}

/// Fragmentation figures of a range: the sessions grouped by local date (in
/// date order), each day's counts, the range totals, the averages over
/// sessions and over days, and the most fragmented day (most switches, then
/// shortest average dwell, then latest date).
pub fn fragmentation_counts(s: &Vec<InsightSession>) -> (r: FragmentationCounts)
    requires
        s@.len() <= i64::MAX,
        dwell_sum(s@) <= i64::MAX,
    ensures
        forall|i: int, j: int| 0 <= i < j < r.days@.len() ==> seq_lt(r.days@[i].date@, r.days@[j].date@),
        forall|i: int| 0 <= i < r.days@.len() ==> day_figures_match(s@, #[trigger] r.days@[i]),
        forall|k: int| 0 <= k < s@.len() ==> #[trigger] has_figures(r.days@, s@[k].date_local@),
        r.total_sessions == s@.len(),
        r.active_ms == dwell_sum(s@),
        sum_sessions(r.days@) == s@.len(),
        sum_active(r.days@) == dwell_sum(s@),
        r.total_switches == sum_switches(r.days@),
        r.total_short == sum_short(r.days@),
        r.avg_dwell_ms == if s@.len() > 0 {
            dwell_sum(s@) / (s@.len() as int)
        } else {
            0
        },
        r.avg_switch_count == if r.days@.len() > 0 {
            sum_switches(r.days@) / (r.days@.len() as int)
        } else {
            0
        },
        match r.worst_day {
            None => r.days@.len() == 0,
            Some(w) => exists|i: int|
                0 <= i < r.days@.len() && w.date@ == r.days@[i].date@ && w.switch_count == r.days@[i].counts.switch_count
                    && w.avg_dwell_ms == r.days@[i].counts.avg_dwell_ms && forall|j: int|
                    0 <= j < r.days@.len() ==> !worse_day(#[trigger] r.days@[j], r.days@[i]),
        },
{
    let g = group_by_day(s);
    let ghost ds = group_dates(g@);
    proof {
        law_grouping_partitions_sessions(s@, g@);
    }
    let mut days: Vec<DayFigures> = Vec::new();
    let mut sessions: i64 = 0;
    let mut active: i64 = 0;
    let mut switches: i64 = 0;
    let mut short: i64 = 0;
    let mut i: usize = 0;
    while i < g.len()
        invariant
            ds == group_dates(g@),
            i <= g@.len(),
            s@.len() <= i64::MAX,
            dwell_sum(s@) <= i64::MAX,
            wsum_days(s@, ds, false) == s@.len(),
            wsum_days(s@, ds, true) == dwell_sum(s@),
            forall|q: int| 0 <= q < g@.len() ==> (#[trigger] g@[q]).sessions@ == day_of(s@, g@[q].date@) && g@[q].sessions@.len() > 0,
            days@.len() == i,
            forall|q: int| 0 <= q < i ==> day_figures_match(s@, #[trigger] days@[q]) && days@[q].date@ == g@[q].date@,
            sessions == wsum_days(s@, ds.take(i as int), false),
            active == wsum_days(s@, ds.take(i as int), true),
            switches == sum_switches(days@),
            short == sum_short(days@),
            sessions == sum_sessions(days@),
            active == sum_active(days@),
            0 <= switches <= sessions,
            0 <= short <= sessions,
        decreases g@.len() - i,
    {
        let ghost d = g@[i as int].date@;
        proof {
            assert(ds[i as int] == d);
            lemma_wsum_days_prefix(s@, ds, i as int, false);
            lemma_wsum_days_prefix(s@, ds, i + 1, false);
            lemma_wsum_days_prefix(s@, ds, i as int, true);
            lemma_wsum_days_prefix(s@, ds, i + 1, true);
            lemma_day_sums_bounded(s@, d);
            lemma_sums_bounded(day_of(s@, d));
        }
        let c = day_counts(&g[i].sessions);
        let ghost old_days = days@;
        sessions = sessions + c.session_count;
        active = active + c.active_ms;
        switches = switches + c.switch_count;
        short = short + c.short_sessions;
        days.push(DayFigures { date: g[i].date.clone(), counts: c });
        proof {
            assert(days@.drop_last() =~= old_days);
            assert forall|q: int| 0 <= q < i + 1 implies day_figures_match(s@, #[trigger] days@[q]) && days@[q].date@ == g@[q].date@ by {
                if q < i {
                    assert(days@[q] == old_days[q]);
                }
            }
        }
        i = i + 1;
    }
    proof {
        assert(ds.take(g@.len() as int) =~= ds);
        assert forall|k: int| 0 <= k < s@.len() implies #[trigger] has_figures(days@, s@[k].date_local@) by {
            assert(has_day(g@, s@[k].date_local@));
            let q = choose|q: int| 0 <= q < g@.len() && g@[q].date@ == s@[k].date_local@;
            assert(days@[q].date@ == g@[q].date@);
        }
        assert forall|a: int, b: int| 0 <= a < b < days@.len() implies seq_lt(days@[a].date@, days@[b].date@) by {
            assert(days@[a].date@ == g@[a].date@);
            assert(days@[b].date@ == g@[b].date@);
        }
    }
    proof {
        lemma_sums_bounded(s@);
        assert forall|q: int| 0 <= q < ds.len() implies #[trigger] day_of(s@, ds[q]).len() > 0 by {
            assert(ds[q] == g@[q].date@);
        }
        lemma_days_count(s@, ds);
    }
    let n = s.len() as i64;
    let avg_dwell: i64 = if n > 0 {
        active / n
    } else {
        0
    };
    let nd = days.len() as i64;
    let avg_switch: i64 = if nd > 0 {
        switches / nd
    } else {
        0
    };
    let worst = match worst_of(&days) {
        Some(w) => Some(
            WorstDay {
                date: days[w].date.clone(),
                switch_count: days[w].counts.switch_count,
                avg_dwell_ms: days[w].counts.avg_dwell_ms,
            },
        ),
        None => None,
    };
    FragmentationCounts {
        days,
        total_sessions: sessions,
        total_switches: switches,
        total_short: short,
        active_ms: active,
        avg_dwell_ms: avg_dwell,
        avg_switch_count: avg_switch,
        worst_day: worst,
    }
}

} // verus!
