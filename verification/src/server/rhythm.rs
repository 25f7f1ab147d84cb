//! The weekly rhythm heat map: usage per weekday (Monday = 0) and hour,
//! averaged over the dates of the range that fall on that weekday.
//!
//! Dates are read by their day number in the proleptic Gregorian calendar
//! (January 1 of year 1, a Monday, is day 1), so the weekday of a date is
//! its day number less one, modulo seven, and the dates of a range are the
//! day numbers between its ends.
use vstd::prelude::*;

verus! {

/// Day number of a `YYYY-MM-DD` date, `None` when it does not parse.
pub uninterp spec fn date_day_number(date: Seq<char>) -> Option<i32>;

/// `chrono::NaiveDate::parse_from_str(date, "%Y-%m-%d")`, then
/// `Datelike::num_days_from_ce` (January 1 of year 1 is day 1). The result
/// depends on the text alone; the calendar itself is not restated here.
#[verifier::external_body]
fn day_number(date: &str) -> (r: Option<i32>)
    ensures
        r == date_day_number(date@),
{
    chrono::NaiveDate::parse_from_str(date, "%Y-%m-%d").ok().map(|d| chrono::Datelike::num_days_from_ce(&d))
}

/// Weekday of a day number, Monday = 0.
pub open spec fn weekday_of_day(d: int) -> int {
    (d - 1) % 7
}

fn weekday_exec(d: i32) -> (w: usize)
    ensures
        w == weekday_of_day(d as int),
        w < 7,
{
    // Shift by a multiple of seven to a nonnegative value first.
    let x: i64 = (d as i64) - 1 + 7 * 2_147_483_648;
    let r = (x as u64) % 7;
    assert(r as int == weekday_of_day(d as int)) by (nonlinear_arith)
        requires
            x == d - 1 + 7 * 2_147_483_648,
            x >= 0,
            r == x % 7,
    ;
    r as usize
}

/// Number of day numbers in `a..=b` that fall on weekday `wd`.
pub open spec fn weekday_count(a: int, b: int, wd: int) -> int
    decreases b - a + 1,
{
    if b < a {
        0
    } else {
        weekday_count(a, b - 1, wd) + if weekday_of_day(b) == wd {
            1int
        } else {
            0int
        }
    }
}

/// Number of dates of `from..=to` on weekday `wd`; none when an end does not
/// parse.
pub open spec fn range_weekday_days(from: Seq<char>, to: Seq<char>, wd: int) -> int {
    match (date_day_number(from), date_day_number(to)) {
        (Some(a), Some(b)) => weekday_count(a as int, b as int, wd),
        _ => 0,
    }
}

/// Weekday of a row's date, if it parses.
pub open spec fn row_weekday(row: (String, u8, i64)) -> Option<int> {
    match date_day_number(row.0@) {
        Some(d) => Some(weekday_of_day(d as int)),
        None => None,
    }
}

/// Summed totals of the first `k` rows that fall in cell (`wd`, `h`); rows
/// whose date does not parse or whose hour is past 23 count nowhere.
pub open spec fn cell_total(rows: Seq<(String, u8, i64)>, k: int, wd: int, h: int) -> int
    decreases k,
{
    if k <= 0 {
        0
    } else {
        cell_total(rows, k - 1, wd, h) + if rows[k - 1].1 <= 23 && rows[k - 1].1 == h && row_weekday(rows[k - 1]) == Some(wd) {
            rows[k - 1].2 as int
        } else {
            0
        }
    }
}

/// Every running cell total fits in an `i64`.
pub open spec fn cell_totals_fit(rows: Seq<(String, u8, i64)>) -> bool {
    forall|k: int, wd: int, h: int|
        0 <= k <= rows.len() ==> i64::MIN <= #[trigger] cell_total(rows, k, wd, h) <= i64::MAX
}

/// Average usage of one weekday (Monday = 0) x hour cell.
#[derive(Debug, Clone, Copy, PartialEq, Eq)]
pub struct RhythmCell {
    pub weekday: u8,
    pub hour: u8,
    pub total_ms: i64,
    pub avg_ms: i64,
    pub days: i64,
}

/// The weekly rhythm heat map of a date range.
#[derive(Debug, Clone)]
pub struct RhythmResponse {
    pub from: String,
    pub to: String,
    pub max_avg_ms: i64,
    pub cells: Vec<RhythmCell>,
}

pub open spec fn cell_matches(rows: Seq<(String, u8, i64)>, from: Seq<char>, to: Seq<char>, c: RhythmCell) -> bool {
    &&& c.weekday < 7
    &&& c.hour < 24
    &&& c.total_ms == cell_total(rows, rows.len() as int, c.weekday as int, c.hour as int)
    &&& c.total_ms > 0
    &&& c.days == range_weekday_days(from, to, c.weekday as int)
    &&& c.avg_ms == if c.days > 0 {
        c.total_ms / c.days
    } else {
        0
    }
}

pub open spec fn cell_key(c: RhythmCell) -> int {
    c.weekday * 24 + c.hour
}

proof fn lemma_weekday_count_bounds(a: int, b: int, wd: int)
    ensures
        0 <= weekday_count(a, b, wd),
        b >= a ==> weekday_count(a, b, wd) <= b - a + 1,
        b < a ==> weekday_count(a, b, wd) == 0,
    decreases b - a + 1,
{
    if b >= a {
        lemma_weekday_count_bounds(a, b - 1, wd);
    }
}

/// Dates of `from..=to` per weekday.
fn weekday_days(from: &str, to: &str) -> (w: Vec<i64>)
    ensures
        w@.len() == 7,
        forall|wd: int| 0 <= wd < 7 ==> #[trigger] w@[wd] == range_weekday_days(from@, to@, wd),
{
    let mut w: Vec<i64> = vec![0, 0, 0, 0, 0, 0, 0];
    match (day_number(from), day_number(to)) {
        (Some(a), Some(b)) => {
            let mut d: i64 = a as i64;
            while d <= b as i64
                invariant
                    w@.len() == 7,
                    a <= d,
                    d <= b + 1 || d == a,
                    forall|wd: int| 0 <= wd < 7 ==> #[trigger] w@[wd] == weekday_count(a as int, d - 1, wd),
                decreases b - d + 1,
            {
                let k = weekday_exec(d as i32);
                proof {
                    lemma_weekday_count_bounds(a as int, d - 1, k as int);
                }
                let v = w[k];
                w.set(k, v + 1);
                proof {
                    assert forall|wd: int| 0 <= wd < 7 implies #[trigger] w@[wd] == weekday_count(a as int, d as int, wd) by {
                        assert(weekday_count(a as int, d as int, wd) == weekday_count(a as int, d - 1, wd) + if weekday_of_day(d as int) == wd {
                            1int
                        } else {
                            0int
                        });
                    }
                }
                d = d + 1;
            }
            proof {
                if a > b {
                    assert forall|wd: int| 0 <= wd < 7 implies #[trigger] w@[wd] == range_weekday_days(from@, to@, wd) by {
                        lemma_weekday_count_bounds(a as int, b as int, wd);
                        lemma_weekday_count_bounds(a as int, a - 1, wd);
                    }
                }
            }
        },
        _ => {},
    }
    w
}

/// Usage per weekday and hour over `from..=to`, from `(date, hour, total)`
/// rows: a cell's total sums the rows of its weekday and hour (rows whose
/// date does not parse or whose hour is past 23 are skipped), its average
/// divides that total by the number of dates of the range on its weekday.
/// Only cells with a positive total are listed, ordered by weekday then
/// hour; `max_avg_ms` is the largest average, 0 when there is no cell.
pub fn rhythm(rows: &Vec<(String, u8, i64)>, from: &str, to: &str) -> (r: RhythmResponse)
    requires
        cell_totals_fit(rows@),
    ensures
        r.from@ == from@,
        r.to@ == to@,
        forall|i: int| 0 <= i < r.cells@.len() ==> cell_matches(rows@, from@, to@, #[trigger] r.cells@[i]),
        forall|i: int, j: int| 0 <= i < j < r.cells@.len() ==> cell_key(r.cells@[i]) < cell_key(r.cells@[j]),
        forall|wd: int, h: int|
            0 <= wd < 7 && 0 <= h < 24 && #[trigger] cell_total(rows@, rows@.len() as int, wd, h) > 0 ==> exists|i: int|
                0 <= i < r.cells@.len() && r.cells@[i].weekday == wd && r.cells@[i].hour == h,
        forall|i: int| 0 <= i < r.cells@.len() ==> (#[trigger] r.cells@[i]).avg_ms <= r.max_avg_ms,
        r.cells@.len() == 0 ==> r.max_avg_ms == 0,
        r.cells@.len() > 0 ==> exists|i: int| 0 <= i < r.cells@.len() && r.cells@[i].avg_ms == r.max_avg_ms,
{
    let n = rows.len();
    let ghost rv = rows@;
    let mut acc: Vec<i64> = Vec::new();
    let mut z: usize = 0;
    while z < 168
        invariant
            z <= 168,
            acc@.len() == z,
            forall|q: int| 0 <= q < z ==> acc@[q] == 0,
        decreases 168 - z,
    {
        acc.push(0);
        z = z + 1;
    }
    let mut i: usize = 0;
    while i < n
        invariant
            rv == rows@,
            n == rv.len(),
            i <= n,
            cell_totals_fit(rv),
            acc@.len() == 168,
            forall|wd: int, h: int| 0 <= wd < 7 && 0 <= h < 24 ==> #[trigger] acc@[wd * 24 + h] == cell_total(rv, i as int, wd, h),
        decreases n - i,
    {
        let row = &rows[i];
        let ghost before = acc@;
        match day_number(row.0.as_str()) {
            Some(d) => {
                if row.1 <= 23 {
                    let w = weekday_exec(d);
                    let idx = w * 24 + row.1 as usize;
                    assert(i64::MIN <= cell_total(rv, i + 1, w as int, row.1 as int) <= i64::MAX);
                    let v = acc[idx];
                    acc.set(idx, v + row.2);
                }
            },
            None => {},
        }
        proof {
            assert forall|wd: int, h: int| 0 <= wd < 7 && 0 <= h < 24 implies #[trigger] acc@[wd * 24 + h] == cell_total(rv, i + 1, wd, h) by {
                assert(before[wd * 24 + h] == cell_total(rv, i as int, wd, h));
                assert(rv[i as int] == *row);
            }
        }
        i = i + 1;
    }

    let wdays = weekday_days(from, to);
    let mut cells: Vec<RhythmCell> = Vec::new();
    let mut max_avg: i64 = 0;
    let mut w: usize = 0;
    while w < 7
        invariant
            rv == rows@,
            n == rv.len(),
            w <= 7,
            acc@.len() == 168,
            forall|wd: int, h: int| 0 <= wd < 7 && 0 <= h < 24 ==> #[trigger] acc@[wd * 24 + h] == cell_total(rv, n as int, wd, h),
            wdays@.len() == 7,
            forall|wd: int| 0 <= wd < 7 ==> #[trigger] wdays@[wd] == range_weekday_days(from@, to@, wd),
            forall|q: int| 0 <= q < cells@.len() ==> cell_matches(rv, from@, to@, #[trigger] cells@[q]) && cell_key(cells@[q]) < w * 24,
            forall|q: int, p: int| 0 <= q < p < cells@.len() ==> cell_key(cells@[q]) < cell_key(cells@[p]),
            forall|wd: int, h: int| 0 <= wd < w && 0 <= h < 24 && #[trigger] cell_total(rv, n as int, wd, h) > 0 ==> exists|q: int|
                0 <= q < cells@.len() && cells@[q].weekday == wd && cells@[q].hour == h,
            forall|q: int| 0 <= q < cells@.len() ==> (#[trigger] cells@[q]).avg_ms <= max_avg,
            cells@.len() == 0 ==> max_avg == 0,
            cells@.len() > 0 ==> exists|q: int| 0 <= q < cells@.len() && cells@[q].avg_ms == max_avg,
        decreases 7 - w,
    {
        let mut h: usize = 0;
        while h < 24
            invariant
                rv == rows@,
                n == rv.len(),
                w < 7,
                h <= 24,
                acc@.len() == 168,
                forall|wd: int, hh: int| 0 <= wd < 7 && 0 <= hh < 24 ==> #[trigger] acc@[wd * 24 + hh] == cell_total(rv, n as int, wd, hh),
                wdays@.len() == 7,
                forall|wd: int| 0 <= wd < 7 ==> #[trigger] wdays@[wd] == range_weekday_days(from@, to@, wd),
                forall|q: int| 0 <= q < cells@.len() ==> cell_matches(rv, from@, to@, #[trigger] cells@[q]) && cell_key(cells@[q]) < w * 24 + h,
                forall|q: int, p: int| 0 <= q < p < cells@.len() ==> cell_key(cells@[q]) < cell_key(cells@[p]),
                forall|wd: int, hh: int|
                    (0 <= wd < w && 0 <= hh < 24 || wd == w && 0 <= hh < h) && #[trigger] cell_total(rv, n as int, wd, hh) > 0 ==> exists|q: int|
                        0 <= q < cells@.len() && cells@[q].weekday == wd && cells@[q].hour == hh,
                forall|q: int| 0 <= q < cells@.len() ==> (#[trigger] cells@[q]).avg_ms <= max_avg,
                cells@.len() == 0 ==> max_avg == 0,
                cells@.len() > 0 ==> exists|q: int| 0 <= q < cells@.len() && cells@[q].avg_ms == max_avg,
            decreases 24 - h,
        {
            let total = acc[w * 24 + h];
            assert(total == cell_total(rv, n as int, w as int, h as int));
            if total > 0 {
                let days = wdays[w];
                let avg: i64 = if days > 0 {
                    total / days
                } else {
                    0
                };
                let ghost old_cells = cells@;
                let ghost old_max = max_avg;
                let cell = RhythmCell { weekday: w as u8, hour: h as u8, total_ms: total, avg_ms: avg, days };
                cells.push(cell);
                if avg > max_avg {
                    max_avg = avg;
                }
                proof {
                    assert(cells@[old_cells.len() as int] == cell);
                    assert forall|q: int| 0 <= q < cells@.len() implies (#[trigger] cells@[q]).avg_ms <= max_avg by {
                        if q < old_cells.len() {
                            assert(cells@[q] == old_cells[q]);
                        }
                    }
                    if max_avg == avg {
                        assert(cells@[old_cells.len() as int].avg_ms == max_avg);
                    } else {
                        let q = choose|q: int| 0 <= q < old_cells.len() && old_cells[q].avg_ms == old_max;
                        assert(cells@[q] == old_cells[q]);
                    }
                    assert forall|wd: int, hh: int|
                        (0 <= wd < w && 0 <= hh < 24 || wd == w && 0 <= hh < h + 1) && #[trigger] cell_total(rv, n as int, wd, hh) > 0 implies exists|q: int|
                            0 <= q < cells@.len() && cells@[q].weekday == wd && cells@[q].hour == hh by {
                        if wd == w && hh == h {
                            assert(cells@[old_cells.len() as int].weekday == wd);
                        } else {
                            let q = choose|q: int| 0 <= q < old_cells.len() && old_cells[q].weekday == wd && old_cells[q].hour == hh;
                            assert(cells@[q] == old_cells[q]);
                        }
                    }
                }
            }
            h = h + 1;
        }
        w = w + 1;
    }
    RhythmResponse { from: from.to_string(), to: to.to_string(), max_avg_ms: max_avg, cells }
}

/// What `rhythm` returns for `rows`, `from` and `to`.
pub open spec fn rhythm_matches(rows: Seq<(String, u8, i64)>, from: Seq<char>, to: Seq<char>, r: RhythmResponse) -> bool {
    &&& r.from@ == from
    &&& r.to@ == to
    &&& forall|i: int| 0 <= i < r.cells@.len() ==> cell_matches(rows, from, to, #[trigger] r.cells@[i])
    &&& forall|i: int, j: int| 0 <= i < j < r.cells@.len() ==> cell_key(r.cells@[i]) < cell_key(r.cells@[j])
    &&& forall|wd: int, h: int|
        0 <= wd < 7 && 0 <= h < 24 && #[trigger] cell_total(rows, rows.len() as int, wd, h) > 0 ==> exists|i: int|
            0 <= i < r.cells@.len() && r.cells@[i].weekday == wd && r.cells@[i].hour == h
    &&& forall|i: int| 0 <= i < r.cells@.len() ==> (#[trigger] r.cells@[i]).avg_ms <= r.max_avg_ms
    &&& r.cells@.len() == 0 ==> r.max_avg_ms == 0
    &&& r.cells@.len() > 0 ==> exists|i: int| 0 <= i < r.cells@.len() && r.cells@[i].avg_ms == r.max_avg_ms
}

/// Summed absolute totals of the first `k` rows.
pub open spec fn abs_total(rows: Seq<(String, u8, i64)>, k: int) -> int
    decreases k,
{
    if k <= 0 {
        0
    } else {
        abs_total(rows, k - 1) + if rows[k - 1].2 < 0 {
            -(rows[k - 1].2 as int)
        } else {
            rows[k - 1].2 as int
        }
    }
}

proof fn lemma_cell_within_abs(rows: Seq<(String, u8, i64)>, j: int, k: int, wd: int, h: int)
    requires
        0 <= j <= k <= rows.len(),
    ensures
        0 <= abs_total(rows, j) <= abs_total(rows, k),
        -abs_total(rows, j) <= cell_total(rows, j, wd, h) <= abs_total(rows, j),
    decreases k,
{
    if k > 0 {
        if j < k {
            lemma_cell_within_abs(rows, j, k - 1, wd, h);
        } else {
            lemma_cell_within_abs(rows, k - 1, k - 1, wd, h);
        }
    }
}

/// When the rows' absolute totals add up to at most `i64::MAX`, no cell
/// total can leave the `i64` range.
pub proof fn lemma_abs_total_bounds_cells(rows: Seq<(String, u8, i64)>)
    requires
        abs_total(rows, rows.len() as int) <= i64::MAX,
    ensures
        cell_totals_fit(rows),
{
    assert forall|k: int, wd: int, h: int| 0 <= k <= rows.len() implies i64::MIN <= #[trigger] cell_total(rows, k, wd, h)
        <= i64::MAX by {
        lemma_cell_within_abs(rows, k, rows.len() as int, wd, h);
    }
}

/// `rhythm`, when the rows' absolute totals add up to at most `i64::MAX`
/// (so no cell total can overflow); `None` otherwise.
pub fn rhythm_checked(rows: &Vec<(String, u8, i64)>, from: &str, to: &str) -> (r: Option<RhythmResponse>)
    ensures
        r is None <==> abs_total(rows@, rows@.len() as int) > i64::MAX,
        r matches Some(x) ==> rhythm_matches(rows@, from@, to@, x),
{
    let n = rows.len();
    let mut sum: u64 = 0;
    let mut i: usize = 0;
    while i < n
        invariant
            n == rows@.len(),
            i <= n,
            sum == abs_total(rows@, i as int),
            sum <= i64::MAX,
        decreases n - i,
    {
        let v = rows[i].2;
        let a: u64 = if v < 0 {
            if v == i64::MIN {
                9223372036854775808u64
            } else {
                (-v) as u64
            }
        } else {
            v as u64
        };
        sum = sum + a;
        i = i + 1;
        if sum > 9223372036854775807u64 {
            proof {
                lemma_cell_within_abs(rows@, i as int, n as int, 0, 0);
            }
            return None;
        }
    }
    proof {
        lemma_abs_total_bounds_cells(rows@);
    }
    Some(rhythm(rows, from, to))
}

/// The seven weekday counts of `a..=b`, added up.
pub open spec fn week_total(a: int, b: int) -> int {
    weekday_count(a, b, 0) + weekday_count(a, b, 1) + weekday_count(a, b, 2) + weekday_count(a, b, 3)
        + weekday_count(a, b, 4) + weekday_count(a, b, 5) + weekday_count(a, b, 6)
}

/// Every date of a range falls on exactly one weekday: the per-weekday day
/// counts that divide the rhythm cells add up to the number of dates.
pub proof fn law_weekday_days_cover_range(a: int, b: int)
    ensures
        week_total(a, b) == if b >= a {
            b - a + 1
        } else {
            0
        },
    decreases b - a + 1,
{
    if b >= a {
        law_weekday_days_cover_range(a, b - 1);
        assert(0 <= weekday_of_day(b) < 7);
    }
}

} // verus!
