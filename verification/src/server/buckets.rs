//! The most and the least interrupted days of a range, the two quartiles
//! compared by the disruption-impact report.
use vstd::prelude::*;
use crate::text::{seq_lt, str_lt, lemma_seq_lt_strict_total};

verus! {

/// Day `a` ranks before day `b` by interruptions: more disruptions first,
/// then the earlier date.
pub open spec fn more_disrupted(a: (String, i64), b: (String, i64)) -> bool {
    a.1 > b.1 || (a.1 == b.1 && seq_lt(a.0@, b.0@))
}

/// Day `i` of `days` ranks before day `j`: it is more disrupted, or the
/// two tie on disruptions and date and `i` comes first (a stable sort keeps
/// the input order of ties).
pub open spec fn ranks_before(days: Seq<(String, i64)>, i: int, j: int) -> bool {
    more_disrupted(days[i], days[j]) || (days[i].1 == days[j].1 && days[i].0@ == days[j].0@ && i < j)
}

/// The selection order: ranking order, or its reverse.
pub open spec fn ahead(worst: bool, days: Seq<(String, i64)>, a: int, b: int) -> bool {
    if worst {
        ranks_before(days, b, a)
    } else {
        ranks_before(days, a, b)
    }
}

proof fn lemma_ahead_order(worst: bool, days: Seq<(String, i64)>, a: int, b: int, c: int)
    ensures
        !ahead(worst, days, a, a),
        ahead(worst, days, a, b) && ahead(worst, days, b, c) ==> ahead(worst, days, a, c),
        a != b ==> ahead(worst, days, a, b) || ahead(worst, days, b, a),
{
    lemma_seq_lt_strict_total(days[a].0@, days[b].0@, days[c].0@);
    lemma_seq_lt_strict_total(days[c].0@, days[b].0@, days[a].0@);
    lemma_seq_lt_strict_total(days[b].0@, days[a].0@, days[c].0@);
    lemma_seq_lt_strict_total(days[a].0@, days[c].0@, days[b].0@);
}

fn before_exec(days: &Vec<(String, i64)>, i: usize, j: usize) -> (r: bool)
    requires
        i < days@.len(),
        j < days@.len(),
    ensures
        r == ranks_before(days@, i as int, j as int),
{
    let a = &days[i];
    let b = &days[j];
    proof {
        lemma_seq_lt_strict_total(a.0@, b.0@, b.0@);
    }
    a.1 > b.1 || (a.1 == b.1 && (str_lt(a.0.as_str(), b.0.as_str()) || (!str_lt(b.0.as_str(), a.0.as_str())
        && i < j)))
}

fn ahead_exec(worst: bool, days: &Vec<(String, i64)>, a: usize, b: usize) -> (r: bool)
    requires
        a < days@.len(),
        b < days@.len(),
    ensures
        r == ahead(worst, days@, a as int, b as int),
{
    if worst {
        before_exec(days, b, a)
    } else {
        before_exec(days, a, b)
    }
}

pub open spec fn picked(r: Seq<usize>, j: int) -> bool {
    exists|i: int| 0 <= i < r.len() && r[i] == j
}

/// The first `count` days in `ahead(worst)` order, as indices: strictly
/// ordered, stopping short of `count` only when every day is taken, and
/// every day left out comes after all of those taken.
fn select(days: &Vec<(String, i64)>, count: usize, worst: bool) -> (r: Vec<usize>)
    ensures
        r@.len() <= count,
        forall|i: int| 0 <= i < r@.len() ==> r@[i] < days@.len(),
        forall|i: int, j: int| 0 <= i < j < r@.len() ==> ahead(worst, days@, r@[i] as int, r@[j] as int),
        forall|j: int| 0 <= j < days@.len() ==> #[trigger] picked(r@, j) || forall|i: int|
            0 <= i < r@.len() ==> ahead(worst, days@, #[trigger] r@[i] as int, j),
        r@.len() == count || forall|j: int| 0 <= j < days@.len() ==> #[trigger] picked(r@, j),
{
    let n = days.len();
    let ghost dv = days@;
    let mut r: Vec<usize> = Vec::new();
    let mut done = false;
    while r.len() < count && !done
        invariant
            dv == days@,
            n == dv.len(),
            r@.len() <= count,
            forall|i: int| 0 <= i < r@.len() ==> r@[i] < n,
            forall|i: int, j: int| 0 <= i < j < r@.len() ==> ahead(worst, dv, r@[i] as int, r@[j] as int),
            forall|j: int| 0 <= j < n ==> #[trigger] picked(r@, j) || forall|i: int|
                0 <= i < r@.len() ==> ahead(worst, dv, #[trigger] r@[i] as int, j),
            done ==> forall|j: int| 0 <= j < n ==> #[trigger] picked(r@, j),
        decreases count - r@.len() + if done {
            0int
        } else {
            1int
        },
    {
        let m = r.len();
        let prev: usize = if m > 0 {
            r[m - 1]
        } else {
            0
        };
        let mut best: Option<usize> = None;
        let mut j: usize = 0;
        while j < n
            invariant
                dv == days@,
                n == dv.len(),
                m == r@.len(),
                forall|i: int| 0 <= i < r@.len() ==> r@[i] < n,
                m > 0 ==> prev == r@[m - 1] && prev < n,
                j <= n,
                match best {
                    None => forall|k: int| #![trigger dv[k]] 0 <= k < j ==> !(m == 0 || ahead(worst, dv, prev as int, k)),
                    Some(b) => b < j && (m == 0 || ahead(worst, dv, prev as int, b as int)) && forall|k: int|
                        #![trigger dv[k]] 0 <= k < j && (m == 0 || ahead(worst, dv, prev as int, k)) ==> k == b
                            || ahead(worst, dv, b as int, k),
                },
            decreases n - j,
        {
            let cand = m == 0 || ahead_exec(worst, days, prev, j);
            if cand {
                match best {
                    None => {
                        best = Some(j);
                    },
                    Some(b) => {
                        proof {
                            lemma_ahead_order(worst, dv, j as int, b as int, j as int);
                            assert forall|k: int|
                                #![trigger dv[k]] 0 <= k < j && (m == 0 || ahead(worst, dv, prev as int, k)) && ahead(
                                    worst,
                                    dv,
                                    j as int,
                                    b as int,
                                ) implies k == j || ahead(worst, dv, j as int, k) by {
                                lemma_ahead_order(worst, dv, j as int, b as int, k);
                            }
                        }
                        if ahead_exec(worst, days, j, b) {
                            best = Some(j);
                        }
                    },
                }
            }
            j = j + 1;
        }
        match best {
            None => {
                proof {
                    assert forall|k: int| 0 <= k < n implies #[trigger] picked(r@, k) by {
                        let x = dv[k];
                        assert(!(m == 0 || ahead(worst, dv, prev as int, k)));
                        if !picked(r@, k) {
                            assert(ahead(worst, dv, prev as int, k));
                        }
                    }
                }
                done = true;
            },
            Some(b) => {
                let ghost old_r = r@;
                r.push(b);
                proof {
                    assert(r@[m as int] == b);
                    assert forall|i: int, k: int| 0 <= i < k < r@.len() implies ahead(worst, dv, r@[i] as int, r@[k] as int) by {
                        if k == m && i < m - 1 {
                            assert(ahead(worst, dv, old_r[i] as int, old_r[m - 1] as int));
                            lemma_ahead_order(worst, dv, old_r[i] as int, old_r[m - 1] as int, b as int);
                        }
                    }
                    assert forall|k: int| 0 <= k < n implies #[trigger] picked(r@, k) || forall|i: int|
                        0 <= i < r@.len() ==> ahead(worst, dv, #[trigger] r@[i] as int, k) by {
                        if picked(old_r, k) {
                            let w = choose|w: int| 0 <= w < old_r.len() && old_r[w] == k;
                            assert(r@[w] == k);
                        } else if k == b {
                            assert(r@[m as int] == k);
                        } else {
                            if m > 0 {
                                assert(old_r[m - 1] == prev);
                                assert(ahead(worst, dv, prev as int, k));
                            }
                            assert(ahead(worst, dv, b as int, k));
                            assert forall|i: int| 0 <= i < r@.len() implies ahead(worst, dv, #[trigger] r@[i] as int, k) by {
                                if i < m {
                                    assert(r@[i] == old_r[i]);
                                }
                            }
                        }
                    }
                }
            },
        }
    }
    r
}

/// Size of each bucket: a quarter of the days rounded up, at least one day
/// when there are any (`ceil(n * 0.25)` clamped to `1..=n`).
pub open spec fn bucket_size(n: int) -> int {
    if n <= 0 {
        0
    } else {
        (n + 3) / 4
    }
}

/// The most and the least interrupted days, as indices into `days`
/// (`(date, disruptions)` of each day).
///
/// Both lists follow the ranking order (more disruptions first, then the
/// earlier date, then the input order). `high` holds the first
/// `bucket_size` days of that order: every other day ranks after all of
/// them. `low` holds the last `bucket_size` days: every other day ranks
/// before all of them. A list is shorter than `bucket_size` only when it
/// holds every day.
pub fn disruption_buckets(days: &Vec<(String, i64)>) -> (r: (Vec<usize>, Vec<usize>))
    ensures
        r.0@.len() <= bucket_size(days@.len() as int),
        r.1@.len() <= bucket_size(days@.len() as int),
        forall|i: int| 0 <= i < r.0@.len() ==> r.0@[i] < days@.len(),
        forall|i: int| 0 <= i < r.1@.len() ==> r.1@[i] < days@.len(),
        forall|i: int, j: int| 0 <= i < j < r.0@.len() ==> ranks_before(days@, r.0@[i] as int, r.0@[j] as int),
        forall|i: int, j: int| 0 <= i < j < r.1@.len() ==> ranks_before(days@, r.1@[i] as int, r.1@[j] as int),
        forall|j: int| 0 <= j < days@.len() ==> #[trigger] picked(r.0@, j) || forall|i: int|
            0 <= i < r.0@.len() ==> ranks_before(days@, #[trigger] r.0@[i] as int, j),
        forall|j: int| 0 <= j < days@.len() ==> #[trigger] picked(r.1@, j) || forall|i: int|
            0 <= i < r.1@.len() ==> ranks_before(days@, j, #[trigger] r.1@[i] as int),
        r.0@.len() == bucket_size(days@.len() as int) || forall|j: int| 0 <= j < days@.len() ==> #[trigger] picked(r.0@, j),
        r.1@.len() == bucket_size(days@.len() as int) || forall|j: int| 0 <= j < days@.len() ==> #[trigger] picked(r.1@, j),
{
    let n = days.len();
    let b: usize = if n == 0 {
        0
    } else {
        n / 4 + if n % 4 == 0 {
            0
        } else {
            1
        }
    };
    assert(b == bucket_size(n as int));
    let high = select(days, b, false);
    let sel = select(days, b, true);
    let mut low: Vec<usize> = Vec::new();
    let mut k: usize = sel.len();
    while k > 0
        invariant
            k <= sel@.len(),
            low@.len() == sel@.len() - k,
            forall|i: int| 0 <= i < low@.len() ==> #[trigger] low@[i] == sel@[sel@.len() - 1 - i],
        decreases k,
    {
        k = k - 1;
        low.push(sel[k]);
    }
    proof {
        assert forall|i: int, j: int| 0 <= i < j < high@.len() implies ranks_before(days@, high@[i] as int, high@[j] as int) by {
            assert(ahead(false, days@, high@[i] as int, high@[j] as int));
        }
        assert forall|j: int| 0 <= j < days@.len() implies #[trigger] picked(high@, j) || forall|i: int|
            0 <= i < high@.len() ==> ranks_before(days@, #[trigger] high@[i] as int, j) by {
            if !picked(high@, j) {
                assert forall|i: int| 0 <= i < high@.len() implies ranks_before(days@, #[trigger] high@[i] as int, j) by {
                    assert(ahead(false, days@, high@[i] as int, j));
                }
            }
        }
        let l = sel@.len() as int;
        assert forall|i: int, j: int| 0 <= i < j < low@.len() implies ranks_before(days@, low@[i] as int, low@[j] as int) by {
            assert(low@[i] == sel@[l - 1 - i]);
            assert(low@[j] == sel@[l - 1 - j]);
            assert(ahead(true, days@, sel@[l - 1 - j] as int, sel@[l - 1 - i] as int));
        }
        assert forall|j: int| 0 <= j < days@.len() implies #[trigger] picked(low@, j) || forall|i: int|
            0 <= i < low@.len() ==> ranks_before(days@, j, #[trigger] low@[i] as int) by {
            if picked(sel@, j) {
                let w = choose|w: int| 0 <= w < l && sel@[w] == j;
                assert(low@[l - 1 - w] == j);
            } else {
                assert forall|i: int| 0 <= i < low@.len() implies ranks_before(days@, j, #[trigger] low@[i] as int) by {
                    assert(low@[i] == sel@[l - 1 - i]);
                    assert(ahead(true, days@, sel@[l - 1 - i] as int, j));
                }
            }
        }
        assert forall|i: int| 0 <= i < low@.len() implies low@[i] < days@.len() by {
            assert(low@[i] == sel@[l - 1 - i]);
        }
        if sel@.len() != b {
            assert forall|j: int| 0 <= j < days@.len() implies #[trigger] picked(low@, j) by {
                assert(picked(sel@, j));
                let w = choose|w: int| 0 <= w < l && sel@[w] == j;
                assert(low@[l - 1 - w] == j);
            }
        }
    }
    (high, low)
}

} // verus!
