//! Markov transition counts between apps over a chronologically ordered list
//! of sessions: per-app totals, the ranking that decides which apps become
//! nodes, and how often (and after how long a gap) one app followed another.
//!
//! Apps are identified by integer ids whose order is the order of their
//! class names, so ranking ties fall back to the alphabetical order.
//! The ratios of the response (shares and probabilities) are left to the
//! caller, which divides the counts given here.
use vstd::prelude::*;
use crate::server::insights::{InsightSession, dwell, end_ms_spec, rfc3339_ms};
use crate::server::pairs::PairTable;

verus! {

/// One session as the transition statistics read it.
#[derive(Debug, Clone, Copy, PartialEq, Eq)]
pub struct TransitionStep {
    pub class: u64,
    pub dwell_ms: i64,
    /// Start instant (ms since the Unix epoch), if known.
    pub start_ms: Option<i64>,
    /// End instant (ms since the Unix epoch), if known.
    pub end_ms: Option<i64>,
}

/// The dwell time of a session, negative values counting as zero.
pub open spec fn step_dwell(x: TransitionStep) -> int {
    if x.dwell_ms < 0 {
        0
    } else {
        x.dwell_ms as int
    }
}

/// Summed dwell of the first `k` sessions.
pub open spec fn all_total(s: Seq<TransitionStep>, k: int) -> int
    decreases k,
{
    if k <= 0 {
        0
    } else {
        all_total(s, k - 1) + step_dwell(s[k - 1])
    }
}

/// Summed dwell of app `c` among the first `k` sessions.
pub open spec fn class_total(s: Seq<TransitionStep>, k: int, c: u64) -> int
    decreases k,
{
    if k <= 0 {
        0
    } else {
        class_total(s, k - 1, c) + if s[k - 1].class == c {
            step_dwell(s[k - 1])
        } else {
            0
        }
    }
}

/// Number of sessions of app `c` among the first `k`.
pub open spec fn class_count(s: Seq<TransitionStep>, k: int, c: u64) -> int
    decreases k,
{
    if k <= 0 {
        0
    } else {
        class_count(s, k - 1, c) + if s[k - 1].class == c {
            1int
        } else {
            0int
        }
    }
}

/// Gap between session `i` ending and session `i + 1` starting, negative
/// gaps (clock jumps, overlaps) and unknown instants counting as zero.
pub open spec fn gap_at(s: Seq<TransitionStep>, i: int) -> int {
    match (s[i + 1].start_ms, s[i].end_ms) {
        (Some(a), Some(b)) => if a - b > 0 {
            a - b
        } else {
            0
        },
        _ => 0,
    }
}

/// Number of the first `k` transitions (session `i` to session `i + 1`)
/// that go from app `a` to app `b`.
pub open spec fn pair_count(s: Seq<TransitionStep>, k: int, a: u64, b: u64) -> int
    decreases k,
{
    if k <= 0 {
        0
    } else {
        pair_count(s, k - 1, a, b) + if s[k - 1].class == a && s[k].class == b {
            1int
        } else {
            0int
        }
    }
}

/// Summed gaps of the first `k` transitions from app `a` to app `b`.
pub open spec fn pair_gap(s: Seq<TransitionStep>, k: int, a: u64, b: u64) -> int
    decreases k,
{
    if k <= 0 {
        0
    } else {
        pair_gap(s, k - 1, a, b) + if s[k - 1].class == a && s[k].class == b {
            gap_at(s, k - 1)
        } else {
            0
        }
    }
}

/// Number of transitions between `n` consecutive sessions.
pub open spec fn transitions_of(n: int) -> int {
    if n > 0 {
        n - 1
    } else {
        0
    }
}

/// Ranking order of apps: larger total first, then more sessions, then the
/// smaller id (the alphabetically first class name).
pub open spec fn ranks_before(t1: int, n1: int, c1: u64, t2: int, n2: int, c2: u64) -> bool {
    t1 > t2 || (t1 == t2 && (n1 > n2 || (n1 == n2 && c1 < c2)))
}

proof fn lemma_totals_bounded(s: Seq<TransitionStep>, k: int, j: int, c: u64)
    requires
        0 <= j <= k <= s.len(),
    ensures
        0 <= class_total(s, j, c) <= class_total(s, k, c) <= all_total(s, k),
        all_total(s, j) <= all_total(s, k),
        0 <= class_count(s, j, c) <= class_count(s, k, c) <= k,
        class_count(s, k, c) == 0 ==> class_total(s, k, c) == 0,
    decreases k,
{
    if k > 0 {
        if j < k {
            lemma_totals_bounded(s, k - 1, j, c);
        } else {
            lemma_totals_bounded(s, k - 1, k - 1, c);
        }
    }
}

proof fn lemma_class_step(s: Seq<TransitionStep>, k: int, c: u64)
    requires
        0 < k,
    ensures
        class_total(s, k, c) == class_total(s, k - 1, c) + if s[k - 1].class == c {
            step_dwell(s[k - 1])
        } else {
            0
        },
        class_count(s, k, c) == class_count(s, k - 1, c) + if s[k - 1].class == c {
            1int
        } else {
            0int
        },
{
}

proof fn lemma_pairs_bounded(s: Seq<TransitionStep>, k: int, j: int, a: u64, b: u64)
    requires
        0 <= j <= k < s.len(),
    ensures
        0 <= pair_gap(s, j, a, b) <= pair_gap(s, k, a, b),
        0 <= pair_count(s, j, a, b) <= pair_count(s, k, a, b) <= k,
        pair_count(s, k, a, b) == 0 ==> pair_gap(s, k, a, b) == 0,
    decreases k,
{
    if k > 0 {
        if j < k {
            lemma_pairs_bounded(s, k - 1, j, a, b);
        } else {
            lemma_pairs_bounded(s, k - 1, k - 1, a, b);
        }
    }
}

/// Totals of one app.
#[derive(Debug, Clone, Copy, PartialEq, Eq)]
pub struct ClassTotals {
    pub class: u64,
    pub total_ms: i64,
    pub session_count: i64,
}

pub open spec fn totals_match(s: Seq<TransitionStep>, k: int, t: ClassTotals) -> bool {
    &&& class_count(s, k, t.class) > 0
    &&& t.total_ms == class_total(s, k, t.class)
    &&& t.session_count == class_count(s, k, t.class)
}

pub open spec fn distinct_classes(r: Seq<ClassTotals>) -> bool {
    forall|i: int, j: int| 0 <= i < j < r.len() ==> r[i].class != r[j].class
}

pub open spec fn all_listed(s: Seq<TransitionStep>, k: int, r: Seq<ClassTotals>) -> bool {
    forall|c: u64| #[trigger] class_count(s, k, c) > 0 ==> exists|i: int| 0 <= i < r.len() && r[i].class == c
}

/// Total dwell and session count of every app of `s`, each app once.
pub fn class_totals(s: &Vec<TransitionStep>) -> (r: Vec<ClassTotals>)
    requires
        s@.len() <= i64::MAX,
        all_total(s@, s@.len() as int) <= i64::MAX,
    ensures
        distinct_classes(r@),
        forall|i: int| 0 <= i < r@.len() ==> totals_match(s@, s@.len() as int, #[trigger] r@[i]),
        all_listed(s@, s@.len() as int, r@),
{
    let n = s.len();
    let ghost sv = s@;
    let mut r: Vec<ClassTotals> = Vec::new();
    let mut i: usize = 0;
    while i < n
        invariant
            n == sv.len(),
            sv == s@,
            n <= i64::MAX,
            all_total(sv, n as int) <= i64::MAX,
            i <= n,
            distinct_classes(r@),
            forall|j: int| 0 <= j < r@.len() ==> totals_match(sv, i as int, #[trigger] r@[j]),
            all_listed(sv, i as int, r@),
        decreases n - i,
    {
        let x = s[i];
        let d: i64 = if x.dwell_ms < 0 {
            0
        } else {
            x.dwell_ms
        };
        let ghost before = r@;
        let mut pos: usize = 0;
        while pos < r.len() && r[pos].class != x.class
            invariant
                r@ == before,
                pos <= r@.len(),
                forall|j: int| 0 <= j < pos ==> r@[j].class != x.class,
            decreases r@.len() - pos,
        {
            pos = pos + 1;
        }
        proof {
            lemma_totals_bounded(sv, n as int, i + 1, x.class);
            lemma_totals_bounded(sv, i + 1, i as int, x.class);
        }
        if pos < r.len() {
            let e = r[pos];
            r.set(pos, ClassTotals { class: e.class, total_ms: e.total_ms + d, session_count: e.session_count + 1 });
        } else {
            r.push(ClassTotals { class: x.class, total_ms: d, session_count: 1 });
        }
        proof {
            let k = (i + 1) as int;
            assert forall|j: int| 0 <= j < r@.len() implies totals_match(sv, k, #[trigger] r@[j]) by {
                assert(sv[i as int] == x);
                lemma_class_step(sv, k, r@[j].class);
                if j < before.len() && j != pos {
                    assert(r@[j] == before[j]);
                    assert(totals_match(sv, i as int, before[j]));
                    if pos < before.len() {
                        assert(before[j].class != before[pos as int].class);
                    }
                    assert(before[j].class != x.class);
                } else if j == pos && pos < before.len() {
                    assert(totals_match(sv, i as int, before[j]));
                } else {
                    assert(class_count(sv, i as int, x.class) == 0) by {
                        if class_count(sv, i as int, x.class) > 0 {
                            let w = choose|w: int| 0 <= w < before.len() && before[w].class == x.class;
                            assert(before[w].class != x.class);
                        }
                    }
                    lemma_totals_bounded(sv, i as int, i as int, x.class);
                }
            }
            assert forall|c: u64| #[trigger] class_count(sv, k, c) > 0 implies exists|j: int| 0 <= j < r@.len() && r@[j].class == c by {
                if c == x.class {
                    if pos < before.len() {
                        assert(r@[pos as int].class == c);
                    } else {
                        assert(r@[before.len() as int].class == c);
                    }
                } else {
                    assert(class_count(sv, i as int, c) > 0);
                    let j = choose|j: int| 0 <= j < before.len() && before[j].class == c;
                    assert(r@[j].class == c);
                }
            }
            assert forall|a: int, b: int| 0 <= a < b < r@.len() implies r@[a].class != r@[b].class by {
                if b == before.len() {
                    assert(before[a].class != x.class);
                }
            }
        }
        i = i + 1;
    }
    r
}

pub open spec fn totals_before(a: ClassTotals, b: ClassTotals) -> bool {
    ranks_before(a.total_ms as int, a.session_count as int, a.class, b.total_ms as int, b.session_count as int, b.class)
}

fn before(a: &ClassTotals, b: &ClassTotals) -> (r: bool)
    ensures
        r == totals_before(*a, *b),
{
    a.total_ms > b.total_ms || (a.total_ms == b.total_ms && (a.session_count > b.session_count || (
    a.session_count == b.session_count && a.class < b.class)))
}

pub open spec fn listed(r: Seq<ClassTotals>, x: ClassTotals) -> bool {
    exists|i: int| 0 <= i < r.len() && r[i] == x
}

/// The first `limit` apps of `totals` in ranking order (see `ranks_before`):
/// the result is strictly ordered, drawn from `totals`, stops short of
/// `limit` only when every app is in it, and every app left out ranks
/// after all of those kept.
pub fn rank_classes(totals: &Vec<ClassTotals>, limit: usize) -> (r: Vec<ClassTotals>)
    requires
        distinct_classes(totals@),
    ensures
        r@.len() <= limit,
        forall|i: int, j: int| 0 <= i < j < r@.len() ==> totals_before(r@[i], r@[j]),
        forall|i: int| 0 <= i < r@.len() ==> listed(totals@, #[trigger] r@[i]),
        forall|j: int| 0 <= j < totals@.len() ==> listed(r@, #[trigger] totals@[j]) || forall|i: int|
            0 <= i < r@.len() ==> totals_before(#[trigger] r@[i], totals@[j]),
        r@.len() == limit || forall|j: int| 0 <= j < totals@.len() ==> listed(r@, #[trigger] totals@[j]),
{
    let ghost tv = totals@;
    let n = totals.len();
    let mut r: Vec<ClassTotals> = Vec::new();
    let mut done = false;
    while r.len() < limit && !done
        invariant
            tv == totals@,
            n == tv.len(),
            distinct_classes(tv),
            r@.len() <= limit,
            forall|i: int, j: int| 0 <= i < j < r@.len() ==> totals_before(r@[i], r@[j]),
            forall|i: int| 0 <= i < r@.len() ==> listed(tv, #[trigger] r@[i]),
            forall|j: int| 0 <= j < tv.len() ==> listed(r@, #[trigger] tv[j]) || forall|i: int|
                0 <= i < r@.len() ==> totals_before(#[trigger] r@[i], tv[j]),
            done ==> forall|j: int| 0 <= j < tv.len() ==> listed(r@, #[trigger] tv[j]),
        decreases limit - r@.len() + if done {
            0int
        } else {
            1int
        },
    {
        let m = r.len();
        let mut best: Option<usize> = None;
        let mut j: usize = 0;
        while j < n
            invariant
                tv == totals@,
                n == tv.len(),
                distinct_classes(tv),
                m == r@.len(),
                j <= n,
                match best {
                    None => forall|k: int| 0 <= k < j ==> !(m == 0 || totals_before(r@[m - 1], #[trigger] tv[k])),
                    Some(b) => b < j && (m == 0 || totals_before(r@[m - 1], tv[b as int])) && forall|k: int|
                        0 <= k < j && (m == 0 || totals_before(r@[m - 1], #[trigger] tv[k])) ==> k == b
                            || totals_before(tv[b as int], tv[k]),
                },
            decreases n - j,
        {
            let x = totals[j];
            let cand = m == 0 || before(&r[m - 1], &x);
            if cand {
                match best {
                    None => {
                        best = Some(j);
                    },
                    Some(b) => {
                        if before(&x, &totals[b]) {
                            best = Some(j);
                        } else {
                            assert(tv[b as int].class != x.class);
                        }
                    },
                }
            }
            j = j + 1;
        }
        match best {
            None => {
                proof {
                    assert forall|k: int| 0 <= k < tv.len() implies listed(r@, #[trigger] tv[k]) by {
                        if !listed(r@, tv[k]) && m > 0 {
                            assert(totals_before(r@[m - 1], tv[k]));
                        }
                    }
                }
                done = true;
            },
            Some(b) => {
                let ghost old_r = r@;
                let x = totals[b];
                r.push(x);
                proof {
                    assert(r@[m as int] == tv[b as int]);
                    assert forall|i: int, k: int| 0 <= i < k < r@.len() implies totals_before(r@[i], r@[k]) by {
                        if k == m && i < m - 1 {
                            assert(totals_before(old_r[i], old_r[m - 1]));
                        }
                    }
                    assert forall|i: int| 0 <= i < r@.len() implies listed(tv, #[trigger] r@[i]) by {
                        if i < m {
                            assert(old_r[i] == r@[i]);
                            assert(listed(tv, old_r[i]));
                        } else {
                            assert(tv[b as int] == r@[i]);
                        }
                    }
                    assert forall|k: int| 0 <= k < tv.len() implies listed(r@, #[trigger] tv[k]) || forall|i: int|
                        0 <= i < r@.len() ==> totals_before(#[trigger] r@[i], tv[k]) by {
                        if listed(old_r, tv[k]) {
                            let w = choose|w: int| 0 <= w < old_r.len() && old_r[w] == tv[k];
                            assert(r@[w] == tv[k]);
                        } else if k == b {
                            assert(r@[m as int] == tv[k]);
                        } else {
                            if m > 0 {
                                assert(totals_before(old_r[m - 1], tv[k]));
                            }
                            assert(totals_before(tv[b as int], tv[k]));
                            assert forall|i: int| 0 <= i < r@.len() implies totals_before(#[trigger] r@[i], tv[k]) by {
                                if i < m {
                                    assert(r@[i] == old_r[i]);
                                }
                            }
                        }
                    }
                }
            },
        }
    }
    r
}

// ---------------------------------------------------------------------------
// Node and edge counts
// ---------------------------------------------------------------------------

/// Integer figures of one node of the transition graph.
#[derive(Debug, Clone, Copy, PartialEq, Eq)]
pub struct TransitionNodeCounts {
    pub class: u64,
    pub total_ms: i64,
    pub session_count: i64,
    /// Transitions that leave this app (to any app, itself included).
    pub out_total: i64,
    /// Transitions from this app to itself.
    pub self_count: i64,
    pub avg_dwell_ms: i64,
}

/// Integer figures of one edge between two different kept apps.
#[derive(Debug, Clone, Copy, PartialEq, Eq)]
pub struct TransitionEdgeCounts {
    pub from: u64,
    pub to: u64,
    pub count: i64,
    pub gap_sum_ms: i64,
    pub avg_gap_ms: i64,
    pub from_out_total: i64,
}

/// All integer figures of the transition statistics.
#[derive(Debug, Clone)]
pub struct TransitionCounts {
    pub total_sessions: i64,
    pub total_transitions: i64,
    pub all_total_ms: i64,
    pub nodes: Vec<TransitionNodeCounts>,
    pub edges: Vec<TransitionEdgeCounts>,
}

pub open spec fn node_matches(s: Seq<TransitionStep>, x: TransitionNodeCounts) -> bool {
    let n = s.len() as int;
    let tn = transitions_of(n);
    &&& class_count(s, n, x.class) > 0
    &&& x.total_ms == class_total(s, n, x.class)
    &&& x.session_count == class_count(s, n, x.class)
    &&& x.out_total == class_count(s, tn, x.class)
    &&& x.self_count == pair_count(s, tn, x.class, x.class)
    &&& x.avg_dwell_ms == class_total(s, n, x.class) / class_count(s, n, x.class)
}

pub open spec fn node_before(a: TransitionNodeCounts, b: TransitionNodeCounts) -> bool {
    ranks_before(a.total_ms as int, a.session_count as int, a.class, b.total_ms as int, b.session_count as int, b.class)
}

pub open spec fn kept(nodes: Seq<TransitionNodeCounts>, c: u64) -> bool {
    exists|i: int| 0 <= i < nodes.len() && nodes[i].class == c
}

pub open spec fn edge_matches(s: Seq<TransitionStep>, nodes: Seq<TransitionNodeCounts>, e: TransitionEdgeCounts) -> bool {
    let tn = transitions_of(s.len() as int);
    &&& e.from != e.to
    &&& kept(nodes, e.from)
    &&& kept(nodes, e.to)
    &&& e.count == pair_count(s, tn, e.from, e.to)
    &&& e.count > 0
    &&& e.gap_sum_ms == pair_gap(s, tn, e.from, e.to)
    &&& e.avg_gap_ms == e.gap_sum_ms / e.count
    &&& e.from_out_total == class_count(s, tn, e.from)
}

/// Every consecutive gap fits in an `i64`.
pub open spec fn gaps_fit(s: Seq<TransitionStep>) -> bool {
    forall|i: int| 0 <= i < s.len() - 1 ==> match (#[trigger] s[i + 1].start_ms, s[i].end_ms) {
        (Some(a), Some(b)) => i64::MIN <= a - b <= i64::MAX,
        _ => true,
    }
}

/// Every summed gap between two apps fits in an `i64`.
pub open spec fn gap_sums_fit(s: Seq<TransitionStep>) -> bool {
    forall|a: u64, b: u64| #[trigger] pair_gap(s, transitions_of(s.len() as int), a, b) <= i64::MAX
}

proof fn lemma_pair_step(s: Seq<TransitionStep>, k: int, a: u64, b: u64)
    requires
        0 < k,
    ensures
        pair_count(s, k, a, b) == pair_count(s, k - 1, a, b) + if s[k - 1].class == a && s[k].class == b {
            1int
        } else {
            0int
        },
        pair_gap(s, k, a, b) == pair_gap(s, k - 1, a, b) + if s[k - 1].class == a && s[k].class == b {
            gap_at(s, k - 1)
        } else {
            0
        },
{
}

fn node_counts(s: &Vec<TransitionStep>, t: ClassTotals) -> (x: TransitionNodeCounts)
    requires
        s@.len() <= i64::MAX,
        totals_match(s@, s@.len() as int, t),
    ensures
        node_matches(s@, x),
        x.class == t.class,
        x.total_ms == t.total_ms,
        x.session_count == t.session_count,
{
    let n = s.len();
    let tn: usize = if n > 0 {
        n - 1
    } else {
        0
    };
    let c = t.class;
    let mut out: i64 = 0;
    let mut selfs: i64 = 0;
    let mut i: usize = 0;
    while i < tn
        invariant
            tn == transitions_of(n as int),
            n == s@.len(),
            n <= i64::MAX,
            i <= tn,
            out == class_count(s@, i as int, c),
            selfs == pair_count(s@, i as int, c, c),
        decreases tn - i,
    {
        proof {
            lemma_totals_bounded(s@, i + 1, i + 1, c);
            lemma_pairs_bounded(s@, i as int, i as int, c, c);
            lemma_class_step(s@, i + 1, c);
            lemma_pair_step(s@, i + 1, c, c);
        }
        if s[i].class == c {
            out = out + 1;
            if s[i + 1].class == c {
                selfs = selfs + 1;
            }
        }
        i = i + 1;
    }
    proof {
        lemma_totals_bounded(s@, n as int, n as int, c);
    }
    TransitionNodeCounts {
        class: c,
        total_ms: t.total_ms,
        session_count: t.session_count,
        out_total: out,
        self_count: selfs,
        avg_dwell_ms: t.total_ms / t.session_count,
    }
}

fn is_kept(cls: &Vec<u64>, c: u64) -> (r: bool)
    ensures
        r == cls@.contains(c),
{
    let mut i: usize = 0;
    while i < cls.len()
        invariant
            i <= cls@.len(),
            forall|j: int| 0 <= j < i ==> cls@[j] != c,
        decreases cls@.len() - i,
    {
        if cls[i] == c {
            return true;
        }
        i = i + 1;
    }
    false
}

pub open spec fn edge_table(t: Map<(u64, u64), (int, int, int)>, s: Seq<TransitionStep>, k: int, cls: Seq<u64>) -> bool {
    &&& forall|key: (u64, u64)| #[trigger] t.contains_key(key) ==> {
        &&& cls.contains(key.0)
        &&& cls.contains(key.1)
        &&& pair_count(s, k, key.0, key.1) > 0
        &&& t[key] == (pair_count(s, k, key.0, key.1), pair_gap(s, k, key.0, key.1), 0int)
    }
    &&& forall|a: u64, b: u64| cls.contains(a) && cls.contains(b) && #[trigger] pair_count(s, k, a, b) > 0 ==> t.contains_key((a, b))
}

proof fn lemma_edge_step(m: Map<(u64, u64), (int, int, int)>, t2: Map<(u64, u64), (int, int, int)>, s: Seq<TransitionStep>, i: int, cls: Seq<u64>, key: (u64, u64))
    requires
        0 <= i,
        i + 1 < s.len(),
        edge_table(m, s, i, cls),
        key == (s[i].class, s[i + 1].class),
        if cls.contains(key.0) && cls.contains(key.1) {
            t2 == m.insert(key, (pair_count(s, i, key.0, key.1) + 1, pair_gap(s, i, key.0, key.1) + gap_at(s, i), 0int))
        } else {
            t2 == m
        },
    ensures
        edge_table(t2, s, i + 1, cls),
{
    let k = i + 1;
    assert forall|key2: (u64, u64)| #[trigger] t2.contains_key(key2) implies {
        &&& cls.contains(key2.0)
        &&& cls.contains(key2.1)
        &&& pair_count(s, k, key2.0, key2.1) > 0
        &&& t2[key2] == (pair_count(s, k, key2.0, key2.1), pair_gap(s, k, key2.0, key2.1), 0int)
    } by {
        lemma_pair_step(s, k, key2.0, key2.1);
        lemma_pairs_bounded(s, i, i, key2.0, key2.1);
        if key2 != key {
            assert(m.contains_key(key2));
            assert(!(s[i].class == key2.0 && s[i + 1].class == key2.1));
        }
    }
    assert forall|a: u64, b: u64| cls.contains(a) && cls.contains(b) && #[trigger] pair_count(s, k, a, b) > 0 implies t2.contains_key((a, b)) by {
        lemma_pair_step(s, k, a, b);
        if (a, b) != key {
            assert(pair_count(s, i, a, b) > 0);
        }
    }
}

fn edge_pass(s: &Vec<TransitionStep>, cls: &Vec<u64>) -> (t: PairTable)
    requires
        s@.len() <= i64::MAX,
        gaps_fit(s@),
        gap_sums_fit(s@),
    ensures
        t.wf(),
        edge_table(t.view(), s@, transitions_of(s@.len() as int), cls@),
{
    let n = s.len();
    let tn: usize = if n > 0 {
        n - 1
    } else {
        0
    };
    let ghost sv = s@;
    let mut t = PairTable::new();
    let mut i: usize = 0;
    while i < tn
        invariant
            sv == s@,
            tn == transitions_of(n as int),
            n == sv.len(),
            n <= i64::MAX,
            i <= tn,
            gaps_fit(sv),
            gap_sums_fit(sv),
            t.wf(),
            edge_table(t.view(), sv, i as int, cls@),
        decreases tn - i,
    {
        let prev = s[i];
        let next = s[i + 1];
        let ghost m = t.view();
        let key = (prev.class, next.class);
        proof {
            lemma_pairs_bounded(sv, i as int, i as int, key.0, key.1);
            lemma_pairs_bounded(sv, i + 1, i + 1, key.0, key.1);
            lemma_pairs_bounded(sv, tn as int, i + 1, key.0, key.1);
            lemma_pair_step(sv, i + 1, key.0, key.1);
            assert(pair_gap(sv, tn as int, key.0, key.1) <= i64::MAX);
        }
        if is_kept(cls, prev.class) && is_kept(cls, next.class) {
            let gap: i64 = match (next.start_ms, prev.end_ms) {
                (Some(a), Some(b)) => {
                    assert(i64::MIN <= a - b <= i64::MAX) by {
                        assert(sv[i + 1].start_ms == Some(a));
                    }
                    let d = a - b;
                    if d > 0 {
                        d
                    } else {
                        0
                    }
                },
                _ => 0,
            };
            assert(gap == gap_at(sv, i as int));
            match t.get(key) {
                Some((c, g, _)) => {
                    t.put(key, (c + 1, g + gap, 0));
                },
                None => {
                    assert(pair_count(sv, i as int, key.0, key.1) == 0);
                    t.put(key, (1, gap, 0));
                },
            }
        }
        proof {
            lemma_edge_step(m, t.view(), sv, i as int, cls@, key);
        }
        i = i + 1;
    }
    t
}

fn out_total_of(nodes: &Vec<TransitionNodeCounts>, c: u64) -> (r: i64)
    requires
        kept(nodes@, c),
    ensures
        exists|p: int| 0 <= p < nodes@.len() && nodes@[p].class == c && nodes@[p].out_total == r,
{
    let mut i: usize = 0;
    while i < nodes.len()
        invariant
            i <= nodes@.len(),
            kept(nodes@, c),
            forall|j: int| 0 <= j < i ==> nodes@[j].class != c,
        decreases nodes@.len() - i,
    {
        if nodes[i].class == c {
            return nodes[i].out_total;
        }
        i = i + 1;
    }
    proof {
        let p = choose|p: int| 0 <= p < nodes@.len() && nodes@[p].class == c;
        assert(nodes@[p].class != c);
    }
    0
}

/// Transition statistics of sessions in chronological order, as integers.
///
/// Nodes are the `limit` apps with the largest total dwell (ties: more
/// sessions first, then the alphabetically first app), in that order; each
/// carries its totals, how many transitions leave it and how many return to
/// it directly. Edges join two different kept apps that followed each other
/// at least once, with the summed and average gap between them.
/// `total_transitions` counts every consecutive pair of sessions, kept or
/// not.
pub fn transition_counts(s: &Vec<TransitionStep>, limit: usize) -> (r: TransitionCounts)
    requires
        s@.len() <= i64::MAX,
        all_total(s@, s@.len() as int) <= i64::MAX,
        gaps_fit(s@),
        gap_sums_fit(s@),
    ensures
        r.total_sessions == s@.len(),
        r.total_transitions == transitions_of(s@.len() as int),
        r.all_total_ms == all_total(s@, s@.len() as int),
        r.nodes@.len() <= limit,
        forall|i: int| 0 <= i < r.nodes@.len() ==> node_matches(s@, #[trigger] r.nodes@[i]),
        forall|i: int, j: int| 0 <= i < j < r.nodes@.len() ==> node_before(r.nodes@[i], r.nodes@[j]),
        forall|c: u64| #[trigger] class_count(s@, s@.len() as int, c) > 0 && !kept(r.nodes@, c) ==> forall|i: int|
            0 <= i < r.nodes@.len() ==> ranks_before(
                #[trigger] r.nodes@[i].total_ms as int,
                r.nodes@[i].session_count as int,
                r.nodes@[i].class,
                class_total(s@, s@.len() as int, c),
                class_count(s@, s@.len() as int, c),
                c,
            ),
        r.nodes@.len() == limit || forall|c: u64| #[trigger] class_count(s@, s@.len() as int, c) > 0 ==> kept(r.nodes@, c),
        forall|i: int| 0 <= i < r.edges@.len() ==> edge_matches(s@, r.nodes@, #[trigger] r.edges@[i]),
        forall|a: u64, b: u64|
            a != b && kept(r.nodes@, a) && kept(r.nodes@, b) && #[trigger] pair_count(s@, transitions_of(s@.len() as int), a, b) > 0
                ==> exists|i: int| 0 <= i < r.edges@.len() && r.edges@[i].from == a && r.edges@[i].to == b,
        forall|i: int, j: int|
            0 <= i < j < r.edges@.len() ==> r.edges@[i].from != r.edges@[j].from || r.edges@[i].to != r.edges@[j].to,
{
    let ghost sv = s@;
    let n = s.len();
    let ghost tn = transitions_of(n as int);
    let totals = class_totals(s);
    let ranked = rank_classes(&totals, limit);

    let mut nodes: Vec<TransitionNodeCounts> = Vec::new();
    let mut cls: Vec<u64> = Vec::new();
    let mut i: usize = 0;
    while i < ranked.len()
        invariant
            sv == s@,
            n == sv.len(),
            n <= i64::MAX,
            i <= ranked@.len(),
            distinct_classes(totals@),
            forall|j: int| 0 <= j < totals@.len() ==> totals_match(sv, n as int, #[trigger] totals@[j]),
            forall|j: int| 0 <= j < ranked@.len() ==> listed(totals@, #[trigger] ranked@[j]),
            nodes@.len() == i,
            cls@.len() == i,
            forall|q: int| 0 <= q < i ==> {
                &&& node_matches(sv, #[trigger] nodes@[q])
                &&& nodes@[q].class == ranked@[q].class
                &&& nodes@[q].total_ms == ranked@[q].total_ms
                &&& nodes@[q].session_count == ranked@[q].session_count
                &&& cls@[q] == ranked@[q].class
            },
        decreases ranked@.len() - i,
    {
        let t = ranked[i];
        proof {
            assert(listed(totals@, ranked@[i as int]));
            let w = choose|w: int| 0 <= w < totals@.len() && totals@[w] == ranked@[i as int];
            assert(totals_match(sv, n as int, totals@[w]));
        }
        let x = node_counts(s, t);
        nodes.push(x);
        cls.push(t.class);
        i = i + 1;
    }

    let mut all: i64 = 0;
    let mut k: usize = 0;
    while k < n
        invariant
            sv == s@,
            n == sv.len(),
            k <= n,
            all_total(sv, n as int) <= i64::MAX,
            all == all_total(sv, k as int),
        decreases n - k,
    {
        proof {
            lemma_totals_bounded(sv, n as int, k + 1, 0);
        }
        let d: i64 = if s[k].dwell_ms < 0 {
            0
        } else {
            s[k].dwell_ms
        };
        all = all + d;
        k = k + 1;
    }

    let t = edge_pass(s, &cls);
    let raw = t.pairs();
    let mut edges: Vec<TransitionEdgeCounts> = Vec::new();
    let mut q: usize = 0;
    while q < raw.len()
        invariant
            sv == s@,
            n == sv.len(),
            tn == transitions_of(n as int),
            q <= raw@.len(),
            t.wf(),
            edge_table(t.view(), sv, tn, cls@),
            forall|j: int| 0 <= j < raw@.len() ==> {
                let (a, b, c, g) = #[trigger] raw@[j];
                t.view().contains_key((a, b)) && t.view()[(a, b)].0 == c && t.view()[(a, b)].1 == g
            },
            nodes@.len() == cls@.len(),
            forall|p: int| 0 <= p < nodes@.len() ==> node_matches(sv, #[trigger] nodes@[p]) && nodes@[p].class == cls@[p],
            forall|j: int| 0 <= j < edges@.len() ==> edge_matches(sv, nodes@, #[trigger] edges@[j]),
            forall|j: int| 0 <= j < q && raw@[j].0 != raw@[j].1 ==> exists|e: int|
                0 <= e < edges@.len() && edges@[e].from == (#[trigger] raw@[j]).0 && edges@[e].to == raw@[j].1,
            forall|i: int, j: int| 0 <= i < j < raw@.len() ==> raw@[i].0 != raw@[j].0 || raw@[i].1 != raw@[j].1,
            forall|e: int| 0 <= e < edges@.len() ==> exists|j: int|
                0 <= j < q && (#[trigger] edges@[e]).from == raw@[j].0 && edges@[e].to == raw@[j].1,
            forall|i: int, j: int|
                0 <= i < j < edges@.len() ==> edges@[i].from != edges@[j].from || edges@[i].to != edges@[j].to,
        decreases raw@.len() - q,
    {
        let (a, b, c, g) = raw[q];
        let ghost old_edges = edges@;
        if a != b {
            proof {
                assert(raw@[q as int] == (a, b, c, g));
                assert(t.view().contains_key((a, b)));
                let pa = choose|p: int| 0 <= p < cls@.len() && cls@[p] == a;
                let pb = choose|p: int| 0 <= p < cls@.len() && cls@[p] == b;
                assert(nodes@[pa].class == a);
                assert(nodes@[pb].class == b);
                lemma_pairs_bounded(sv, tn, tn, a, b);
            }
            let out = out_total_of(&nodes, a);
            edges.push(TransitionEdgeCounts { from: a, to: b, count: c, gap_sum_ms: g, avg_gap_ms: g / c, from_out_total: out });
        }
        proof {
            assert forall|j: int| 0 <= j < q + 1 && raw@[j].0 != raw@[j].1 implies exists|e: int|
                0 <= e < edges@.len() && edges@[e].from == (#[trigger] raw@[j]).0 && edges@[e].to == raw@[j].1 by {
                if j < q {
                    let e = choose|e: int| 0 <= e < old_edges.len() && old_edges[e].from == raw@[j].0 && old_edges[e].to == raw@[j].1;
                    assert(edges@[e] == old_edges[e]);
                } else {
                    assert(edges@[old_edges.len() as int].from == raw@[j].0);
                }
            }
            assert forall|j: int| 0 <= j < edges@.len() implies edge_matches(sv, nodes@, #[trigger] edges@[j]) by {
                if j < old_edges.len() {
                    assert(edges@[j] == old_edges[j]);
                }
            }
            assert forall|e: int| 0 <= e < edges@.len() implies exists|j: int|
                0 <= j < q + 1 && (#[trigger] edges@[e]).from == raw@[j].0 && edges@[e].to == raw@[j].1 by {
                if e < old_edges.len() {
                    assert(edges@[e] == old_edges[e]);
                    let j = choose|j: int| 0 <= j < q && old_edges[e].from == raw@[j].0 && old_edges[e].to == raw@[j].1;
                    assert(0 <= j < q + 1);
                } else {
                    assert(edges@[e].from == raw@[q as int].0 && edges@[e].to == raw@[q as int].1);
                }
            }
            assert forall|i: int, j: int|
                0 <= i < j < edges@.len() implies edges@[i].from != edges@[j].from || edges@[i].to != edges@[j].to by {
                if j < old_edges.len() {
                    assert(edges@[i] == old_edges[i]);
                    assert(edges@[j] == old_edges[j]);
                } else {
                    assert(edges@[i] == old_edges[i]);
                    let w = choose|w: int| 0 <= w < q && old_edges[i].from == raw@[w].0 && old_edges[i].to == raw@[w].1;
                    assert(edges@[j].from == raw@[q as int].0 && edges@[j].to == raw@[q as int].1);
                    assert(raw@[w].0 != raw@[q as int].0 || raw@[w].1 != raw@[q as int].1);
                }
            }
        }
        q = q + 1;
    }

    proof {
        assert forall|c: u64| #[trigger] class_count(sv, n as int, c) > 0 && !kept(nodes@, c) implies forall|i: int|
            0 <= i < nodes@.len() ==> ranks_before(
                #[trigger] nodes@[i].total_ms as int,
                nodes@[i].session_count as int,
                nodes@[i].class,
                class_total(sv, n as int, c),
                class_count(sv, n as int, c),
                c,
            ) by {
            let w = choose|w: int| 0 <= w < totals@.len() && totals@[w].class == c;
            assert(totals_match(sv, n as int, totals@[w]));
            if listed(ranked@, totals@[w]) {
                let v = choose|v: int| 0 <= v < ranked@.len() && ranked@[v] == totals@[w];
                assert(nodes@[v].class == c);
            }
            assert forall|i: int| 0 <= i < nodes@.len() implies ranks_before(
                #[trigger] nodes@[i].total_ms as int,
                nodes@[i].session_count as int,
                nodes@[i].class,
                class_total(sv, n as int, c),
                class_count(sv, n as int, c),
                c,
            ) by {
                assert(totals_before(ranked@[i], totals@[w]));
            }
        }
        if nodes@.len() != limit {
            assert forall|c: u64| #[trigger] class_count(sv, n as int, c) > 0 implies kept(nodes@, c) by {
                let w = choose|w: int| 0 <= w < totals@.len() && totals@[w].class == c;
                assert(listed(ranked@, totals@[w]));
                let v = choose|v: int| 0 <= v < ranked@.len() && ranked@[v] == totals@[w];
                assert(nodes@[v].class == c);
            }
        }
        assert forall|i: int, j: int| 0 <= i < j < nodes@.len() implies node_before(nodes@[i], nodes@[j]) by {
            assert(totals_before(ranked@[i], ranked@[j]));
        }
    }
    let r = TransitionCounts {
        total_sessions: n as i64,
        total_transitions: if n > 0 {
            (n - 1) as i64
        } else {
            0
        },
        all_total_ms: all,
        nodes,
        edges,
    };
    proof {
        assert forall|a: u64, b: u64|
            a != b && kept(r.nodes@, a) && kept(r.nodes@, b) && #[trigger] pair_count(s@, transitions_of(s@.len() as int), a, b) > 0
                implies exists|i: int| 0 <= i < r.edges@.len() && r.edges@[i].from == a && r.edges@[i].to == b by {
            let pa = choose|p: int| 0 <= p < r.nodes@.len() && r.nodes@[p].class == a;
            let pb = choose|p: int| 0 <= p < r.nodes@.len() && r.nodes@[p].class == b;
            assert(cls@[pa] == a);
            assert(cls@[pb] == b);
            assert(t.view().contains_key((a, b)));
            let j = choose|j: int| 0 <= j < raw@.len() && raw@[j].0 == a && raw@[j].1 == b;
            assert(raw@[j].0 != raw@[j].1);
            let e = choose|e: int| 0 <= e < r.edges@.len() && r.edges@[e].from == (#[trigger] raw@[j]).0 && r.edges@[e].to == raw@[j].1;
            assert(r.edges@[e].from == a && r.edges@[e].to == b);
        }
    }
    r
}

/// The steps of `sessions`, app `i` being `ids[i]`.
pub fn steps_of(sessions: &Vec<InsightSession>, ids: &Vec<u64>) -> (r: Vec<TransitionStep>)
    requires
        ids@.len() == sessions@.len(),
    ensures
        r@.len() == sessions@.len(),
        forall|i: int| 0 <= i < r@.len() ==> {
            &&& (#[trigger] r@[i]).class == ids@[i]
            &&& r@[i].dwell_ms == dwell(sessions@[i])
            &&& r@[i].start_ms == rfc3339_ms(sessions@[i].started_at@)
            &&& r@[i].end_ms == end_ms_spec(sessions@[i])
        },
{
    let mut r: Vec<TransitionStep> = Vec::new();
    let mut i: usize = 0;
    while i < sessions.len()
        invariant
            ids@.len() == sessions@.len(),
            i <= sessions@.len(),
            r@.len() == i,
            forall|j: int| 0 <= j < i ==> {
                &&& (#[trigger] r@[j]).class == ids@[j]
                &&& r@[j].dwell_ms == dwell(sessions@[j])
                &&& r@[j].start_ms == rfc3339_ms(sessions@[j].started_at@)
                &&& r@[j].end_ms == end_ms_spec(sessions@[j])
            },
        decreases sessions@.len() - i,
    {
        let x = &sessions[i];
        r.push(TransitionStep { class: ids[i], dwell_ms: x.dwell_ms(), start_ms: x.start_ms(), end_ms: x.end_ms() });
        i = i + 1;
    }
    r
}

proof fn lemma_pair_within_out(s: Seq<TransitionStep>, k: int, a: u64, b: u64)
    requires
        0 <= k < s.len(),
    ensures
        pair_count(s, k, a, b) <= class_count(s, k, a),
    decreases k,
{
    if k > 0 {
        lemma_pair_within_out(s, k - 1, a, b);
    }
}

/// Of the transitions that leave an app, those that return to it directly
/// are a part, and no app is left more often than it was used, so the
/// self-probability and every row of the matrix stay within 0 and 1.
pub proof fn law_self_transitions_within_out_total(s: Seq<TransitionStep>, c: u64)
    ensures
        0 <= pair_count(s, transitions_of(s.len() as int), c, c),
        pair_count(s, transitions_of(s.len() as int), c, c) <= class_count(s, transitions_of(s.len() as int), c),
        class_count(s, transitions_of(s.len() as int), c) <= class_count(s, s.len() as int, c),
{
    let n = s.len() as int;
    let tn = transitions_of(n);
    if n > 0 {
        lemma_pair_within_out(s, tn, c, c);
        lemma_pairs_bounded(s, tn, tn, c, c);
        lemma_totals_bounded(s, n, tn, c);
    }
}

/// Every transition from app `a` to app `b` is one of the transitions that
/// leave `a`, so an edge's count never exceeds its source's out total and
/// its probability stays within 0 and 1.
pub proof fn law_pair_within_out_total(s: Seq<TransitionStep>, a: u64, b: u64)
    ensures
        0 <= pair_count(s, transitions_of(s.len() as int), a, b),
        pair_count(s, transitions_of(s.len() as int), a, b) <= class_count(s, transitions_of(s.len() as int), a),
{
    let n = s.len() as int;
    let tn = transitions_of(n);
    if n > 0 {
        lemma_pair_within_out(s, tn, a, b);
        lemma_pairs_bounded(s, tn, tn, a, b);
    }
}

/// Transitions from app `a` to each app of `cs`, summed.
pub open spec fn row_sum(s: Seq<TransitionStep>, k: int, a: u64, cs: Seq<u64>) -> int
    decreases cs.len(),
{
    if cs.len() == 0 {
        0
    } else {
        row_sum(s, k, a, cs.drop_last()) + pair_count(s, k, a, cs.last())
    }
}

pub open spec fn count_class(cs: Seq<u64>, c: u64) -> int
    decreases cs.len(),
{
    if cs.len() == 0 {
        0
    } else {
        count_class(cs.drop_last(), c) + if cs.last() == c {
            1int
        } else {
            0int
        }
    }
}

proof fn lemma_row_sum_step(s: Seq<TransitionStep>, k: int, a: u64, cs: Seq<u64>)
    requires
        0 <= k,
        k + 1 < s.len(),
    ensures
        row_sum(s, k + 1, a, cs) == row_sum(s, k, a, cs) + if s[k].class == a {
            count_class(cs, s[k + 1].class)
        } else {
            0
        },
    decreases cs.len(),
{
    if cs.len() > 0 {
        lemma_row_sum_step(s, k, a, cs.drop_last());
        lemma_pair_step(s, k + 1, a, cs.last());
    }
}

proof fn lemma_row_sum_zero(s: Seq<TransitionStep>, a: u64, cs: Seq<u64>)
    ensures
        row_sum(s, 0, a, cs) == 0,
    decreases cs.len(),
{
    if cs.len() > 0 {
        lemma_row_sum_zero(s, a, cs.drop_last());
    }
}

proof fn lemma_count_class_one(cs: Seq<u64>, c: u64)
    requires
        forall|i: int, j: int| 0 <= i < j < cs.len() ==> cs[i] != cs[j],
        cs.contains(c),
    ensures
        count_class(cs, c) == 1,
    decreases cs.len(),
{
    let p = cs.drop_last();
    if cs.last() == c {
        assert(count_class(p, c) == 0) by {
            lemma_count_class_absent(p, c);
        }
    } else {
        let i = choose|i: int| 0 <= i < cs.len() && cs[i] == c;
        assert(p[i] == c);
        lemma_count_class_one(p, c);
    }
}

proof fn lemma_count_class_absent(cs: Seq<u64>, c: u64)
    requires
        forall|i: int| 0 <= i < cs.len() ==> cs[i] != c,
    ensures
        count_class(cs, c) == 0,
    decreases cs.len(),
{
    if cs.len() > 0 {
        lemma_count_class_absent(cs.drop_last(), c);
    }
}

proof fn lemma_row_sum(s: Seq<TransitionStep>, k: int, a: u64, cs: Seq<u64>)
    requires
        0 <= k < s.len(),
        forall|i: int, j: int| 0 <= i < j < cs.len() ==> cs[i] != cs[j],
        forall|i: int| 0 <= i < s.len() ==> cs.contains(#[trigger] s[i].class),
    ensures
        row_sum(s, k, a, cs) == class_count(s, k, a),
    decreases k,
{
    if k == 0 {
        lemma_row_sum_zero(s, a, cs);
    } else {
        lemma_row_sum(s, k - 1, a, cs);
        lemma_row_sum_step(s, k - 1, a, cs);
        lemma_class_step(s, k, a);
        assert(cs.contains(s[k].class));
        lemma_count_class_one(cs, s[k].class);
    }
}

/// Every transition that leaves an app goes to exactly one app: summed over
/// all apps of the sessions (each once), the transitions from `a` are its
/// `out_total`, so a row of the transition matrix over all apps sums to 1.
pub proof fn law_transition_rows_sum_to_out_total(s: Seq<TransitionStep>, cs: Seq<u64>, a: u64)
    requires
        forall|i: int, j: int| 0 <= i < j < cs.len() ==> cs[i] != cs[j],
        forall|i: int| 0 <= i < s.len() ==> cs.contains(#[trigger] s[i].class),
    ensures
        row_sum(s, transitions_of(s.len() as int), a, cs) == class_count(s, transitions_of(s.len() as int), a),
{
    if s.len() > 0 {
        lemma_row_sum(s, transitions_of(s.len() as int), a, cs);
    } else {
        lemma_row_sum_zero(s, a, cs);
    }
}

} // verus!
