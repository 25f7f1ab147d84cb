//! Co-occurrence counting of one day: which pairs of distinct apps were
//! started within a window of each other, each pair counted once per window
//! so a burst of interleaved sessions counts as one co-occurrence.
//!
//! Apps are identified by integer ids whose order is the order of their
//! class names, so a pair is stored as (smaller id, larger id), the
//! alphabetical order of the two classes.
use vstd::prelude::*;

verus! {

/// A session of the day: its app and its start instant (ms since the Unix
/// epoch; `None` when the start does not parse).
#[derive(Debug, Clone, Copy, PartialEq, Eq)]
pub struct ClassStart {
    pub class: u64,
    pub start_ms: Option<i64>,
}

/// A pair's figures: how often it co-occurred, the summed start gaps, and
/// the start instant of the session that last counted it.
pub type PairFigures = (int, int, int);

pub open spec fn pair_key(a: u64, b: u64) -> (u64, u64) {
    if a <= b {
        (a, b)
    } else {
        (b, a)
    }
}

/// Looking back from session `i` at the earlier session `j`.
pub open spec fn pair_step(m: Map<(u64, u64), PairFigures>, s: Seq<ClassStart>, window_ms: int, i: int, j: int) -> Map<(u64, u64), PairFigures> {
    match (s[i].start_ms, s[j].start_ms) {
        (Some(si), Some(sj)) => {
            let gap = si - sj;
            let key = pair_key(s[j].class, s[i].class);
            if gap > window_ms || s[j].class == s[i].class {
                m
            } else if m.contains_key(key) && si - m[key].2 <= window_ms {
                m
            } else {
                let prev: PairFigures = if m.contains_key(key) {
                    m[key]
                } else {
                    (0, 0, 0)
                };
                m.insert(key, (prev.0 + 1, prev.1 + if gap > 0 {
                    gap
                } else {
                    0
                }, si as int))
            }
        },
        _ => m,
    }
}

/// Session `i` looking back at sessions `0..j`, in order.
pub open spec fn row(m: Map<(u64, u64), PairFigures>, s: Seq<ClassStart>, window_ms: int, i: int, j: int) -> Map<(u64, u64), PairFigures>
    decreases j,
{
    if j <= 0 {
        m
    } else {
        pair_step(row(m, s, window_ms, i, j - 1), s, window_ms, i, j - 1)
    }
}

/// Sessions `0..i`, each looking back at the ones before it.
pub open spec fn rows(s: Seq<ClassStart>, window_ms: int, i: int) -> Map<(u64, u64), PairFigures>
    decreases i,
{
    if i <= 0 {
        Map::empty()
    } else {
        row(rows(s, window_ms, i - 1), s, window_ms, i - 1, i - 1)
    }
}

/// The day's pair figures.
pub open spec fn day_pairs_spec(s: Seq<ClassStart>, window_ms: int) -> Map<(u64, u64), PairFigures> {
    rows(s, window_ms, s.len() as int)
}

/// Start gaps fit in an `i64`.
pub open spec fn gaps_fit(s: Seq<ClassStart>) -> bool {
    forall|i: int, j: int|
        0 <= i < s.len() && 0 <= j < s.len() ==> match (#[trigger] s[i].start_ms, #[trigger] s[j].start_ms) {
            (Some(a), Some(b)) => i64::MIN <= a - b <= i64::MAX,
            _ => true,
        }
}

/// Every figure of the map fits in an `i64`.
pub open spec fn fits(m: Map<(u64, u64), PairFigures>) -> bool {
    forall|k: (u64, u64)| #[trigger] m.contains_key(k) ==> m[k].0 <= i64::MAX && m[k].1 <= i64::MAX
}

/// Figures only grow from one map to the next.
pub open spec fn grows(m: Map<(u64, u64), PairFigures>, m2: Map<(u64, u64), PairFigures>) -> bool {
    forall|k: (u64, u64)| #[trigger] m.contains_key(k) ==> m2.contains_key(k) && m[k].0 <= m2[k].0 && m[k].1 <= m2[k].1
}

pub open spec fn nonneg(m: Map<(u64, u64), PairFigures>) -> bool {
    forall|k: (u64, u64)| #[trigger] m.contains_key(k) ==> m[k].0 >= 0 && m[k].1 >= 0
}

proof fn lemma_grows_trans(a: Map<(u64, u64), PairFigures>, b: Map<(u64, u64), PairFigures>, c: Map<(u64, u64), PairFigures>)
    requires
        grows(a, b),
        grows(b, c),
    ensures
        grows(a, c),
{
}

proof fn lemma_step_grows(m: Map<(u64, u64), PairFigures>, s: Seq<ClassStart>, w: int, i: int, j: int)
    requires
        nonneg(m),
    ensures
        grows(m, pair_step(m, s, w, i, j)),
        nonneg(pair_step(m, s, w, i, j)),
{
}

/// Within one row, a later point has grown from an earlier one.
proof fn lemma_row_grows(m: Map<(u64, u64), PairFigures>, s: Seq<ClassStart>, w: int, i: int, k: int, j: int)
    requires
        0 <= k <= j,
        nonneg(m),
    ensures
        grows(row(m, s, w, i, k), row(m, s, w, i, j)),
        nonneg(row(m, s, w, i, j)),
    decreases j,
{
    if j > 0 {
        if k < j {
            lemma_row_grows(m, s, w, i, k, j - 1);
        } else {
            lemma_row_grows(m, s, w, i, j - 1, j - 1);
        }
        lemma_step_grows(row(m, s, w, i, j - 1), s, w, i, j - 1);
        if k < j {
            lemma_grows_trans(row(m, s, w, i, k), row(m, s, w, i, j - 1), row(m, s, w, i, j));
        }
    }
}

proof fn lemma_rows_grow(s: Seq<ClassStart>, w: int, i: int, n: int)
    requires
        0 <= i <= n,
    ensures
        grows(rows(s, w, i), rows(s, w, n)),
        nonneg(rows(s, w, n)),
    decreases n,
{
    if n > 0 {
        if i < n {
            lemma_rows_grow(s, w, i, n - 1);
        } else {
            lemma_rows_grow(s, w, n - 1, n - 1);
        }
        lemma_row_grows(rows(s, w, n - 1), s, w, n - 1, 0, n - 1);
        if i < n {
            lemma_grows_trans(rows(s, w, i), rows(s, w, n - 1), rows(s, w, n));
        }
    }
}

/// Any point of the walk has grown into the final figures.
proof fn lemma_point_grows(s: Seq<ClassStart>, w: int, i: int, j: int, n: int)
    requires
        0 <= j <= i < n,
    ensures
        grows(row(rows(s, w, i), s, w, i, j), rows(s, w, n)),
        nonneg(row(rows(s, w, i), s, w, i, j)),
{
    lemma_rows_grow(s, w, i, i);
    lemma_row_grows(rows(s, w, i), s, w, i, j, i);
    lemma_row_grows(rows(s, w, i), s, w, i, 0, j);
    lemma_rows_grow(s, w, i + 1, n);
    lemma_grows_trans(row(rows(s, w, i), s, w, i, j), rows(s, w, i + 1), rows(s, w, n));
}

// ---------------------------------------------------------------------------
// The table
// ---------------------------------------------------------------------------

pub open spec fn table_of(e: Seq<((u64, u64), i64, i64, i64)>) -> Map<(u64, u64), PairFigures>
    decreases e.len(),
{
    if e.len() == 0 {
        Map::empty()
    } else {
        table_of(e.drop_last()).insert(e.last().0, (e.last().1 as int, e.last().2 as int, e.last().3 as int))
    }
}

pub open spec fn keys_unique(e: Seq<((u64, u64), i64, i64, i64)>) -> bool {
    forall|i: int, j: int| 0 <= i < j < e.len() ==> e[i].0 != e[j].0
}

proof fn lemma_table(e: Seq<((u64, u64), i64, i64, i64)>)
    requires
        keys_unique(e),
    ensures
        forall|k: (u64, u64)| #[trigger] table_of(e).contains_key(k) <==> exists|i: int| 0 <= i < e.len() && e[i].0 == k,
        forall|i: int| 0 <= i < e.len() ==> #[trigger] table_of(e)[e[i].0] == (e[i].1 as int, e[i].2 as int, e[i].3 as int),
    decreases e.len(),
{
    if e.len() > 0 {
        let p = e.drop_last();
        lemma_table(p);
        assert forall|k: (u64, u64)| #[trigger] table_of(e).contains_key(k) <==> exists|i: int| 0 <= i < e.len() && e[i].0 == k by {
            if table_of(p).contains_key(k) {
                let i = choose|i: int| 0 <= i < p.len() && p[i].0 == k;
                assert(e[i].0 == k);
            }
            if exists|i: int| 0 <= i < e.len() && e[i].0 == k {
                let i = choose|i: int| 0 <= i < e.len() && e[i].0 == k;
                if i < e.len() - 1 {
                    assert(p[i].0 == k);
                }
            }
        }
        assert forall|i: int| 0 <= i < e.len() implies #[trigger] table_of(e)[e[i].0] == (e[i].1 as int, e[i].2 as int, e[i].3 as int) by {
            if i < e.len() - 1 {
                assert(p[i] == e[i]);
                assert(e[i].0 != e[e.len() - 1].0);
                assert(table_of(p)[p[i].0] == (p[i].1 as int, p[i].2 as int, p[i].3 as int));
            }
        }
    }
}

proof fn lemma_table_update(e: Seq<((u64, u64), i64, i64, i64)>, pos: int, v: ((u64, u64), i64, i64, i64))
    requires
        keys_unique(e),
        0 <= pos < e.len(),
        v.0 == e[pos].0,
    ensures
        keys_unique(e.update(pos, v)),
        table_of(e.update(pos, v)) == table_of(e).insert(v.0, (v.1 as int, v.2 as int, v.3 as int)),
{
    let e2 = e.update(pos, v);
    lemma_table(e);
    lemma_table(e2);
    assert(table_of(e2) =~= table_of(e).insert(v.0, (v.1 as int, v.2 as int, v.3 as int))) by {
        assert forall|k: (u64, u64)| #[trigger] table_of(e2).contains_key(k) <==> table_of(e).insert(v.0, (v.1 as int, v.2 as int, v.3 as int)).contains_key(k) by {
            if exists|i: int| 0 <= i < e.len() && e[i].0 == k {
                let i = choose|i: int| 0 <= i < e.len() && e[i].0 == k;
                assert(e2[i].0 == k);
            }
            if exists|i: int| 0 <= i < e2.len() && e2[i].0 == k {
                let i = choose|i: int| 0 <= i < e2.len() && e2[i].0 == k;
                assert(e[i].0 == k);
            }
        }
        assert forall|k: (u64, u64)| #[trigger] table_of(e2).contains_key(k) implies table_of(e2)[k] == table_of(e).insert(v.0, (v.1 as int, v.2 as int, v.3 as int))[k] by {
            let i = choose|i: int| 0 <= i < e2.len() && e2[i].0 == k;
            assert(table_of(e2)[e2[i].0] == (e2[i].1 as int, e2[i].2 as int, e2[i].3 as int));
            if i != pos {
                assert(e2[i] == e[i]);
                assert(table_of(e)[e[i].0] == (e[i].1 as int, e[i].2 as int, e[i].3 as int));
            }
        }
    }
}

/// Pair figures of a day, stored by pair.
pub struct PairTable {
    entries: Vec<((u64, u64), i64, i64, i64)>,
}

impl PairTable {
    pub closed spec fn wf(&self) -> bool {
        keys_unique(self.entries@)
    }

    pub closed spec fn view(&self) -> Map<(u64, u64), PairFigures> {
        table_of(self.entries@)
    }

    pub fn new() -> (t: Self)
        ensures
            t.wf(),
            t.view() == Map::<(u64, u64), PairFigures>::empty(),
    {
        PairTable { entries: Vec::new() }
    }

    fn position(&self, key: (u64, u64)) -> (r: Option<usize>)
        requires
            self.wf(),
        ensures
            match r {
                Some(p) => p < self.entries@.len() && self.entries@[p as int].0 == key,
                None => !self.view().contains_key(key),
            },
    {
        proof {
            lemma_table(self.entries@);
        }
        let mut i: usize = 0;
        while i < self.entries.len()
            invariant
                i <= self.entries@.len(),
                forall|j: int| 0 <= j < i ==> self.entries@[j].0 != key,
            decreases self.entries@.len() - i,
        {
            if self.entries[i].0.0 == key.0 && self.entries[i].0.1 == key.1 {
                return Some(i);
            }
            i = i + 1;
        }
        None
    }

    /// The figures of a pair, if it has any.
    pub fn get(&self, key: (u64, u64)) -> (r: Option<(i64, i64, i64)>)
        requires
            self.wf(),
        ensures
            match r {
                Some(v) => self.view().contains_key(key) && self.view()[key] == (v.0 as int, v.1 as int, v.2 as int),
                None => !self.view().contains_key(key),
            },
    {
        match self.position(key) {
            Some(p) => {
                proof {
                    lemma_table(self.entries@);
                }
                let e = self.entries[p];
                Some((e.1, e.2, e.3))
            },
            None => None,
        }
    }

    /// Sets the figures of a pair.
    pub fn put(&mut self, key: (u64, u64), v: (i64, i64, i64))
        requires
            old(self).wf(),
        ensures
            final(self).wf(),
            final(self).view() == old(self).view().insert(key, (v.0 as int, v.1 as int, v.2 as int)),
    {
        match self.position(key) {
            Some(p) => {
                proof {
                    lemma_table_update(self.entries@, p as int, (key, v.0, v.1, v.2));
                }
                self.entries.set(p, (key, v.0, v.1, v.2));
            },
            None => {
                let ghost before = self.entries@;
                proof {
                    lemma_table(before);
                }
                self.entries.push((key, v.0, v.1, v.2));
                proof {
                    assert(self.entries@.drop_last() =~= before);
                    assert forall|i: int, j: int| 0 <= i < j < self.entries@.len() implies self.entries@[i].0 != self.entries@[j].0 by {
                        if j == self.entries@.len() - 1 {
                            assert(before[i].0 != key) by {
                                if before[i].0 == key {
                                    assert(table_of(before).contains_key(key));
                                }
                            }
                        }
                    }
                }
            },
        }
    }

    /// `(a, b, co-occurrences, summed gap)` of every pair.
    pub fn pairs(&self) -> (r: Vec<(u64, u64, i64, i64)>)
        requires
            self.wf(),
        ensures
            r@.len() == self.view().dom().len(),
            forall|i: int| 0 <= i < r@.len() ==> {
                let (a, b, c, g) = #[trigger] r@[i];
                self.view().contains_key((a, b)) && self.view()[(a, b)].0 == c && self.view()[(a, b)].1 == g
            },
            forall|k: (u64, u64)| #[trigger] self.view().contains_key(k) ==> exists|i: int|
                0 <= i < r@.len() && r@[i].0 == k.0 && r@[i].1 == k.1,
            forall|i: int, j: int| 0 <= i < j < r@.len() ==> r@[i].0 != r@[j].0 || r@[i].1 != r@[j].1,
    {
        proof {
            lemma_table(self.entries@);
            lemma_dom_len(self.entries@);
        }
        let mut r: Vec<(u64, u64, i64, i64)> = Vec::new();
        let mut i: usize = 0;
        while i < self.entries.len()
            invariant
                i <= self.entries@.len(),
                r@.len() == i,
                forall|j: int| 0 <= j < i ==> #[trigger] r@[j] == (self.entries@[j].0.0, self.entries@[j].0.1, self.entries@[j].1, self.entries@[j].2),
            decreases self.entries@.len() - i,
        {
            let e = self.entries[i];
            r.push((e.0.0, e.0.1, e.1, e.2));
            i = i + 1;
        }
        proof {
            assert forall|k: (u64, u64)| #[trigger] self.view().contains_key(k) implies exists|i: int|
                0 <= i < r@.len() && r@[i].0 == k.0 && r@[i].1 == k.1 by {
                let i = choose|i: int| 0 <= i < self.entries@.len() && self.entries@[i].0 == k;
                assert(r@[i] == (self.entries@[i].0.0, self.entries@[i].0.1, self.entries@[i].1, self.entries@[i].2));
            }
            assert forall|i: int| 0 <= i < r@.len() implies {
                let (a, b, c, g) = #[trigger] r@[i];
                self.view().contains_key((a, b)) && self.view()[(a, b)].0 == c && self.view()[(a, b)].1 == g
            } by {
                assert(self.entries@[i].0 == (self.entries@[i].0.0, self.entries@[i].0.1));
                assert(table_of(self.entries@)[self.entries@[i].0] == (self.entries@[i].1 as int, self.entries@[i].2 as int, self.entries@[i].3 as int));
            }
            assert forall|i: int, j: int| 0 <= i < j < r@.len() implies r@[i].0 != r@[j].0 || r@[i].1 != r@[j].1 by {
                assert(r@[i] == (self.entries@[i].0.0, self.entries@[i].0.1, self.entries@[i].1, self.entries@[i].2));
                assert(r@[j] == (self.entries@[j].0.0, self.entries@[j].0.1, self.entries@[j].1, self.entries@[j].2));
                assert(self.entries@[i].0 != self.entries@[j].0);
            }
        }
        r
    }

    /// Every pair with its three figures, each pair once.
    pub fn figures(&self) -> (r: Vec<((u64, u64), (i64, i64, i64))>)
        requires
            self.wf(),
        ensures
            forall|i: int, j: int| 0 <= i < j < r@.len() ==> r@[i].0 != r@[j].0,
            forall|i: int| 0 <= i < r@.len() ==> {
                &&& self.view().contains_key((#[trigger] r@[i]).0)
                &&& self.view()[r@[i].0] == (r@[i].1.0 as int, r@[i].1.1 as int, r@[i].1.2 as int)
            },
            forall|k: (u64, u64)| #[trigger] self.view().contains_key(k) ==> exists|i: int| 0 <= i < r@.len() && r@[i].0 == k,
    {
        proof {
            lemma_table(self.entries@);
        }
        let mut r: Vec<((u64, u64), (i64, i64, i64))> = Vec::new();
        let mut i: usize = 0;
        while i < self.entries.len()
            invariant
                i <= self.entries@.len(),
                r@.len() == i,
                forall|j: int| 0 <= j < i ==> #[trigger] r@[j] == (self.entries@[j].0, (self.entries@[j].1, self.entries@[j].2, self.entries@[j].3)),
            decreases self.entries@.len() - i,
        {
            let e = self.entries[i];
            r.push((e.0, (e.1, e.2, e.3)));
            i = i + 1;
        }
        proof {
            assert forall|k: (u64, u64)| #[trigger] self.view().contains_key(k) implies exists|i: int| 0 <= i < r@.len() && r@[i].0 == k by {
                let i = choose|i: int| 0 <= i < self.entries@.len() && self.entries@[i].0 == k;
                assert(r@[i].0 == k);
            }
            assert forall|i: int| 0 <= i < r@.len() implies {
                &&& self.view().contains_key((#[trigger] r@[i]).0)
                &&& self.view()[r@[i].0] == (r@[i].1.0 as int, r@[i].1.1 as int, r@[i].1.2 as int)
            } by {
                assert(r@[i].0 == self.entries@[i].0);
            }
            assert forall|a: int, b: int| 0 <= a < b < r@.len() implies r@[a].0 != r@[b].0 by {
                assert(r@[a].0 == self.entries@[a].0);
                assert(r@[b].0 == self.entries@[b].0);
            }
        }
        r
    }
}

proof fn lemma_dom_len(e: Seq<((u64, u64), i64, i64, i64)>)
    requires
        keys_unique(e),
    ensures
        table_of(e).dom().finite(),
        table_of(e).dom().len() == e.len(),
    decreases e.len(),
{
    if e.len() > 0 {
        let p = e.drop_last();
        lemma_dom_len(p);
        lemma_table(p);
        assert(!table_of(p).contains_key(e.last().0)) by {
            if table_of(p).contains_key(e.last().0) {
                let i = choose|i: int| 0 <= i < p.len() && p[i].0 == e.last().0;
                assert(e[i].0 == e[e.len() - 1].0);
            }
        }
        assert(table_of(e).dom() =~= table_of(p).dom().insert(e.last().0));
    } else {
        assert(table_of(e).dom() =~= Set::<(u64, u64)>::empty());
    }
}

/// Counts the co-occurring pairs of one day's sessions (in start order):
/// each session looks back at the earlier ones; a pair of different apps
/// whose starts are at most `window_ms` apart counts, unless that pair was
/// already counted by a session started within the window before this one.
pub fn day_pairs(s: &Vec<ClassStart>, window_ms: i64) -> (t: PairTable)
    requires
        gaps_fit(s@),
        fits(day_pairs_spec(s@, window_ms as int)),
    ensures
        t.wf(),
        t.view() == day_pairs_spec(s@, window_ms as int),
{
    let ghost w = window_ms as int;
    let ghost sv = s@;
    let n = s.len();
    let mut t = PairTable::new();
    let mut i: usize = 0;
    while i < n
        invariant
            n == sv.len(),
            sv == s@,
            w == window_ms as int,
            i <= n,
            t.wf(),
            t.view() == rows(sv, w, i as int),
            gaps_fit(sv),
            fits(rows(sv, w, n as int)),
        decreases n - i,
    {
        let mut j: usize = 0;
        while j < i
            invariant
                n == sv.len(),
                sv == s@,
                w == window_ms as int,
                j <= i < n,
                t.wf(),
                t.view() == row(rows(sv, w, i as int), sv, w, i as int, j as int),
                gaps_fit(sv),
                fits(rows(sv, w, n as int)),
            decreases i - j,
        {
            proof {
                lemma_point_grows(sv, w, i as int, j as int, n as int);
                lemma_point_grows(sv, w, i as int, j + 1, n as int);
            }
            let ghost m = t.view();
            let ci = s[i];
            let cj = s[j];
            match (ci.start_ms, cj.start_ms) {
                (Some(si), Some(sj)) => {
                    assert(i64::MIN <= si - sj <= i64::MAX) by {
                        assert(sv[i as int].start_ms == Some(si) && sv[j as int].start_ms == Some(sj));
                    }
                    let gap = si - sj;
                    if gap > window_ms || cj.class == ci.class {
                    } else {
                        let key = if cj.class <= ci.class {
                            (cj.class, ci.class)
                        } else {
                            (ci.class, cj.class)
                        };
                        let g0: i64 = if gap > 0 {
                            gap
                        } else {
                            0
                        };
                        match t.get(key) {
                            Some((c, g, last)) => {
                                if (si as i128) - (last as i128) <= window_ms as i128 {
                                } else {
                                    proof {
                                        let m2 = pair_step(m, sv, w, i as int, j as int);
                                        assert(m2.contains_key(key));
                                        assert(rows(sv, w, n as int).contains_key(key));
                                    }
                                    t.put(key, (c + 1, g + g0, si));
                                }
                            },
                            None => {
                                t.put(key, (1, g0, si));
                            },
                        }
                    }
                },
                _ => {},
            }
            j = j + 1;
        }
        i = i + 1;
    }
    t
}

pub open spec fn ordered_keys(m: Map<(u64, u64), PairFigures>) -> bool {
    forall|k: (u64, u64)| #[trigger] m.contains_key(k) ==> k.0 < k.1
}

proof fn lemma_row_ordered(m: Map<(u64, u64), PairFigures>, s: Seq<ClassStart>, w: int, i: int, j: int)
    requires
        ordered_keys(m),
    ensures
        ordered_keys(row(m, s, w, i, j)),
    decreases j,
{
    if j > 0 {
        lemma_row_ordered(m, s, w, i, j - 1);
    }
}

proof fn lemma_rows_ordered(s: Seq<ClassStart>, w: int, i: int)
    ensures
        ordered_keys(rows(s, w, i)),
    decreases i,
{
    if i > 0 {
        lemma_rows_ordered(s, w, i - 1);
        lemma_row_ordered(rows(s, w, i - 1), s, w, i - 1, i - 1);
    }
}

/// Every figure of a day is nonnegative.
pub proof fn lemma_day_pairs_nonneg(s: Seq<ClassStart>, window_ms: int)
    ensures
        nonneg(day_pairs_spec(s, window_ms)),
{
    lemma_rows_grow(s, window_ms, s.len() as int, s.len() as int);
}

/// Every counted pair joins two different apps, stored in the order of
/// their names, so (a, b) and (b, a) are one pair.
pub proof fn law_pairs_are_distinct_and_ordered(s: Seq<ClassStart>, window_ms: int)
    ensures
        forall|k: (u64, u64)| #[trigger] day_pairs_spec(s, window_ms).contains_key(k) ==> k.0 < k.1,
{
    lemma_rows_ordered(s, window_ms, s.len() as int);
}

/// Both apps of a key are apps of `s`.
pub open spec fn keys_from(m: Map<(u64, u64), PairFigures>, s: Seq<ClassStart>) -> bool {
    forall|k: (u64, u64)| #[trigger] m.contains_key(k) ==> (exists|i: int| 0 <= i < s.len() && s[i].class == k.0) && (exists|j: int|
        0 <= j < s.len() && s[j].class == k.1)
}

proof fn lemma_row_keys(m: Map<(u64, u64), PairFigures>, s: Seq<ClassStart>, w: int, i: int, j: int)
    requires
        keys_from(m, s),
        0 <= i < s.len(),
        j <= i,
    ensures
        keys_from(row(m, s, w, i, j), s),
    decreases j,
{
    if j > 0 {
        lemma_row_keys(m, s, w, i, j - 1);
        let m2 = row(m, s, w, i, j - 1);
        assert forall|k: (u64, u64)| #[trigger] pair_step(m2, s, w, i, j - 1).contains_key(k) implies (exists|a: int|
            0 <= a < s.len() && s[a].class == k.0) && (exists|b: int| 0 <= b < s.len() && s[b].class == k.1) by {
            if !m2.contains_key(k) {
                if s[j - 1].class <= s[i].class {
                    assert(s[j - 1].class == k.0 && s[i].class == k.1);
                } else {
                    assert(s[i].class == k.0 && s[j - 1].class == k.1);
                }
            }
        }
    }
}

proof fn lemma_rows_keys(s: Seq<ClassStart>, w: int, i: int)
    requires
        i <= s.len(),
    ensures
        keys_from(rows(s, w, i), s),
    decreases i,
{
    if i > 0 {
        lemma_rows_keys(s, w, i - 1);
        lemma_row_keys(rows(s, w, i - 1), s, w, i - 1, i - 1);
    }
}

/// A counted pair joins two apps of the day.
pub proof fn lemma_day_pairs_keys(s: Seq<ClassStart>, window_ms: int)
    ensures
        keys_from(day_pairs_spec(s, window_ms), s),
{
    lemma_rows_keys(s, window_ms, s.len() as int);
}

} // verus!
