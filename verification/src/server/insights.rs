//! Integer analytics behind the `/api/insights/*` endpoints: the session row
//! they read, the context-switch cost model, per-day fragmentation counts and
//! the late-night hour predicate, plus the integer-valued response rows.
use vstd::prelude::*;
use crate::text::str_eq;

verus! {

// ---------------------------------------------------------------------------
// The session row
// ---------------------------------------------------------------------------

/// Milliseconds since the Unix epoch of an RFC 3339 timestamp, `None` when
/// it does not parse (`chrono::DateTime::parse_from_rfc3339` then
/// `timestamp_millis`).
pub uninterp spec fn rfc3339_ms(ts: Seq<char>) -> Option<i64>;

/// `chrono::DateTime::parse_from_rfc3339(ts).ok().map(|dt| dt.timestamp_millis())`.
/// The timestamp carries its own offset, so the result depends on the text
/// alone; the calendar arithmetic itself is not restated here.
#[verifier::external_body]
fn parse_rfc3339_ms(ts: &str) -> (r: Option<i64>)
    ensures
        r == rfc3339_ms(ts@),
{
    chrono::DateTime::parse_from_rfc3339(ts).ok().map(|dt| dt.timestamp_millis())
}

/// One `sessions` row reduced to the fields the analytics need.
#[derive(Debug, Clone)]
pub struct InsightSession {
    pub class: String,
    /// RFC 3339 UTC start timestamp.
    pub started_at: String,
    /// RFC 3339 UTC end timestamp; `None` for the still-running session.
    pub ended_at: Option<String>,
    pub duration_ms: i64,
    /// Local calendar date (`YYYY-MM-DD`).
    pub date_local: String,
}

/// Positive dwell time of a session.
pub open spec fn dwell(s: InsightSession) -> int {
    if s.duration_ms < 0 {
        0
    } else {
        s.duration_ms as int
    }
}

/// End instant of a session; an open (or unparseable) end counts as its
/// start, which makes the gap to the next session 0 instead of nonsense.
pub open spec fn end_ms_spec(s: InsightSession) -> Option<i64> {
    match s.ended_at {
        Some(e) => match rfc3339_ms(e@) {
            Some(v) => Some(v),
            None => rfc3339_ms(s.started_at@),
        },
        None => rfc3339_ms(s.started_at@),
    }
}

impl InsightSession {
    /// A copy of the row.
    pub fn duplicate(&self) -> (r: InsightSession)
        ensures
            r == *self,
    {
        InsightSession {
            class: self.class.clone(),
            started_at: self.started_at.clone(),
            ended_at: match &self.ended_at {
                Some(e) => Some(e.clone()),
                None => None,
            },
            duration_ms: self.duration_ms,
            date_local: self.date_local.clone(),
        }
    }

    /// Start instant in milliseconds since the Unix epoch, if parseable.
    pub fn start_ms(&self) -> (r: Option<i64>)
        ensures
            r == rfc3339_ms(self.started_at@),
    {
        parse_rfc3339_ms(self.started_at.as_str())
    }

    /// End instant; see `end_ms_spec`.
    pub fn end_ms(&self) -> (r: Option<i64>)
        ensures
            r == end_ms_spec(*self),
    {
        match &self.ended_at {
            Some(e) => match parse_rfc3339_ms(e.as_str()) {
                Some(v) => Some(v),
                None => self.start_ms(),
            },
            None => self.start_ms(),
        }
    }

    /// Positive dwell time used by dwell averages and the switch-cost model.
    pub fn dwell_ms(&self) -> (d: i64)
        ensures
            d == dwell(*self),
    {
        if self.duration_ms < 0 {
            0
        } else {
            self.duration_ms
        }
    }
}

// ---------------------------------------------------------------------------
// Switch cost and late-night hours
// ---------------------------------------------------------------------------

/// Half of the previous dwell, capped at 60 s and rounded half up (the
/// halved value is a whole or a half millisecond).
pub open spec fn switch_cost_spec(prev_dwell_ms: int) -> int {
    let capped = if prev_dwell_ms < 0 {
        0
    } else if prev_dwell_ms > 60_000 {
        60_000
    } else {
        prev_dwell_ms
    };
    (capped + 1) / 2
}

/// Cost of one switch: half of the previous dwell, capped at 60 s.
pub fn switch_cost_ms(prev_dwell_ms: i64) -> (c: i64)
    ensures
        c == switch_cost_spec(prev_dwell_ms as int),
        0 <= c <= 30_000,
{
    let capped = if prev_dwell_ms < 0 {
        0
    } else if prev_dwell_ms > 60_000 {
        60_000
    } else {
        prev_dwell_ms
    };
    (capped + 1) / 2
}

/// The switch cost never exceeds half a minute and grows with the dwell it
/// is charged for.
pub proof fn law_switch_cost_capped_and_monotone(a: int, b: int)
    requires
        a <= b,
    ensures
        0 <= switch_cost_spec(a) <= switch_cost_spec(b) <= 30_000,
{
}

/// Hours counted as late night: 23:00 and 00:00-05:59.
pub fn is_late_night_hour(hour: u8) -> (r: bool)
    ensures
        r == (hour == 23 || hour <= 5),
{
    hour == 23 || hour <= 5
}

// ---------------------------------------------------------------------------
// Fragmentation of one day
// ---------------------------------------------------------------------------

/// Sessions shorter than this count as short.
pub const SHORT_SESSION_MS: i64 = 60_000;

/// A run of same-class sessions spanning at least this long is a focus block.
pub const FOCUS_BLOCK_MS: i64 = 900_000;

pub open spec fn dwell_sum(s: Seq<InsightSession>) -> int
    decreases s.len(),
{
    if s.len() == 0 {
        0
    } else {
        dwell_sum(s.drop_last()) + dwell(s.last())
    }
}

/// Number of consecutive pairs whose classes differ.
pub open spec fn switch_count_spec(s: Seq<InsightSession>) -> int
    decreases s.len(),
{
    if s.len() < 2 {
        0
    } else {
        switch_count_spec(s.drop_last()) + if s[s.len() - 2].class@ != s.last().class@ {
            1int
        } else {
            0
        }
    }
}

/// Sum of the switch costs, each charged on the session left behind.
pub open spec fn switch_cost_sum(s: Seq<InsightSession>) -> int
    decreases s.len(),
{
    if s.len() < 2 {
        0
    } else {
        switch_cost_sum(s.drop_last()) + if s[s.len() - 2].class@ != s.last().class@ {
            switch_cost_spec(dwell(s[s.len() - 2]))
        } else {
            0
        }
    }
}

pub open spec fn short_count(s: Seq<InsightSession>) -> int
    decreases s.len(),
{
    if s.len() == 0 {
        0
    } else {
        short_count(s.drop_last()) + if dwell(s.last()) < SHORT_SESSION_MS {
            1int
        } else {
            0
        }
    }
}

/// Walking the day: the current run's length, the focus blocks completed
/// before it and the longest run completed before it.
pub struct RunState {
    pub run_ms: int,
    pub blocks: int,
    pub best: int,
}

pub open spec fn runs(s: Seq<InsightSession>) -> RunState
    decreases s.len(),
{
    if s.len() == 0 {
        RunState { run_ms: 0, blocks: 0, best: 0 }
    } else {
        let r = runs(s.drop_last());
        if s.len() >= 2 && s[s.len() - 2].class@ == s.last().class@ {
            RunState { run_ms: r.run_ms + dwell(s.last()), ..r }
        } else {
            RunState {
                run_ms: dwell(s.last()),
                blocks: r.blocks + if r.run_ms >= FOCUS_BLOCK_MS {
                    1int
                } else {
                    0
                },
                best: if r.run_ms > r.best {
                    r.run_ms
                } else {
                    r.best
                },
            }
        }
    }
}

/// Consecutive same-class sessions whose combined dwell reaches 15 minutes.
pub open spec fn focus_blocks_spec(s: Seq<InsightSession>) -> int {
    let r = runs(s);
    r.blocks + if r.run_ms >= FOCUS_BLOCK_MS {
        1int
    } else {
        0
    }
}

/// Longest unbroken same-class run, as its combined dwell.
pub open spec fn longest_focus_spec(s: Seq<InsightSession>) -> int {
    let r = runs(s);
    if r.run_ms > r.best {
        r.run_ms
    } else {
        r.best
    }
}

/// Index of the first session of the run of same-class sessions that ends
/// with session `j` (walking back while the class stays the same).
pub open spec fn run_start(s: Seq<InsightSession>, j: int) -> int
    decreases j,
{
    if j > 0 && s[j - 1].class@ == s[j].class@ {
        run_start(s, j - 1)
    } else {
        j
    }
}

/// Combined dwell of session `j` and the same-class sessions right before it.
pub open spec fn run_dwell(s: Seq<InsightSession>, j: int) -> int {
    dwell_sum(s.subrange(run_start(s, j), j + 1))
}

/// Session `j` closes a maximal run: it is the day's last session, or the
/// next one is of another class.
pub open spec fn ends_run(s: Seq<InsightSession>, j: int) -> bool {
    j == s.len() - 1 || s[j].class@ != s[j + 1].class@
}

/// Number of maximal runs closed by one of the first `m` sessions whose
/// combined dwell reaches `FOCUS_BLOCK_MS`.
pub open spec fn long_runs(s: Seq<InsightSession>, m: int) -> int
    decreases m,
{
    if m <= 0 {
        0
    } else {
        long_runs(s, m - 1) + if ends_run(s, m - 1) && run_dwell(s, m - 1) >= FOCUS_BLOCK_MS {
            1int
        } else {
            0
        }
    }
}

/// Largest combined dwell of a maximal run closed by one of the first `m`
/// sessions (0 when there is none).
pub open spec fn longest_run(s: Seq<InsightSession>, m: int) -> int
    decreases m,
{
    if m <= 0 {
        0
    } else {
        let prev = longest_run(s, m - 1);
        if ends_run(s, m - 1) && run_dwell(s, m - 1) > prev {
            run_dwell(s, m - 1)
        } else {
            prev
        }
    }
}

proof fn lemma_run_start_bounds(s: Seq<InsightSession>, j: int)
    requires
        0 <= j,
    ensures
        0 <= run_start(s, j) <= j,
    decreases j,
{
    if j > 0 && s[j - 1].class@ == s[j].class@ {
        lemma_run_start_bounds(s, j - 1);
    }
}

/// The running state of the day's walk, read through the runs it has seen.
proof fn lemma_runs_prefix(s: Seq<InsightSession>, n: int)
    requires
        1 <= n <= s.len(),
    ensures
        runs(s.take(n)).run_ms == run_dwell(s, n - 1),
        runs(s.take(n)).blocks == long_runs(s, n - 1),
        runs(s.take(n)).best == longest_run(s, n - 1),
    decreases n,
{
    let p = s.take(n);
    lemma_run_start_bounds(s, n - 1);
    if n == 1 {
        assert(p.drop_last() =~= Seq::<InsightSession>::empty());
        assert(runs(p.drop_last()) == RunState { run_ms: 0, blocks: 0, best: 0 });
        assert(p.last() == s[0]);
        assert(run_start(s, 0) == 0);
        let one = s.subrange(0, 1);
        assert(one.drop_last() =~= Seq::<InsightSession>::empty());
        assert(dwell_sum(one.drop_last()) == 0);
        assert(one.last() == s[0]);
        assert(dwell_sum(one) == dwell(s[0]));
        assert(runs(p).run_ms == dwell(s[0]));
    } else {
        lemma_runs_prefix(s, n - 1);
        let r = runs(s.take(n - 1));
        assert(p.drop_last() =~= s.take(n - 1));
        assert(p[p.len() - 2] == s[n - 2]);
        assert(p.last() == s[n - 1]);
        assert(ends_run(s, n - 2) == (s[n - 2].class@ != s[n - 1].class@));
        if s[n - 2].class@ == s[n - 1].class@ {
            let a = run_start(s, n - 2);
            lemma_run_start_bounds(s, n - 2);
            assert(run_start(s, n - 1) == a);
            assert(s.subrange(a, n).drop_last() =~= s.subrange(a, n - 1));
            assert(s.subrange(a, n).last() == s[n - 1]);
            assert(run_dwell(s, n - 1) == r.run_ms + dwell(s[n - 1]));
            assert(runs(p).run_ms == r.run_ms + dwell(s[n - 1]));
        } else {
            assert(run_start(s, n - 1) == n - 1);
            let one = s.subrange(n - 1, n);
            assert(one.drop_last() =~= Seq::<InsightSession>::empty());
            assert(dwell_sum(one.drop_last()) == 0);
            assert(one.last() == s[n - 1]);
            assert(run_dwell(s, n - 1) == dwell(s[n - 1]));
            assert(runs(p).run_ms == dwell(s[n - 1]));
        }
    }
}

proof fn lemma_longest_run(s: Seq<InsightSession>, m: int)
    requires
        0 <= m <= s.len(),
    ensures
        longest_run(s, m) >= 0,
        forall|j: int| 0 <= j < m && #[trigger] ends_run(s, j) ==> run_dwell(s, j) <= longest_run(s, m),
        longest_run(s, m) > 0 ==> exists|j: int| 0 <= j < m && #[trigger] ends_run(s, j) && run_dwell(s, j) == longest_run(s, m),
    decreases m,
{
    if m > 0 {
        lemma_longest_run(s, m - 1);
    }
}

/// A day's focus blocks are its maximal runs of consecutive same-class
/// sessions, the run still open at the end of the day included, whose
/// combined dwell reaches `FOCUS_BLOCK_MS`.
pub proof fn law_focus_blocks_are_long_runs(s: Seq<InsightSession>)
    ensures
        focus_blocks_spec(s) == long_runs(s, s.len() as int),
{
    if s.len() > 0 {
        lemma_runs_prefix(s, s.len() as int);
        assert(s.take(s.len() as int) =~= s);
    }
}

/// A day's longest focus is the combined dwell of its longest maximal run
/// of consecutive same-class sessions, the run still open at the end of the
/// day included: no such run is longer, one has exactly that length, and a
/// day without sessions has none.
pub proof fn law_longest_focus_is_longest_run(s: Seq<InsightSession>)
    ensures
        forall|j: int| 0 <= j < s.len() && #[trigger] ends_run(s, j) ==> run_dwell(s, j) <= longest_focus_spec(s),
        s.len() > 0 ==> exists|j: int|
            0 <= j < s.len() && #[trigger] ends_run(s, j) && run_dwell(s, j) == longest_focus_spec(s),
        s.len() == 0 ==> longest_focus_spec(s) == 0,
{
    if s.len() > 0 {
        let n = s.len() as int;
        lemma_runs_prefix(s, n);
        assert(s.take(n) =~= s);
        assert(longest_focus_spec(s) == longest_run(s, n));
        lemma_longest_run(s, n);
        lemma_run_start_bounds(s, n - 1);
        lemma_sums_bounded(s.subrange(run_start(s, n - 1), n));
        assert(ends_run(s, n - 1));
    }
}

/// The integer figures of one day of sessions (in chronological order).
#[derive(Debug, Clone, Copy, PartialEq, Eq)]
pub struct DayCounts {
    pub session_count: i64,
    pub switch_count: i64,
    pub short_sessions: i64,
    pub focus_blocks: i64,
    pub longest_focus_ms: i64,
    pub active_ms: i64,
    pub avg_dwell_ms: i64,
    pub context_switch_cost_ms: i64,
}

pub proof fn lemma_sums_bounded(s: Seq<InsightSession>)
    ensures
        0 <= switch_count_spec(s) <= s.len(),
        0 <= short_count(s) <= s.len(),
        0 <= switch_cost_sum(s) <= dwell_sum(s),
        s.len() > 0 ==> switch_cost_sum(s) <= dwell_sum(s.drop_last()),
        0 <= dwell_sum(s),
        0 <= runs(s).run_ms <= dwell_sum(s),
        0 <= runs(s).best <= dwell_sum(s),
        0 <= runs(s).blocks <= s.len(),
        s.len() > 0 ==> runs(s).blocks < s.len(),
    decreases s.len(),
{
    if s.len() > 0 {
        lemma_sums_bounded(s.drop_last());
        if s.len() >= 2 {
            let p = s.drop_last();
            assert(p.last() == s[s.len() - 2]);
            lemma_sums_bounded(p.drop_last());
        }
    }
}

/// Counts switches, short sessions, focus blocks and the switch cost of one
/// day's sessions; `avg_dwell_ms` is the active time over the session count
/// (0 for no sessions).
pub fn day_counts(sessions: &Vec<InsightSession>) -> (c: DayCounts)
    requires
        dwell_sum(sessions@) <= i64::MAX,
        sessions@.len() <= i64::MAX,
    ensures
        c.session_count == sessions@.len(),
        c.switch_count == switch_count_spec(sessions@),
        c.short_sessions == short_count(sessions@),
        c.focus_blocks == focus_blocks_spec(sessions@),
        c.focus_blocks == long_runs(sessions@, sessions@.len() as int),
        c.longest_focus_ms == longest_focus_spec(sessions@),
        forall|j: int| 0 <= j < sessions@.len() && #[trigger] ends_run(sessions@, j) ==> run_dwell(sessions@, j)
            <= c.longest_focus_ms,
        sessions@.len() > 0 ==> exists|j: int|
            0 <= j < sessions@.len() && #[trigger] ends_run(sessions@, j) && run_dwell(sessions@, j)
                == c.longest_focus_ms,
        c.active_ms == dwell_sum(sessions@),
        c.avg_dwell_ms == (if sessions@.len() > 0 {
            dwell_sum(sessions@) / (sessions@.len() as int)
        } else {
            0
        }),
        c.context_switch_cost_ms == switch_cost_sum(sessions@),
{
    let n = sessions.len();
    let ghost s = sessions@;
    let mut active: i64 = 0;
    let mut switches: i64 = 0;
    let mut cost: i64 = 0;
    let mut short: i64 = 0;
    let mut run_ms: i64 = 0;
    let mut blocks: i64 = 0;
    let mut best: i64 = 0;
    let mut i: usize = 0;
    proof {
        lemma_sums_bounded(s);
    }
    while i < n
        invariant
            n == s.len(),
            s == sessions@,
            i <= n,
            dwell_sum(s) <= i64::MAX,
            active == dwell_sum(s.take(i as int)),
            switches == switch_count_spec(s.take(i as int)),
            cost == switch_cost_sum(s.take(i as int)),
            short == short_count(s.take(i as int)),
            run_ms == runs(s.take(i as int)).run_ms,
            blocks == runs(s.take(i as int)).blocks,
            best == runs(s.take(i as int)).best,
            n <= i64::MAX,
        decreases n - i,
    {
        let ghost p = s.take(i as int);
        let ghost q = s.take(i + 1);
        proof {
            assert(q.drop_last() =~= p);
            assert(q.last() == s[i as int]);
            if i >= 1 {
                assert(q[q.len() - 2] == s[i - 1]);
            }
            lemma_sums_bounded(q);
            lemma_prefix_dwell(s, i + 1);
        }
        let d = sessions[i].dwell_ms();
        let same = i >= 1 && str_eq(sessions[i - 1].class.as_str(), sessions[i].class.as_str());
        if i >= 1 && !same {
            switches = switches + 1;
            let pd = sessions[i - 1].dwell_ms();
            cost = cost + switch_cost_ms(pd);
        }
        if d < SHORT_SESSION_MS {
            short = short + 1;
        }
        if same {
            run_ms = run_ms + d;
        } else {
            if run_ms >= FOCUS_BLOCK_MS {
                blocks = blocks + 1;
            }
            if run_ms > best {
                best = run_ms;
            }
            run_ms = d;
        }
        active = active + d;
        i = i + 1;
    }
    proof {
        assert(s.take(n as int) =~= s);
        law_focus_blocks_are_long_runs(s);
        law_longest_focus_is_longest_run(s);
    }
    let focus_blocks = if run_ms >= FOCUS_BLOCK_MS {
        blocks + 1
    } else {
        blocks
    };
    let longest = if run_ms > best {
        run_ms
    } else {
        best
    };
    let avg = if n > 0 {
        active / (n as i64)
    } else {
        0
    };
    DayCounts {
        session_count: n as i64,
        switch_count: switches,
        short_sessions: short,
        focus_blocks,
        longest_focus_ms: longest,
        active_ms: active,
        avg_dwell_ms: avg,
        context_switch_cost_ms: cost,
    }
}

proof fn lemma_prefix_dwell(s: Seq<InsightSession>, k: int)
    requires
        0 <= k <= s.len(),
    ensures
        dwell_sum(s.take(k)) <= dwell_sum(s),
    decreases s.len() - k,
{
    if k < s.len() {
        lemma_prefix_dwell(s, k + 1);
        assert(s.take(k + 1).drop_last() =~= s.take(k));
    } else {
        assert(s.take(k) =~= s);
    }
}

// ---------------------------------------------------------------------------
// Integer-valued response rows
// ---------------------------------------------------------------------------

/// One day of the usage forecast's fitted history.
#[derive(Debug, Clone)]
pub struct ForecastPoint {
    pub date: String,
    pub actual_ms: i64,
    pub predicted_ms: i64,
    pub lower_ms: i64,
    pub upper_ms: i64,
}

/// One projected day of the usage forecast.
#[derive(Debug, Clone)]
pub struct ForecastFuturePoint {
    pub date: String,
    pub predicted_ms: i64,
    pub lower_ms: i64,
    pub upper_ms: i64,
}

/// The most fragmented day of a range.
#[derive(Debug, Clone)]
pub struct WorstDay {
    pub date: String,
    pub switch_count: i64,
    pub avg_dwell_ms: i64,
}

/// An app in the co-occurrence graph.
#[derive(Debug, Clone)]
pub struct CooccurrenceNode {
    pub class: String,
    pub degree: i64,
    pub total_ms: i64,
}

} // verus!
