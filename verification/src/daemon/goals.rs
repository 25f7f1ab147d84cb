//! Daily usage goals and their progress notifications: which milestone (50%
//! or 100% of the day's target) to announce, deduplicated per calendar day,
//! and when to remind the user to take a break.
use vstd::prelude::*;
use crate::text::{append_chars, dec_int, i64_to_dec, str_eq, string_of};

verus! {

/// A daily usage goal as stored in the database.
#[derive(Debug, Clone, PartialEq, Eq)]
pub struct Goal {
    pub id: Option<i64>,
    pub name: String,
    /// `"all"` or `"class"`.
    pub target_type: String,
    pub target_key: Option<String>,
    pub daily_target_ms: i64,
    pub enabled: bool,
}

/// A goal progress milestone worth notifying about.
#[derive(Debug, Clone, Copy, PartialEq, Eq, Structural)]
pub enum Milestone {
    Half,
    Done,
}

/// `name:target_type:target_key` (an absent key is empty).
pub open spec fn goal_key_spec(goal: Goal) -> Seq<char> {
    goal.name@ + ":"@ + goal.target_type@ + ":"@ + match goal.target_key {
        Some(k) => k@,
        None => Seq::<char>::empty(),
    }
}

/// Identity of a goal in the notification dedup set.
pub fn goal_key(goal: &Goal) -> (k: String)
    ensures
        k@ == goal_key_spec(*goal),
{
    let mut k = goal.name.clone();
    k.append(":");
    k.append(goal.target_type.as_str());
    k.append(":");
    match &goal.target_key {
        Some(t) => k.append(t.as_str()),
        None => {},
    }
    k
}

/// An entry of the dedup set: (local date, goal key, milestone).
pub type MilestoneKey = (Seq<char>, Seq<char>, Milestone);

/// Milestones already announced, keyed by date so that each day re-arms them.
pub struct NotifiedMilestones {
    entries: Vec<(String, String, Milestone)>,
}

pub open spec fn entry_view(e: (String, String, Milestone)) -> MilestoneKey {
    (e.0@, e.1@, e.2)
}

impl NotifiedMilestones {
    pub closed spec fn keys(&self) -> Seq<MilestoneKey> {
        self.entries@.map_values(|e: (String, String, Milestone)| entry_view(e))
    }

    /// No entry is stored twice.
    pub closed spec fn wf(&self) -> bool {
        self.keys().no_duplicates()
    }

    pub closed spec fn view(&self) -> Set<MilestoneKey> {
        self.keys().to_set()
    }

    pub fn new() -> (s: Self)
        ensures
            s.wf(),
            s.view() == Set::<MilestoneKey>::empty(),
    {
        let s = NotifiedMilestones { entries: Vec::new() };
        assert(s.keys().to_set() =~= Set::<MilestoneKey>::empty());
        s
    }

    fn find(&self, date: &str, key: &str, m: Milestone) -> (r: Option<usize>)
        ensures
            match r {
                Some(i) => i < self.entries@.len() && self.keys()[i as int] == (date@, key@, m),
                None => !self.view().contains((date@, key@, m)),
            },
    {
        let mut i: usize = 0;
        while i < self.entries.len()
            invariant
                i <= self.entries@.len(),
                self.keys().len() == self.entries@.len(),
                forall|j: int| 0 <= j < i ==> self.keys()[j] != (date@, key@, m),
            decreases self.entries@.len() - i,
        {
            let e = &self.entries[i];
            assert(self.keys()[i as int] == entry_view(self.entries@[i as int]));
            if e.2 == m && str_eq(e.0.as_str(), date) && str_eq(e.1.as_str(), key) {
                return Some(i);
            }
            i = i + 1;
        }
        None
    }

    /// Whether the milestone was already announced for that date and goal.
    pub fn contains(&self, date: &str, key: &str, m: Milestone) -> (r: bool)
        ensures
            r == self.view().contains((date@, key@, m)),
    {
        match self.find(date, key, m) {
            Some(i) => {
                assert(self.keys().contains(self.keys()[i as int]));
                true
            },
            None => false,
        }
    }

    /// Records a milestone; `true` when it was not recorded yet.
    pub fn insert(&mut self, date: String, key: String, m: Milestone) -> (added: bool)
        requires
            old(self).wf(),
        ensures
            final(self).wf(),
            final(self).view() == old(self).view().insert((date@, key@, m)),
            added == !old(self).view().contains((date@, key@, m)),
    {
        if self.contains(date.as_str(), key.as_str(), m) {
            assert(self.view().insert((date@, key@, m)) =~= self.view());
            false
        } else {
            let ghost old_keys = self.keys();
            self.entries.push((date, key, m));
            proof {
                assert(self.keys() =~= old_keys.push((date@, key@, m)));
                old_keys.lemma_push_to_set_commute((date@, key@, m));
                assert(!old_keys.contains((date@, key@, m)));
            }
            true
        }
    }

    /// Keeps only the entries of `today`.
    pub fn retain_day(&mut self, today: &str)
        requires
            old(self).wf(),
        ensures
            final(self).wf(),
            final(self).view() == old(self).view().filter(|k: MilestoneKey| k.0 == today@),
    {
        let ghost old_keys = self.keys();
        let mut kept: Vec<(String, String, Milestone)> = Vec::new();
        let mut i: usize = 0;
        while i < self.entries.len()
            invariant
                i <= self.entries@.len(),
                old_keys == self.keys(),
                old_keys.no_duplicates(),
                old_keys.len() == self.entries@.len(),
                kept@.map_values(|e: (String, String, Milestone)| entry_view(e))
                    == old_keys.take(i as int).filter(|k: MilestoneKey| k.0 == today@),
            decreases self.entries@.len() - i,
        {
            let ghost kv = kept@.map_values(|e: (String, String, Milestone)| entry_view(e));
            proof {
                assert(old_keys.take(i + 1) =~= old_keys.take(i as int).push(old_keys[i as int]));
                old_keys.take(i as int).lemma_filter_push(old_keys[i as int], |k: MilestoneKey| k.0 == today@);
                assert(old_keys[i as int] == entry_view(self.entries@[i as int]));
            }
            if str_eq(self.entries[i].0.as_str(), today) {
                let e = &self.entries[i];
                kept.push((e.0.clone(), e.1.clone(), e.2));
                assert(kept@.map_values(|e: (String, String, Milestone)| entry_view(e)) =~= kv.push(
                    old_keys[i as int],
                ));
            } else {
                assert(kept@.map_values(|e: (String, String, Milestone)| entry_view(e)) =~= kv);
            }
            i = i + 1;
        }
        let ghost kept_keys = kept@.map_values(|e: (String, String, Milestone)| entry_view(e));
        proof {
            assert(old_keys.take(old_keys.len() as int) =~= old_keys);
            lemma_filter_no_duplicates(old_keys, |k: MilestoneKey| k.0 == today@);
            assert(kept_keys.to_set() =~= old_keys.to_set().filter(|k: MilestoneKey| k.0 == today@)) by {
                assert forall|k: MilestoneKey| #[trigger] kept_keys.to_set().contains(k) <==> old_keys.to_set().filter(|k: MilestoneKey| k.0 == today@).contains(k) by {
                    if kept_keys.contains(k) {
                        old_keys.lemma_filter_contains_rev(|k: MilestoneKey| k.0 == today@, k);
                    }
                    if old_keys.contains(k) && k.0 == today@ {
                        let j = choose|j: int| 0 <= j < old_keys.len() && old_keys[j] == k;
                        old_keys.lemma_filter_contains(|k: MilestoneKey| k.0 == today@, j);
                    }
                }
            }
        }
        self.entries = kept;
    }

    /// Number of recorded entries.
    pub fn len(&self) -> (n: usize)
        requires
            self.wf(),
        ensures
            n == self.view().len(),
    {
        proof {
            self.keys().unique_seq_to_set();
        }
        self.entries.len()
    }
}

proof fn lemma_filter_no_duplicates(s: Seq<MilestoneKey>, p: spec_fn(MilestoneKey) -> bool)
    requires
        s.no_duplicates(),
    ensures
        s.filter(p).no_duplicates(),
    decreases s.len(),
{
    reveal(Seq::filter);
    if s.len() > 0 {
        lemma_filter_no_duplicates(s.drop_last(), p);
        assert(s.drop_last().no_duplicates());
        if p(s.last()) {
            assert(!s.drop_last().contains(s.last()));
            if s.drop_last().filter(p).contains(s.last()) {
                s.drop_last().lemma_filter_contains_rev(p, s.last());
            }
        }
    }
}

/// Progress reached 100% of a positive daily target.
pub open spec fn done_reached(today_ms: int, target_ms: int) -> bool {
    target_ms > 0 && today_ms >= target_ms
}

/// Progress reached 50% of a positive daily target.
pub open spec fn half_reached(today_ms: int, target_ms: int) -> bool {
    target_ms > 0 && 2 * today_ms >= target_ms
}

/// One check of a goal: the milestone to announce and the dedup set after it.
/// 100% is checked first; a goal that jumped past both thresholds announces
/// "done" on one check and "half" on the next.
pub open spec fn milestone_step(
    s: Set<MilestoneKey>,
    date: Seq<char>,
    key: Seq<char>,
    today_ms: int,
    target_ms: int,
) -> (Set<MilestoneKey>, Option<Milestone>) {
    if done_reached(today_ms, target_ms) && !s.contains((date, key, Milestone::Done)) {
        (s.insert((date, key, Milestone::Done)), Some(Milestone::Done))
    } else if half_reached(today_ms, target_ms) && !s.contains((date, key, Milestone::Half)) {
        (s.insert((date, key, Milestone::Half)), Some(Milestone::Half))
    } else {
        (s, None)
    }
}

/// Decides which milestone notification (if any) to fire for `goal` given
/// today's active time, and marks it as notified for `date`.
pub fn milestone_to_notify(
    notified: &mut NotifiedMilestones,
    date: &str,
    goal: &Goal,
    today_ms: i64,
) -> (r: Option<Milestone>)
    requires
        old(notified).wf(),
    ensures
        final(notified).wf(),
        (final(notified).view(), r) == milestone_step(
            old(notified).view(),
            date@,
            goal_key_spec(*goal),
            today_ms as int,
            goal.daily_target_ms as int,
        ),
{
    let key = goal_key(goal);
    let target = goal.daily_target_ms;
    let done = target > 0 && today_ms >= target;
    let half = target > 0 && 2 * (today_ms as i128) >= target as i128;
    if done && !notified.contains(date, key.as_str(), Milestone::Done) {
        notified.insert(date.to_owned(), key, Milestone::Done);
        Some(Milestone::Done)
    } else if half && !notified.contains(date, key.as_str(), Milestone::Half) {
        notified.insert(date.to_owned(), key, Milestone::Half);
        Some(Milestone::Half)
    } else {
        None
    }
}

/// A milestone is announced at most once per date and goal: the check that
/// follows one announcing `m` never announces `m` again for that date.
pub proof fn law_milestone_fires_once_per_day(
    s: Set<MilestoneKey>,
    date: Seq<char>,
    key: Seq<char>,
    first_ms: int,
    second_ms: int,
    target_ms: int,
    m: Milestone,
)
    requires
        milestone_step(s, date, key, first_ms, target_ms).1 == Some(m),
    ensures
        milestone_step(milestone_step(s, date, key, first_ms, target_ms).0, date, key, second_ms, target_ms).1
            != Some(m),
{
}

/// A date with nothing recorded yet (a new day) announces the highest
/// milestone reached, whatever was announced on other days.
pub proof fn law_new_day_rearms(
    s: Set<MilestoneKey>,
    date: Seq<char>,
    key: Seq<char>,
    today_ms: int,
    target_ms: int,
)
    requires
        forall|k: MilestoneKey| #[trigger] s.contains(k) ==> k.0 != date,
    ensures
        milestone_step(s, date, key, today_ms, target_ms).1 == (if done_reached(today_ms, target_ms) {
            Some(Milestone::Done)
        } else if half_reached(today_ms, target_ms) {
            Some(Milestone::Half)
        } else {
            None
        }),
{
    assert(!s.contains((date, key, Milestone::Done)));
    assert(!s.contains((date, key, Milestone::Half)));
}

/// Rust's `/` on integers: rounds toward zero.
pub open spec fn div_trunc(a: int, b: int) -> int {
    if a >= 0 {
        a / b
    } else {
        -((-a) / b)
    }
}

/// Rust's `%` on integers: the remainder of `div_trunc`, with `a`'s sign.
pub open spec fn rem_trunc(a: int, b: int) -> int {
    a - b * div_trunc(a, b)
}

/// `"{h}h {m}m"`, or `"{m}m"` when there is no whole hour.
pub open spec fn fmt_ms_spec(ms: int) -> Seq<char> {
    let hours = div_trunc(ms, 3_600_000);
    let mins = div_trunc(rem_trunc(ms, 3_600_000), 60_000);
    if hours > 0 {
        dec_int(hours) + "h "@ + dec_int(mins) + "m"@
    } else {
        dec_int(mins) + "m"@
    }
}

fn div_trunc_exec(a: i64, b: i64) -> (q: i64)
    requires
        b > 0,
    ensures
        q == div_trunc(a as int, b as int),
{
    let a2 = a as i128;
    let b2 = b as i128;
    if a2 >= 0 {
        (a2 / b2) as i64
    } else {
        proof {
            let na: int = -(a2 as int);
            let bb: int = b2 as int;
            assert(na / bb <= na) by (nonlinear_arith)
                requires na >= 0, bb > 0;
        }
        (-((-a2) / b2)) as i64
    }
}

/// Formats a duration in milliseconds as hours and minutes.
pub fn fmt_ms(ms: i64) -> (s: String)
    ensures
        s@ == fmt_ms_spec(ms as int),
{
    let hours = div_trunc_exec(ms, 3_600_000);
    proof {
        assert(-3_600_000 < rem_trunc(ms as int, 3_600_000) < 3_600_000) by (nonlinear_arith)
            requires i64::MIN <= ms <= i64::MAX, hours == div_trunc(ms as int, 3_600_000);
    }
    let rem = ms - 3_600_000 * hours;
    let mins = div_trunc_exec(rem, 60_000);
    let mut out: Vec<char> = Vec::new();
    if hours > 0 {
        let h = i64_to_dec(hours);
        append_chars(&mut out, &h);
        out.push('h');
        out.push(' ');
    }
    let m = i64_to_dec(mins);
    append_chars(&mut out, &m);
    out.push('m');
    proof {
        reveal_strlit("h ");
        reveal_strlit("m");
    }
    let s = string_of(&out);
    assert(s@ =~= fmt_ms_spec(ms as int));
    s
}

/// Whether the take-a-break reminder fires: reminders are on
/// (`break_after_minutes > 0`), the current focused stretch lasted at least
/// that many whole minutes, and none was sent on `today` yet.
pub open spec fn break_due_spec(
    focused_ms: int,
    break_after_minutes: int,
    last_reminded_day: Option<Seq<char>>,
    today: Seq<char>,
) -> bool {
    break_after_minutes > 0 && focused_ms / 60_000 >= break_after_minutes && last_reminded_day
        != Some(today)
}

/// Decides whether to send the focus-break reminder now.
pub fn break_reminder_due(
    focused_ms: i64,
    break_after_minutes: u64,
    last_reminded_day: &Option<String>,
    today: &str,
) -> (due: bool)
    requires
        focused_ms >= 0,
    ensures
        due == break_due_spec(
            focused_ms as int,
            break_after_minutes as int,
            match last_reminded_day {
                Some(d) => Some(d@),
                None => None,
            },
            today@,
        ),
{
    let focused_min = focused_ms / 60_000;
    if break_after_minutes == 0 || (focused_min as u64) < break_after_minutes {
        return false;
    }
    match last_reminded_day {
        Some(d) => !str_eq(d.as_str(), today),
        None => true,
    }
}

} // verus!
