//! Digital-wellbeing nudges: when late-night activity earns a reminder (at
//! most one per hour of the night), and how the optional lock command is
//! split into a program and its arguments (no shell involved).
use vstd::prelude::*;
use crate::text::{append_chars, chars_of, dec, lemma_dec_value, split_words, string_of, u64_to_dec, views, words};

verus! {

/// Whether `hour` falls in the late-night window `[start, end)`, which may
/// wrap past midnight (e.g. 23 -> 6).
pub open spec fn in_window_spec(hour: int, start: int, end: int) -> bool {
    if start <= end {
        start <= hour && hour < end
    } else {
        hour >= start || hour < end
    }
}

pub fn in_late_night_window(hour: u32, start: u32, end: u32) -> (r: bool)
    ensures
        r == in_window_spec(hour as int, start as int, end as int),
{
    if start <= end {
        hour >= start && hour < end
    } else {
        hour >= start || hour < end
    }
}

/// The `day:hour` keys already reminded during the current night.
pub struct RemindedHours {
    keys: Vec<Vec<char>>,
}

/// `day:hour`, the hour in decimal.
pub open spec fn reminder_key(day: Seq<char>, hour: int) -> Seq<char> {
    day + seq![':'] + dec(hour as nat)
}

impl RemindedHours {
    pub closed spec fn view(&self) -> Set<Seq<char>> {
        self.keys@.map_values(|k: Vec<char>| k@).to_set()
    }

    pub fn new() -> (r: Self)
        ensures
            r.view() == Set::<Seq<char>>::empty(),
    {
        let r = RemindedHours { keys: Vec::new() };
        assert(r.view() =~= Set::<Seq<char>>::empty());
        r
    }

    fn contains(&self, key: &Vec<char>) -> (b: bool)
        ensures
            b == self.view().contains(key@),
    {
        let ghost kv = self.keys@.map_values(|k: Vec<char>| k@);
        let mut i: usize = 0;
        while i < self.keys.len()
            invariant
                i <= self.keys@.len(),
                kv == self.keys@.map_values(|k: Vec<char>| k@),
                forall|j: int| 0 <= j < i ==> kv[j] != key@,
            decreases self.keys@.len() - i,
        {
            if crate::text::chars_eq(&self.keys[i], key) {
                assert(kv[i as int] == key@);
                assert(kv.contains(key@));
                return true;
            }
            i = i + 1;
        }
        false
    }

    fn insert(&mut self, key: Vec<char>)
        ensures
            final(self).view() == old(self).view().insert(key@),
    {
        let ghost before = self.keys@.map_values(|k: Vec<char>| k@);
        self.keys.push(key);
        proof {
            assert(self.keys@.map_values(|k: Vec<char>| k@) =~= before.push(key@));
            before.lemma_push_to_set_commute(key@);
        }
    }

    fn clear(&mut self)
        ensures
            final(self).view() == Set::<Seq<char>>::empty(),
    {
        self.keys = Vec::new();
        assert(self.view() =~= Set::<Seq<char>>::empty());
    }
}

/// One check of the wellbeing monitor: outside the window the reminders
/// re-arm; inside it, an active user is reminded once per `day:hour`.
pub open spec fn wellbeing_step_spec(
    reminded: Set<Seq<char>>,
    day: Seq<char>,
    hour: int,
    start: int,
    end: int,
    active: bool,
) -> (Set<Seq<char>>, bool) {
    if !in_window_spec(hour, start, end) {
        (Set::empty(), false)
    } else if !active {
        (reminded, false)
    } else if reminded.contains(reminder_key(day, hour)) {
        (reminded, false)
    } else {
        (reminded.insert(reminder_key(day, hour)), true)
    }
}

/// Decides whether to send the late-night reminder (and lock, when a lock
/// command is configured) now.
pub fn wellbeing_step(
    reminded: &mut RemindedHours,
    day: &str,
    hour: u32,
    start: u32,
    end: u32,
    active: bool,
) -> (remind: bool)
    ensures
        (final(reminded).view(), remind) == wellbeing_step_spec(
            old(reminded).view(),
            day@,
            hour as int,
            start as int,
            end as int,
            active,
        ),
{
    if !in_late_night_window(hour, start, end) {
        reminded.clear();
        return false;
    }
    if !active {
        return false;
    }
    let mut key = chars_of(day);
    key.push(':');
    let h = u64_to_dec(hour as u64);
    append_chars(&mut key, &h);
    assert(key@ =~= reminder_key(day@, hour as int));
    if reminded.contains(&key) {
        return false;
    }
    reminded.insert(key);
    true
}

proof fn lemma_keys_differ(day: Seq<char>, h1: nat, h2: nat)
    requires
        h1 != h2,
    ensures
        reminder_key(day, h1 as int) != reminder_key(day, h2 as int),
{
    let k1 = reminder_key(day, h1 as int);
    let k2 = reminder_key(day, h2 as int);
    if k1 == k2 {
        assert(k1.skip(day.len() as int + 1) =~= dec(h1));
        assert(k2.skip(day.len() as int + 1) =~= dec(h2));
        lemma_dec_value(h1);
        lemma_dec_value(h2);
    }
}

/// Late at night an active user gets one reminder per hour: the first check
/// of an hour reminds, a second check of the same hour does not, and being
/// reminded in one hour of a night never holds back the reminder of another
/// hour of that day.
pub proof fn law_one_reminder_per_night_hour(
    reminded: Set<Seq<char>>,
    day: Seq<char>,
    h1: nat,
    h2: nat,
    start: int,
    end: int,
)
    requires
        in_window_spec(h1 as int, start, end),
        in_window_spec(h2 as int, start, end),
        h1 != h2,
    ensures
        wellbeing_step_spec(Set::empty(), day, h1 as int, start, end, true).1,
        !wellbeing_step_spec(
            wellbeing_step_spec(reminded, day, h1 as int, start, end, true).0,
            day,
            h1 as int,
            start,
            end,
            true,
        ).1,
        wellbeing_step_spec(
            wellbeing_step_spec(reminded, day, h1 as int, start, end, true).0,
            day,
            h2 as int,
            start,
            end,
            true,
        ).1 == wellbeing_step_spec(reminded, day, h2 as int, start, end, true).1,
{
    lemma_keys_differ(day, h1, h2);
}

/// The lock command split on whitespace: the program and its arguments;
/// `None` for a blank command.
pub fn split_command(cmd: &str) -> (r: Option<(String, Vec<String>)>)
    ensures
        match r {
            Some((p, args)) => words(cmd@).len() > 0 && p@ == words(cmd@)[0] && args@.map_values(
                |a: String| a@,
            ) == words(cmd@).skip(1),
            None => words(cmd@).len() == 0,
        },
{
    let ws = split_words(&chars_of(cmd));
    let ghost wv = views(ws@);
    if ws.len() == 0 {
        return None;
    }
    let program = string_of(&ws[0]);
    let mut args: Vec<String> = Vec::new();
    let mut i: usize = 1;
    while i < ws.len()
        invariant
            1 <= i <= ws@.len(),
            wv == views(ws@),
            wv.len() == ws@.len(),
            args@.map_values(|a: String| a@) == wv.subrange(1, i as int),
        decreases ws@.len() - i,
    {
        let ghost before = args@.map_values(|a: String| a@);
        args.push(string_of(&ws[i]));
        assert(args@.map_values(|a: String| a@) =~= before.push(wv[i as int]));
        assert(wv.subrange(1, i + 1) =~= wv.subrange(1, i as int).push(wv[i as int]));
        i = i + 1;
    }
    assert(wv.subrange(1, wv.len() as int) =~= wv.skip(1));
    Some((program, args))
}

/// Checks run at least a minute apart.
pub fn check_interval_secs(configured: u64) -> (s: u64)
    ensures
        s == (if configured < 60 {
            60
        } else {
            configured
        }),
{
    if configured < 60 {
        60
    } else {
        configured
    }
}

} // verus!
