//! Background schedules of the server: when the weekly report is due and
//! what its notification says, whether retention cleanup runs, and which
//! proactive insights reach the user.
use vstd::prelude::*;
use crate::text::{append_chars, chars_of, dec, dec_int, i64_to_dec, string_of, trim, trim_chars, u64_to_dec};

verus! {

/// `"{h}h {m}m"`, `"{m}m"` or `"{s}s"` for a positive duration; `"0m"`
/// otherwise.
pub open spec fn format_duration_spec(ms: int) -> Seq<char> {
    if ms <= 0 {
        "0m"@
    } else {
        let total_secs = ms / 1000;
        let hours = total_secs / 3600;
        let minutes = (total_secs % 3600) / 60;
        if hours > 0 {
            dec(hours as nat) + "h "@ + dec(minutes as nat) + "m"@
        } else if minutes > 0 {
            dec(minutes as nat) + "m"@
        } else {
            dec(total_secs as nat) + "s"@
        }
    }
}

/// Formats milliseconds as a compact `34h 12m` (or `12m` / `45s`) string.
pub fn format_duration(ms: i64) -> (s: String)
    ensures
        s@ == format_duration_spec(ms as int),
{
    if ms <= 0 {
        return String::from_str("0m");
    }
    let total_secs = (ms / 1000) as u64;
    let hours = total_secs / 3600;
    let minutes = (total_secs % 3600) / 60;
    let mut out: Vec<char> = Vec::new();
    proof {
        reveal_strlit("h ");
        reveal_strlit("m");
        reveal_strlit("s");
    }
    if hours > 0 {
        append_chars(&mut out, &u64_to_dec(hours));
        out.push('h');
        out.push(' ');
        append_chars(&mut out, &u64_to_dec(minutes));
        out.push('m');
    } else if minutes > 0 {
        append_chars(&mut out, &u64_to_dec(minutes));
        out.push('m');
    } else {
        append_chars(&mut out, &u64_to_dec(total_secs));
        out.push('s');
    }
    let s = string_of(&out);
    assert(s@ =~= format_duration_spec(ms as int));
    s
}

/// The report is due on the configured weekday (1 = Monday) once the
/// configured time of day has passed.
pub fn weekly_report_due(weekday: u32, hour: u32, minute: u32, day: u32, at_hour: u32, at_minute: u32) -> (due: bool)
    ensures
        due == (weekday == day && (hour > at_hour || (hour == at_hour && minute >= at_minute))),
{
    weekday == day && (hour > at_hour || (hour == at_hour && minute >= at_minute))
}

/// `{year}-{week:02}`: the ISO year and the week number padded to two
/// digits.
pub open spec fn week_key_spec(iso_year: int, iso_week: int) -> Seq<char> {
    dec_int(iso_year) + seq!['-'] + if iso_week < 10 {
        seq!['0'] + dec(iso_week as nat)
    } else {
        dec(iso_week as nat)
    }
}

/// The key a sent weekly report is remembered by.
pub fn week_key(iso_year: i32, iso_week: u32) -> (k: String)
    ensures
        k@ == week_key_spec(iso_year as int, iso_week as int),
{
    let mut out = i64_to_dec(iso_year as i64);
    out.push('-');
    if iso_week < 10 {
        out.push('0');
    }
    append_chars(&mut out, &u64_to_dec(iso_week as u64));
    let s = string_of(&out);
    assert(s@ =~= week_key_spec(iso_year as int, iso_week as int));
    s
}

/// The weeks whose report was already sent.
pub struct SentWeeks {
    keys: Vec<String>,
}

impl SentWeeks {
    pub closed spec fn view(&self) -> Set<Seq<char>> {
        self.keys@.map_values(|k: String| k@).to_set()
    }

    pub fn new() -> (s: Self)
        ensures
            s.view() == Set::<Seq<char>>::empty(),
    {
        let s = SentWeeks { keys: Vec::new() };
        assert(s.view() =~= Set::<Seq<char>>::empty());
        s
    }

    /// Records the week; `true` when its report was not sent yet (and so is
    /// to be sent now).
    pub fn mark_sent(&mut self, key: &str) -> (fresh: bool)
        ensures
            fresh == !old(self).view().contains(key@),
            final(self).view() == old(self).view().insert(key@),
    {
        let ghost kv = self.keys@.map_values(|k: String| k@);
        let mut i: usize = 0;
        while i < self.keys.len()
            invariant
                i <= self.keys@.len(),
                kv == self.keys@.map_values(|k: String| k@),
                forall|j: int| 0 <= j < i ==> kv[j] != key@,
            decreases self.keys@.len() - i,
        {
            if crate::text::str_eq(self.keys[i].as_str(), key) {
                assert(kv[i as int] == key@);
                assert(kv.contains(key@));
                assert(self.view().insert(key@) =~= self.view());
                return false;
            }
            i = i + 1;
        }
        self.keys.push(key.to_owned());
        proof {
            assert(self.keys@.map_values(|k: String| k@) =~= kv.push(key@));
            kv.lemma_push_to_set_commute(key@);
        }
        true
    }
}

/// The weekly report notification: the week's total, the top app with its
/// time when there is one, and where the report was written.
pub open spec fn report_body_spec(total: Seq<char>, top_class: Seq<char>, top: Seq<char>, path: Seq<char>) -> Seq<char> {
    if top_class.len() == 0 {
        "Week total: "@ + total + " · Report: "@ + path
    } else {
        "Week total: "@ + total + " · Top app: "@ + top_class + " ("@ + top + ") · Report: "@ + path
    }
}

pub fn report_notification_body(total_ms: i64, top_class: &str, top_ms: i64, path: &str) -> (b: String)
    ensures
        b@ == report_body_spec(
            format_duration_spec(total_ms as int),
            top_class@,
            format_duration_spec(top_ms as int),
            path@,
        ),
{
    let total = format_duration(total_ms);
    if top_class.unicode_len() == 0 {
        String::from_str("Week total: ").concat(total.as_str()).concat(" · Report: ").concat(path)
    } else {
        let top = format_duration(top_ms);
        String::from_str("Week total: ").concat(total.as_str()).concat(" · Top app: ").concat(
            top_class,
        ).concat(" (").concat(top.as_str()).concat(") · Report: ").concat(path)
    }
}

/// Retention cleanup runs only for a positive number of days.
pub fn retention_enabled(retention_days: u32) -> (r: bool)
    ensures
        r == (retention_days > 0),
{
    retention_days > 0
}

/// The proactive monitor looks at the day at most every 15 minutes.
pub fn proactive_interval_secs(interval_minutes: u64) -> (s: u64)
    requires
        interval_minutes <= u64::MAX / 60,
    ensures
        s == 60 * (if interval_minutes < 15 {
            15
        } else {
            interval_minutes
        }),
{
    let m = if interval_minutes < 15 {
        15
    } else {
        interval_minutes
    };
    m * 60
}

/// `s` without leading and trailing `"` characters.
pub open spec fn strip_quotes_start(s: Seq<char>) -> Seq<char>
    decreases s.len(),
{
    if s.len() > 0 && s[0] == '"' {
        strip_quotes_start(s.drop_first())
    } else {
        s
    }
}

pub open spec fn strip_quotes_end(s: Seq<char>) -> Seq<char>
    decreases s.len(),
{
    if s.len() > 0 && s.last() == '"' {
        strip_quotes_end(s.drop_last())
    } else {
        s
    }
}

/// The model's reply as an insight: trimmed, then stripped of surrounding
/// quotes (`trim().trim_matches('"')`).
pub open spec fn clean_insight_spec(reply: Seq<char>) -> Seq<char> {
    strip_quotes_end(strip_quotes_start(trim(reply)))
}

pub fn clean_insight(reply: &str) -> (r: String)
    ensures
        r@ == clean_insight_spec(reply@),
{
    let t = trim_chars(&chars_of(reply));
    let mut i: usize = 0;
    proof {
        assert(t@.skip(0) =~= t@);
    }
    while i < t.len() && t[i] == '"'
        invariant
            i <= t@.len(),
            strip_quotes_start(t@) == strip_quotes_start(t@.skip(i as int)),
        decreases t@.len() - i,
    {
        assert(t@.skip(i as int).drop_first() =~= t@.skip(i + 1));
        i = i + 1;
    }
    let mut j: usize = t.len();
    let ghost u = t@.skip(i as int);
    proof {
        assert(u.take(u.len() as int) =~= u);
    }
    while j > i && t[j - 1] == '"'
        invariant
            i <= j <= t@.len(),
            u == t@.skip(i as int),
            strip_quotes_end(u) == strip_quotes_end(u.take(j - i)),
        decreases j,
    {
        assert(u.take(j - i).drop_last() =~= u.take(j - i - 1));
        j = j - 1;
    }
    let r = crate::text::slice_chars(&t, i, j);
    proof {
        assert(r@ =~= u.take(j - i));
    }
    string_of(&r)
}

/// An insight is announced when it is not empty and differs from the last
/// one announced; it then becomes the last one.
pub fn proactive_step(last: &mut Option<String>, insight: &str) -> (notify: Option<String>)
    ensures
        ({
            let t = trim(insight@);
            if t.len() == 0 || (*old(last) matches Some(l) && l@ == t) {
                notify is None && *final(last) == *old(last)
            } else {
                (notify matches Some(n) && n@ == t) && (*final(last) matches Some(l) && l@ == t)
            }
        }),
{
    let t = string_of(&trim_chars(&chars_of(insight)));
    if t.as_str().unicode_len() == 0 {
        return None;
    }
    match last {
        Some(l) => {
            if crate::text::str_eq(l.as_str(), t.as_str()) {
                return None;
            }
        },
        None => {},
    }
    *last = Some(t.clone());
    Some(t)
}

} // verus!
