//! Interruptions: desktop notifications read from `dbus-monitor`'s output,
//! and clipboard changes told apart by a short fingerprint of the contents.
use vstd::prelude::*;
use crate::text::{
    chars_of, contains_seq, contains_str, last_index_of, rfind_char, slice_chars, starts_with_chars,
    string_of, trim, trim_chars,
};

verus! {

// ---------------------------------------------------------------------------
// Clipboard fingerprint
// ---------------------------------------------------------------------------

pub const FNV_OFFSET: u64 = 0xcbf29ce484222325;
pub const FNV_PRIME: u64 = 0x100000001b3;

/// FNV-1a over `data`.
pub open spec fn fnv1a(data: Seq<u8>) -> u64
    decreases data.len(),
{
    if data.len() == 0 {
        FNV_OFFSET
    } else {
        ((fnv1a(data.drop_last()) ^ (data.last() as u64)) as u64).wrapping_mul(FNV_PRIME)
    }
}

/// Lowercase hexadecimal digit for `d < 16`.
pub open spec fn hex_digit(d: nat) -> char {
    if d < 10 {
        ((d + 48) as u8) as char
    } else {
        ((d + 87) as u8) as char
    }
}

/// `{:x}`: lowercase hexadecimal without leading zeros.
pub open spec fn hex(n: nat) -> Seq<char>
    decreases n,
{
    if n < 16 {
        seq![hex_digit(n)]
    } else {
        hex(n / 16).push(hex_digit(n % 16))
    }
}

fn hex_digit_exec(d: u64) -> (c: char)
    requires
        d < 16,
    ensures
        c == hex_digit(d as nat),
{
    if d < 10 {
        ((d + 48) as u8) as char
    } else {
        ((d + 87) as u8) as char
    }
}

fn to_hex(n: u64) -> (r: Vec<char>)
    ensures
        r@ == hex(n as nat),
    decreases n,
{
    if n < 16 {
        let mut v = Vec::new();
        v.push(hex_digit_exec(n));
        assert(v@ =~= seq![hex_digit(n as nat)]);
        v
    } else {
        let mut v = to_hex(n / 16);
        v.push(hex_digit_exec(n % 16));
        v
    }
}

/// FNV-1a of the first 4 KiB of `data`, in hexadecimal. Not a cryptographic
/// hash: it only tells two consecutive clipboard payloads apart.
pub fn fnv1a_short(data: &[u8]) -> (s: String)
    ensures
        s@ == hex(fnv1a(data@.take(if data@.len() < 4096 {
            data@.len() as int
        } else {
            4096
        })) as nat),
{
    let n: usize = if data.len() < 4096 {
        data.len()
    } else {
        4096
    };
    let mut h: u64 = FNV_OFFSET;
    let mut i: usize = 0;
    while i < n
        invariant
            i <= n <= data@.len(),
            h == fnv1a(data@.take(i as int)),
        decreases n - i,
    {
        proof {
            assert(data@.take(i + 1).drop_last() =~= data@.take(i as int));
        }
        h = (h ^ (data[i] as u64)).wrapping_mul(FNV_PRIME);
        i = i + 1;
    }
    string_of(&to_hex(h))
}

/// A clipboard change is recorded when a previous fingerprint exists and
/// differs from the new one (the first reading only sets the baseline).
pub fn clipboard_changed(previous: &Option<String>, current: &str) -> (changed: bool)
    ensures
        changed == (match previous {
            Some(p) => p@ != current@,
            None => false,
        }),
{
    match previous {
        Some(p) => !crate::text::str_eq(p.as_str(), current),
        None => false,
    }
}

// ---------------------------------------------------------------------------
// Notifications from dbus-monitor
// ---------------------------------------------------------------------------

/// Reading `dbus-monitor` output: whether the lines belong to a `Notify`
/// call, the call's first and third string arguments so far (app name and
/// summary: `Notify(app_name s, replaces_id u, app_icon s, summary s, ...)`
/// has `app_icon` as its second string), and how many strings were read
/// (counted up to 3; only the first and third matter).
#[derive(Debug, Clone)]
pub struct NotifyParser {
    pub in_call: bool,
    pub app: String,
    pub summary: String,
    pub string_idx: u8,
}

pub struct ParserView {
    pub in_call: bool,
    pub app: Seq<char>,
    pub summary: Seq<char>,
    pub string_idx: int,
}

/// The value of a `string "..."` argument line (after the prefix): up to
/// the last quote, or all of it when there is none.
pub open spec fn string_value(s: Seq<char>) -> Seq<char> {
    if exists|i: int| last_index_of(s, '"', i) {
        s.take(choose|i: int| last_index_of(s, '"', i))
    } else {
        s
    }
}

pub open spec fn starts_with(s: Seq<char>, p: Seq<char>) -> bool {
    p.len() <= s.len() && s.take(p.len() as int) == p
}

/// Effect of one output line: a `method call ... member=Notify` line opens
/// a call; inside it, `string "..."` lines fill the app name and summary,
/// and the first `array [`, `dict entry` or `}` line closes the call,
/// recording `(app, summary)`.
pub open spec fn notify_step(st: ParserView, line: Seq<char>) -> (ParserView, Option<(Seq<char>, Seq<char>)>) {
    let t = trim(line);
    if starts_with(t, "method call"@) && contains_seq(t, "member=Notify"@) {
        (ParserView { in_call: true, app: Seq::empty(), summary: Seq::empty(), string_idx: 0 }, None)
    } else if !st.in_call {
        (st, None)
    } else if starts_with(t, "string \""@) {
        let v = string_value(t.skip(8));
        let st2 = ParserView {
            app: if st.string_idx == 0 {
                v
            } else {
                st.app
            },
            summary: if st.string_idx == 2 {
                v
            } else {
                st.summary
            },
            string_idx: if st.string_idx < 3 {
                st.string_idx + 1
            } else {
                3
            },
            ..st
        };
        (st2, None)
    } else if starts_with(t, "array ["@) || starts_with(t, "dict entry"@) || starts_with(t, "}"@) {
        (ParserView { in_call: false, ..st }, Some((st.app, st.summary)))
    } else {
        (st, None)
    }
}

impl NotifyParser {
    pub open spec fn view(&self) -> ParserView {
        ParserView {
            in_call: self.in_call,
            app: self.app@,
            summary: self.summary@,
            string_idx: self.string_idx as int,
        }
    }

    pub open spec fn wf(&self) -> bool {
        self.string_idx <= 3
    }

    /// Not inside a call.
    pub fn new() -> (p: Self)
        ensures
            p.wf(),
            !p.in_call,
            p.app@ == Seq::<char>::empty(),
            p.summary@ == Seq::<char>::empty(),
            p.string_idx == 0,
    {
        NotifyParser { in_call: false, app: String::new(), summary: String::new(), string_idx: 0 }
    }

    /// Feeds one line; returns the `(app, summary)` of a completed call.
    pub fn feed_line(&mut self, line: &str) -> (r: Option<(String, String)>)
        requires
            old(self).wf(),
        ensures
            final(self).wf(),
            final(self).view() == notify_step(old(self).view(), line@).0,
            match (r, notify_step(old(self).view(), line@).1) {
                (Some((a, s)), Some((a2, s2))) => a@ == a2 && s@ == s2,
                (None, None) => true,
                _ => false,
            },
    {
        let t = trim_chars(&chars_of(line));
        let method = chars_of("method call");
        let string_prefix = chars_of("string \"");
        let array = chars_of("array [");
        let dict = chars_of("dict entry");
        let close = chars_of("}");
        let ts = string_of(&t);
        if starts_with_chars(&t, &method) && contains_str(ts.as_str(), "member=Notify") {
            self.in_call = true;
            self.app = String::new();
            self.summary = String::new();
            self.string_idx = 0;
            return None;
        }
        if !self.in_call {
            return None;
        }
        proof {
            reveal_strlit("string \"");
        }
        if starts_with_chars(&t, &string_prefix) {
            let s = slice_chars(&t, 8, t.len());
            assert(s@ == t@.skip(8));
            let value = match rfind_char(&s, '"') {
                Some(q) => {
                    proof {
                        let c = choose|c: int| last_index_of(s@, '"', c);
                        assert(c == q as int) by {
                            if c < q {
                                assert(s@[q as int] == '"');
                            } else if c > q {
                                assert(s@[c] == '"');
                            }
                        }
                    }
                    slice_chars(&s, 0, q)
                },
                None => s,
            };
            let v = string_of(&value);
            if self.string_idx == 0 {
                self.app = v;
            } else if self.string_idx == 2 {
                self.summary = v;
            }
            if self.string_idx < 3 {
                self.string_idx = self.string_idx + 1;
            }
            return None;
        }
        if starts_with_chars(&t, &array) || starts_with_chars(&t, &dict) || starts_with_chars(
            &t,
            &close,
        ) {
            self.in_call = false;
            return Some((self.app.clone(), self.summary.clone()));
        }
        None
    }
}

} // verus!
