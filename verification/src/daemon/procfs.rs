//! Parsers for the `/proc/<pid>/stat` and `/proc/<pid>/status` texts that
//! the resource sampler reads.
use vstd::prelude::*;
use crate::text::{
    chars_of, is_ws, last_index_of, parse_i64, parse_i64_chars, parse_u64, parse_u64_chars,
    rfind_char, slice_chars, split_lines, split_lines_chars, split_words, starts_with_chars, trim,
    trim_chars, views, words, ends_with_chars,
};

verus! {

/// Whitespace-separated fields after the last `)` (the `comm` field can hold
/// spaces and parentheses, so only what follows its closing paren is split).
pub open spec fn stat_fields(stat: Seq<char>) -> Option<Seq<Seq<char>>> {
    if exists|c: int| last_index_of(stat, ')', c) {
        let c = choose|c: int| last_index_of(stat, ')', c);
        Some(words(stat.skip(c + 1)))
    } else {
        None
    }
}

/// `(utime + stime, starttime)`: fields 14, 15 and 22 of `/proc/<pid>/stat`,
/// which are indices 11, 12 and 19 after the `comm` field. `None` when the
/// text has no `)`, too few fields, or one of them is not a `u64`.
pub open spec fn proc_stat_sample(stat: Seq<char>) -> Option<(int, int)> {
    match stat_fields(stat) {
        Some(f) => if f.len() > 19 && parse_u64(f[11]) is Some && parse_u64(f[12]) is Some
            && parse_u64(f[19]) is Some {
            Some(
                (
                    parse_u64(f[11])->0 as int + parse_u64(f[12])->0 as int,
                    parse_u64(f[19])->0 as int,
                ),
            )
        } else {
            None
        },
        None => None,
    }
}

/// Parses a `/proc/<pid>/stat` line into `(utime + stime, starttime)`;
/// `None` also when `utime + stime` does not fit in a `u64`, which no real
/// reading does.
pub fn parse_proc_stat(stat: &str) -> (r: Option<(u64, u64)>)
    ensures
        r matches Some((cpu, start)) ==> proc_stat_sample(stat@) == Some((cpu as int, start as int)),
        r is None <==> match proc_stat_sample(stat@) {
            Some((cpu, _)) => cpu > u64::MAX,
            None => true,
        },
{
    let s = chars_of(stat);
    let close = match rfind_char(&s, ')') {
        Some(c) => c,
        None => {
            return None;
        },
    };
    proof {
        let c = choose|c: int| last_index_of(s@, ')', c);
        assert(c == close as int) by {
            if c < close {
                assert(s@[close as int] == ')');
            } else if c > close {
                assert(s@[c] == ')');
            }
        }
    }
    let rest = slice_chars(&s, close + 1, s.len());
    assert(rest@ == s@.skip(close + 1));
    let fields = split_words(&rest);
    proof {
        assert(views(fields@).len() == fields@.len());
    }
    if fields.len() <= 19 {
        return None;
    }
    proof {
        assert(views(fields@)[11] == fields@[11]@);
        assert(views(fields@)[12] == fields@[12]@);
        assert(views(fields@)[19] == fields@[19]@);
    }
    let utime = match parse_u64_chars(&fields[11]) {
        Some(v) => v,
        None => {
            return None;
        },
    };
    let stime = match parse_u64_chars(&fields[12]) {
        Some(v) => v,
        None => {
            return None;
        },
    };
    let starttime = match parse_u64_chars(&fields[19]) {
        Some(v) => v,
        None => {
            return None;
        },
    };
    match utime.checked_add(stime) {
        Some(cpu) => Some((cpu, starttime)),
        None => None,
    }
}

/// `s` with every trailing copy of `suffix` removed (`trim_end_matches`).
pub open spec fn trim_end_all(s: Seq<char>, suffix: Seq<char>) -> Seq<char>
    decreases s.len(),
{
    if suffix.len() > 0 && suffix.len() <= s.len() && s.skip(s.len() - suffix.len()) == suffix {
        trim_end_all(s.take(s.len() - suffix.len()), suffix)
    } else {
        s
    }
}

/// Value of a `VmRSS:` line: the rest of the line, trimmed, with every
/// trailing `kB` dropped and trimmed again, read as an `i64`.
pub open spec fn vmrss_value(line: Seq<char>) -> Option<i64> {
    parse_i64(trim(trim_end_all(trim(line.skip(6)), "kB"@)))
}

pub open spec fn is_vmrss_line(line: Seq<char>) -> bool {
    6 <= line.len() && line.take(6) == "VmRSS:"@
}

/// Resident set size in kB from a `/proc/<pid>/status` text: the first line
/// starting with `VmRSS:` decides (a line whose value does not parse gives
/// `None`); `None` too when there is no such line.
pub open spec fn vmrss_kb(status: Seq<char>) -> Option<i64> {
    let ls = split_lines(status);
    if exists|i: int| 0 <= i < ls.len() && is_vmrss_line(#[trigger] ls[i]) {
        let i = choose|i: int|
            0 <= i < ls.len() && is_vmrss_line(#[trigger] ls[i]) && forall|k: int|
                0 <= k < i ==> !is_vmrss_line(#[trigger] ls[k]);
        vmrss_value(ls[i])
    } else {
        None
    }
}

fn trim_end_all_exec(s: &Vec<char>, suffix: &Vec<char>) -> (r: Vec<char>)
    ensures
        r@ == trim_end_all(s@, suffix@),
{
    let mut cur = slice_chars(s, 0, s.len());
    assert(cur@ =~= s@);
    while suffix.len() > 0 && ends_with_chars(&cur, suffix)
        invariant
            trim_end_all(s@, suffix@) == trim_end_all(cur@, suffix@),
        decreases cur@.len(),
    {
        cur = slice_chars(&cur, 0, cur.len() - suffix.len());
    }
    cur
}

/// Parses the resident set size out of a `/proc/<pid>/status` text.
pub fn parse_vmrss_kb(status: &str) -> (r: Option<i64>)
    ensures
        r == vmrss_kb(status@),
{
    let s = chars_of(status);
    let prefix = chars_of("VmRSS:");
    let kb = chars_of("kB");
    proof {
        reveal_strlit("VmRSS:");
    }
    let ls = split_lines_chars(&s);
    let ghost lsv = views(ls@);
    assert(lsv.len() == ls@.len());
    let mut i: usize = 0;
    while i < ls.len()
        invariant
            i <= ls.len(),
            s@ == status@,
            lsv == views(ls@),
            lsv == split_lines(s@),
            lsv.len() == ls@.len(),
            prefix@ == "VmRSS:"@,
            prefix@.len() == 6,
            kb@ == "kB"@,
            forall|k: int| 0 <= k < i ==> !is_vmrss_line(#[trigger] lsv[k]),
        decreases ls.len() - i,
    {
        assert(lsv[i as int] == ls@[i as int]@);
        if starts_with_chars(&ls[i], &prefix) {
            let line = &ls[i];
            let rest = slice_chars(line, 6, line.len());
            let t = trim_chars(&rest);
            let u = trim_end_all_exec(&t, &kb);
            let v = trim_chars(&u);
            proof {
                assert(rest@ == line@.skip(6));
                let c = choose|c: int|
                    0 <= c < lsv.len() && is_vmrss_line(#[trigger] lsv[c]) && forall|k: int|
                        0 <= k < c ==> !is_vmrss_line(#[trigger] lsv[k]);
                assert(is_vmrss_line(lsv[i as int]));
                assert(c == i as int) by {
                    if c > i {
                        assert(!is_vmrss_line(lsv[i as int]));
                    }
                }
                assert(v@ == trim(trim_end_all(trim(lsv[i as int].skip(6)), "kB"@)));
                assert(vmrss_kb(s@) == vmrss_value(lsv[i as int]));
            }
            return parse_i64_chars(&v);
        }
        i = i + 1;
    }
    None
}

} // verus!
