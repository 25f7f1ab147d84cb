//! SQLite-`LIKE`-style pattern matching used by the app-category and project
//! rules: `%` matches any run of characters, `_` exactly one, everything
//! else itself, case-insensitively.
use vstd::prelude::*;
use crate::text::{chars_of, lowercase, to_lowercase};

verus! {

/// One pattern character against one text character, outside of `%`.
pub open spec fn single_matches(pc: char, tc: char) -> bool {
    pc == '_' || pc == tc
}

/// Whether `p[pi..]` is all `%`.
pub open spec fn only_stars_from(p: Seq<char>, pi: int) -> bool {
    forall|k: int| pi <= k < p.len() ==> p[k] == '%'
}

/// Well-formed state of the single-backtrack matcher: `star < 0` means no
/// `%` has been seen yet; otherwise `p[star] == '%'` and `mark` is the text
/// position that the most recent `%` is currently assumed to have reached.
pub open spec fn run_state(p: Seq<char>, t: Seq<char>, pi: int, ti: int, star: int, mark: int) -> bool {
    &&& 0 <= pi <= p.len()
    &&& 0 <= ti <= t.len()
    &&& star < p.len()
    &&& (star >= 0 ==> 0 <= mark <= ti && star < pi)
}

/// The matcher's outcome from a given state. Text characters are consumed
/// left to right; a `%` in the pattern records a backtracking point (also
/// when the text holds a `%` there), any other pattern character must match
/// the current text character, and on a mismatch the most recent `%`
/// swallows one more character.
pub open spec fn like_run(p: Seq<char>, t: Seq<char>, pi: int, ti: int, star: int, mark: int) -> bool
    decreases t.len() + 1 - (if star < 0 {
        -1
    } else {
        mark
    }), t.len() - ti, p.len() - pi,
    when run_state(p, t, pi, ti, star, mark)
{
    if ti >= t.len() {
        only_stars_from(p, pi)
    } else if pi < p.len() && p[pi] == '%' {
        like_run(p, t, pi + 1, ti, pi, ti)
    } else if pi < p.len() && single_matches(p[pi], t[ti]) {
        like_run(p, t, pi + 1, ti + 1, star, mark)
    } else if star >= 0 {
        like_run(p, t, star + 1, mark + 1, star, mark + 1)
    } else {
        false
    }
}

/// Result of matching pattern `p` against text `t` (both already folded).
pub open spec fn like_chars(p: Seq<char>, t: Seq<char>) -> bool {
    like_run(p, t, 0, 0, -1, 0)
}

/// Classic wildcard semantics: `%` is any (possibly empty) run, `_` is one
/// character, anything else matches itself.
pub open spec fn glob(p: Seq<char>, t: Seq<char>, i: int, j: int) -> bool
    decreases p.len() - i + t.len() - j,
    when 0 <= i <= p.len() && 0 <= j <= t.len()
{
    if i >= p.len() {
        j >= t.len()
    } else if p[i] == '%' {
        glob(p, t, i + 1, j) || (j < t.len() && glob(p, t, i, j + 1))
    } else {
        j < t.len() && single_matches(p[i], t[j]) && glob(p, t, i + 1, j + 1)
    }
}


/// `p[i..i+len]` holds no `%` and matches `t[j..j+len]` one character at a time.
pub open spec fn literal_run(p: Seq<char>, t: Seq<char>, i: int, j: int, len: int) -> bool {
    &&& 0 <= len
    &&& 0 <= i && i + len <= p.len()
    &&& 0 <= j && j + len <= t.len()
    &&& forall|y: int| i <= y < i + len ==> #[trigger] p[y] != '%' && single_matches(p[y], t[j + (y - i)])
}

proof fn lemma_glob_at_end(p: Seq<char>, t: Seq<char>, i: int)
    requires
        0 <= i <= p.len(),
    ensures
        glob(p, t, i, t.len() as int) == only_stars_from(p, i),
    decreases p.len() - i,
{
    if i < p.len() {
        lemma_glob_at_end(p, t, i + 1);
    }
}

/// Characters `p[i..i+len]` match `t[j..j+len]` one by one.
pub open spec fn singles_match(p: Seq<char>, t: Seq<char>, i: int, j: int, len: int) -> bool {
    forall|y: int| i <= y < i + len ==> single_matches(#[trigger] p[y], t[j + (y - i)])
}

/// Unfolds a `%`-free pattern segment of length `len` starting at `i`.
proof fn lemma_glob_segment(p: Seq<char>, t: Seq<char>, i: int, j: int, len: int)
    requires
        0 <= len,
        0 <= i && i + len <= p.len(),
        0 <= j <= t.len(),
        forall|y: int| i <= y < i + len ==> #[trigger] p[y] != '%',
    ensures
        glob(p, t, i, j) == (j + len <= t.len() && singles_match(p, t, i, j, len) && glob(
            p,
            t,
            i + len,
            j + len,
        )),
    decreases len,
{
    if len > 0 {
        assert(p[i] != '%');
        if j < t.len() {
            lemma_glob_segment(p, t, i + 1, j + 1, len - 1);
            if glob(p, t, i, j) {
                assert forall|y: int| i <= y < i + len implies single_matches(
                    #[trigger] p[y],
                    t[j + (y - i)],
                ) by {
                    if y > i {
                        assert(single_matches(p[y], t[(j + 1) + (y - (i + 1))]));
                    }
                }
            }
            if j + len <= t.len() && singles_match(p, t, i, j, len) && glob(p, t, i + len, j + len) {
                assert(single_matches(p[i], t[j + (i - i)]));
                assert forall|y: int| (i + 1) <= y < (i + 1) + (len - 1) implies single_matches(
                    #[trigger] p[y],
                    t[(j + 1) + (y - (i + 1))],
                ) by {
                    assert(single_matches(p[y], t[j + (y - i)]));
                }
            }
        }
    }
}

/// A `%` that matches from a later text position also matches from an
/// earlier one (it can swallow the difference).
proof fn lemma_star_absorbs(p: Seq<char>, t: Seq<char>, i: int, j: int, k: int)
    requires
        0 <= i < p.len(),
        p[i] == '%',
        0 <= j <= k <= t.len(),
        glob(p, t, i, k),
    ensures
        glob(p, t, i, j),
    decreases k - j,
{
    if j < k {
        lemma_star_absorbs(p, t, i, j + 1, k);
    }
}

/// A `%` at `i` matching from `j` means the rest of the pattern matches
/// from some position at or after `j`.
proof fn lemma_star_witness(p: Seq<char>, t: Seq<char>, i: int, j: int) -> (k: int)
    requires
        0 <= i < p.len(),
        p[i] == '%',
        0 <= j <= t.len(),
        glob(p, t, i, j),
    ensures
        j <= k <= t.len(),
        glob(p, t, i + 1, k),
    decreases t.len() - j,
{
    if glob(p, t, i + 1, j) {
        j
    } else {
        lemma_star_witness(p, t, i, j + 1)
    }
}

/// Invariant of the matcher: with no `%` seen it decides `glob` from the
/// current position; once a `%` is recorded, the segment after it has been
/// matched literally from `mark`, and the outcome is `glob` from that `%`.
proof fn lemma_run_is_glob(p: Seq<char>, t: Seq<char>, pi: int, ti: int, star: int, mark: int)
    requires
        run_state(p, t, pi, ti, star, mark),
        star >= 0 ==> p[star] == '%' && literal_run(p, t, star + 1, mark, pi - (star + 1)),
        star >= 0 ==> ti - mark == pi - (star + 1),
    ensures
        like_run(p, t, pi, ti, star, mark) == (if star < 0 {
            glob(p, t, pi, ti)
        } else {
            glob(p, t, star, mark)
        }),
    decreases t.len() + 1 - (if star < 0 {
        -1
    } else {
        mark
    }), t.len() - ti, p.len() - pi,
{
    let len = pi - (star + 1);
    if ti >= t.len() {
        lemma_glob_at_end(p, t, pi);
        if star >= 0 {
            lemma_glob_segment(p, t, star + 1, mark, len);
            if glob(p, t, star, mark) {
                let k = lemma_star_witness(p, t, star, mark);
                lemma_glob_segment(p, t, star + 1, k, len);
            }
        }
    } else if pi < p.len() && p[pi] == '%' {
        lemma_run_is_glob(p, t, pi + 1, ti, pi, ti);
        if star >= 0 {
            lemma_glob_segment(p, t, star + 1, mark, len);
            if glob(p, t, star, mark) {
                let k = lemma_star_witness(p, t, star, mark);
                lemma_glob_segment(p, t, star + 1, k, len);
                lemma_star_absorbs(p, t, pi, ti, k + len);
            }
        }
    } else if pi < p.len() && single_matches(p[pi], t[ti]) {
        assert(p[pi] != '%');
        if star >= 0 {
            assert forall|y: int| (star + 1) <= y < (star + 1) + (len + 1) implies #[trigger] p[y]
                != '%' && single_matches(p[y], t[mark + (y - (star + 1))]) by {
                if y == pi {
                    assert(mark + (y - (star + 1)) == ti);
                }
            }
        }
        lemma_run_is_glob(p, t, pi + 1, ti + 1, star, mark);
    } else if star >= 0 {
        lemma_run_is_glob(p, t, star + 1, mark + 1, star, mark + 1);
        lemma_glob_segment(p, t, star + 1, mark, len);
    } else {
    }
}

/// The matcher decides exactly the classic wildcard semantics `glob`, for
/// every pattern and every text (a `%` in the text is an ordinary
/// character).
pub proof fn law_like_is_glob(p: Seq<char>, t: Seq<char>)
    ensures
        like_chars(p, t) == glob(p, t, 0, 0),
{
    lemma_run_is_glob(p, t, 0, 0, -1, 0);
}

fn like_match_chars(p: &Vec<char>, t: &Vec<char>) -> (r: bool)
    ensures
        r == like_chars(p@, t@),
{
    let mut pi: usize = 0;
    let mut ti: usize = 0;
    let mut star: Option<usize> = None;
    let mut mark: usize = 0;
    while ti < t.len()
        invariant
            run_state(p@, t@, pi as int, ti as int, match star {
                Some(s) => s as int,
                None => -1,
            }, mark as int),
            like_chars(p@, t@) == like_run(p@, t@, pi as int, ti as int, match star {
                Some(s) => s as int,
                None => -1,
            }, mark as int),
        decreases t.len() + 1 - (match star {
            Some(_) => mark as int,
            None => -1,
        }), t.len() - ti, p.len() - pi,
    {
        if pi < p.len() && p[pi] == '%' {
            star = Some(pi);
            mark = ti;
            pi = pi + 1;
        } else if pi < p.len() && (p[pi] == '_' || p[pi] == t[ti]) {
            pi = pi + 1;
            ti = ti + 1;
        } else if let Some(s) = star {
            pi = s + 1;
            mark = mark + 1;
            ti = mark;
        } else {
            return false;
        }
    }
    while pi < p.len() && p[pi] == '%'
        invariant
            pi <= p.len(),
            ti == t.len(),
            like_chars(p@, t@) == only_stars_from(p@, pi as int),
        decreases p.len() - pi,
    {
        pi = pi + 1;
    }
    pi == p.len()
}

/// Case-insensitive `LIKE` match of `text` against `pattern`: both sides are
/// lowercased first, then matched as SQLite's `LIKE` does (`glob`).
pub fn like_match(pattern: &str, text: &str) -> (r: bool)
    ensures
        r == glob(lowercase(pattern@), lowercase(text@), 0, 0),
        r == like_chars(lowercase(pattern@), lowercase(text@)),
{
    let p = to_lowercase(pattern);
    let t = to_lowercase(text);
    let pv = chars_of(p.as_str());
    let tv = chars_of(t.as_str());
    proof {
        law_like_is_glob(pv@, tv@);
    }
    like_match_chars(&pv, &tv)
}

} // verus!
