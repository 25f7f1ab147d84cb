//! Path strings: `~` expansion and joining, as the configuration uses them.
use vstd::prelude::*;
use crate::text::chars_of;

verus! {

/// `path` with a leading `~` replaced by `home`; other paths unchanged.
pub open spec fn expand_tilde_spec(path: Seq<char>, home: Seq<char>) -> Seq<char> {
    if path.len() > 0 && path[0] == '~' {
        home + path.skip(1)
    } else {
        path
    }
}

/// Replaces a leading `~` of `path` with `home` (the first `~` is the
/// leading one, so this is `path.replacen('~', home, 1)` for such paths).
pub fn expand_tilde(path: &str, home: &str) -> (r: String)
    ensures
        r@ == expand_tilde_spec(path@, home@),
{
    let p = chars_of(path);
    if p.len() > 0 && p[0] == '~' {
        let mut out: Vec<char> = chars_of(home);
        let mut i: usize = 1;
        while i < p.len()
            invariant
                1 <= i <= p@.len(),
                p@ == path@,
                out@ == home@ + p@.subrange(1, i as int),
            decreases p@.len() - i,
        {
            out.push(p[i]);
            i = i + 1;
            assert(out@ =~= home@ + p@.subrange(1, i as int));
        }
        assert(p@.subrange(1, p@.len() as int) =~= p@.skip(1));
        crate::text::string_of(&out)
    } else {
        path.to_owned()
    }
}

/// `base.join(rel)` for a relative `rel`: a `/` goes between them unless
/// `base` is empty or already ends with one.
pub open spec fn join_spec(base: Seq<char>, rel: Seq<char>) -> Seq<char> {
    if base.len() == 0 || base.last() == '/' {
        base + rel
    } else {
        base + seq!['/'] + rel
    }
}

/// Joins a relative path onto `base`.
pub fn join(base: &str, rel: &str) -> (r: String)
    ensures
        r@ == join_spec(base@, rel@),
{
    let b = chars_of(base);
    let s = base.to_owned();
    if b.len() == 0 || b[b.len() - 1] == '/' {
        s.concat(rel)
    } else {
        let s2 = s.concat("/");
        proof {
            reveal_strlit("/");
        }
        let r = s2.concat(rel);
        assert(r@ =~= base@ + seq!['/'] + rel@);
        r
    }
}

/// `$HOME`, or `/root` when it is not set.
pub open spec fn home_or_root(home: Option<Seq<char>>) -> Seq<char> {
    match home {
        Some(h) => h,
        None => "/root"@,
    }
}

pub fn home_dir_or_root(home: &Option<String>) -> (r: String)
    ensures
        r@ == home_or_root(match home {
            Some(h) => Some(h@),
            None => None,
        }),
{
    match home {
        Some(h) => h.clone(),
        None => String::from_str("/root"),
    }
}

} // verus!
