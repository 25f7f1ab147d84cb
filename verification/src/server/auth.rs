//! Request guard decisions: which `Origin` values count as local, and a
//! token comparison whose running time does not depend on where the first
//! difference is.
use vstd::prelude::*;
use crate::text::{
    chars_eq, chars_eq_ignore_ascii_case, chars_of, eq_ignore_ascii_case, find_char, first_index_of,
    slice_chars, starts_with_chars, all_digits, digits_value, is_digit,
};

verus! {

/// `s` with `prefix` removed, when `s` starts with it.
pub open spec fn strip(s: Seq<char>, prefix: Seq<char>) -> Option<Seq<char>> {
    if prefix.len() <= s.len() && s.take(prefix.len() as int) == prefix {
        Some(s.skip(prefix.len() as int))
    } else {
        None
    }
}

/// The origin after its `http://` or `https://` scheme, if it has one.
pub open spec fn origin_rest(origin: Seq<char>) -> Seq<char> {
    match strip(origin, "http://"@) {
        Some(r) => r,
        None => match strip(origin, "https://"@) {
            Some(r) => r,
            None => origin,
        },
    }
}

/// Index of the first `:` or `/` at or after `i` (or the length).
pub open spec fn host_end_from(r: Seq<char>, i: int) -> int
    decreases r.len() - i,
{
    if i >= r.len() || i < 0 {
        r.len() as int
    } else if r[i] == ':' || r[i] == '/' {
        i
    } else {
        host_end_from(r, i + 1)
    }
}

/// Host part of an origin: a bracketed IPv6 literal without its brackets, or
/// everything up to the first `:` or `/`. `None` for an unclosed `[`.
pub open spec fn origin_host(origin: Seq<char>) -> Option<Seq<char>> {
    let r = origin_rest(origin);
    if r.len() > 0 && r[0] == '[' {
        let inner = r.skip(1);
        if exists|e: int| first_index_of(inner, ']', e) {
            let e = choose|e: int| first_index_of(inner, ']', e);
            Some(inner.take(e))
        } else {
            None
        }
    } else {
        Some(r.take(host_end_from(r, 0)))
    }
}

/// The parts of `s` between the dots (one part for a text without dots).
pub open spec fn dot_parts(s: Seq<char>) -> Seq<Seq<char>>
    decreases s.len(),
{
    if s.len() == 0 {
        seq![Seq::<char>::empty()]
    } else {
        let p = dot_parts(s.drop_last());
        if s.last() == '.' {
            p.push(Seq::<char>::empty())
        } else {
            p.update(p.len() - 1, p.last().push(s.last()))
        }
    }
}

/// One decimal octet of a dotted IPv4 address: one to three digits, no
/// leading zero, at most 255.
pub open spec fn octet(p: Seq<char>) -> bool {
    &&& 1 <= p.len() <= 3
    &&& all_digits(p)
    &&& (p.len() == 1 || p[0] != '0')
    &&& digits_value(p) <= 255
}

/// A dotted-quad IPv4 address in `127.0.0.0/8`. Only the canonical form
/// counts (four decimal octets, no leading zeros): a browser writes the
/// `Origin` of `http://127.1` as `http://127.0.0.1`, so shorthand such as
/// `127.1` is refused, as is a DNS name that merely begins with `127.`.
pub open spec fn ipv4_loopback(h: Seq<char>) -> bool {
    let ps = dot_parts(h);
    &&& ps.len() == 4
    &&& forall|i: int| 0 <= i < 4 ==> octet(#[trigger] ps[i])
    &&& ps[0] == "127"@
}

/// `localhost` in any ASCII case, `::1`, or an IPv4 address `127.x.y.z`.
pub open spec fn loopback_host(h: Seq<char>) -> bool {
    ||| eq_ignore_ascii_case(h, "localhost"@)
    ||| h == "::1"@
    ||| ipv4_loopback(h)
}

pub open spec fn views_of(v: Seq<Vec<char>>) -> Seq<Seq<char>> {
    v.map_values(|x: Vec<char>| x@)
}

fn dot_parts_exec(s: &Vec<char>) -> (r: Vec<Vec<char>>)
    ensures
        views_of(r@) == dot_parts(s@),
{
    let mut r: Vec<Vec<char>> = Vec::new();
    r.push(Vec::new());
    let mut i: usize = 0;
    proof {
        assert(s@.take(0) =~= Seq::<char>::empty());
        assert(views_of(r@) =~= seq![Seq::<char>::empty()]);
    }
    while i < s.len()
        invariant
            i <= s@.len(),
            r@.len() >= 1,
            views_of(r@) == dot_parts(s@.take(i as int)),
        decreases s@.len() - i,
    {
        let c = s[i];
        proof {
            assert(s@.take(i + 1).drop_last() =~= s@.take(i as int));
            assert(s@.take(i + 1).last() == c);
        }
        let ghost before = r@;
        if c == '.' {
            r.push(Vec::new());
            proof {
                assert(views_of(r@) =~= views_of(before).push(Seq::<char>::empty()));
            }
        } else {
            let last = r.len() - 1;
            let mut part = r[last].clone();
            part.push(c);
            r.set(last, part);
            proof {
                assert(views_of(r@) =~= views_of(before).update(last as int, views_of(before).last().push(c)));
            }
        }
        i = i + 1;
    }
    assert(s@.take(s@.len() as int) =~= s@);
    r
}

fn octet_exec(p: &Vec<char>) -> (b: bool)
    ensures
        b == octet(p@),
{
    if p.len() < 1 || p.len() > 3 {
        return false;
    }
    let mut v: u32 = 0;
    let mut i: usize = 0;
    while i < p.len()
        invariant
            1 <= p@.len() <= 3,
            i <= p@.len(),
            all_digits(p@.take(i as int)),
            v == digits_value(p@.take(i as int)),
            v < 1000,
            digits_value(p@.take(i as int)) < 1000,
            i == 0 ==> v == 0,
            i == 1 ==> v < 10,
            i == 2 ==> v < 100,
        decreases p@.len() - i,
    {
        let c = p[i];
        proof {
            assert(p@.take(i + 1).drop_last() =~= p@.take(i as int));
            assert(p@.take(i + 1).last() == c);
        }
        if !('0' <= c && c <= '9') {
            proof {
                assert(!all_digits(p@)) by {
                    assert(!is_digit(p@[i as int]));
                }
            }
            return false;
        }
        v = v * 10 + ((c as u32) - ('0' as u32));
        proof {
            assert forall|k: int| 0 <= k < i + 1 implies is_digit(#[trigger] p@.take(i + 1)[k]) by {
                if k < i {
                    assert(p@.take(i + 1)[k] == p@.take(i as int)[k]);
                }
            }
        }
        i = i + 1;
    }
    assert(p@.take(p@.len() as int) =~= p@);
    v <= 255 && (p.len() == 1 || p[0] != '0')
}

fn ipv4_loopback_exec(h: &Vec<char>) -> (b: bool)
    ensures
        b == ipv4_loopback(h@),
{
    let ps = dot_parts_exec(h);
    if ps.len() != 4 {
        return false;
    }
    let ghost pv = views_of(ps@);
    let mut i: usize = 0;
    while i < 4
        invariant
            ps@.len() == 4,
            pv == views_of(ps@),
            pv == dot_parts(h@),
            i <= 4,
            forall|k: int| 0 <= k < i ==> octet(#[trigger] pv[k]),
        decreases 4 - i,
    {
        if !octet_exec(&ps[i]) {
            assert(!octet(pv[i as int]));
            return false;
        }
        i = i + 1;
    }
    let first = chars_of("127");
    proof {
        reveal_strlit("127");
    }
    assert(pv[0] == ps@[0]@);
    chars_eq(&ps[0], &first)
}

pub open spec fn loopback_origin(origin: Seq<char>) -> bool {
    match origin_host(origin) {
        Some(h) => loopback_host(h),
        None => false,
    }
}

fn strip_exec(s: &Vec<char>, prefix: &str) -> (r: Option<Vec<char>>)
    ensures
        r matches Some(v) ==> strip(s@, prefix@) == Some(v@),
        r is None ==> strip(s@, prefix@) is None,
{
    let p = chars_of(prefix);
    if starts_with_chars(s, &p) {
        Some(slice_chars(s, p.len(), s.len()))
    } else {
        None
    }
}

fn host_end(r: &Vec<char>) -> (e: usize)
    ensures
        e as int == host_end_from(r@, 0),
        e <= r.len(),
{
    let mut i: usize = 0;
    while i < r.len() && r[i] != ':' && r[i] != '/'
        invariant
            i <= r.len(),
            host_end_from(r@, 0) == host_end_from(r@, i as int),
        decreases r.len() - i,
    {
        i = i + 1;
    }
    i
}

/// True if the `Origin` header value (e.g. `http://localhost:5173`) names a
/// loopback host; any port is allowed.
pub fn is_loopback_origin(origin: &str) -> (r: bool)
    ensures
        r == loopback_origin(origin@),
{
    let o = chars_of(origin);
    let rest = match strip_exec(&o, "http://") {
        Some(r) => r,
        None => match strip_exec(&o, "https://") {
            Some(r) => r,
            None => o,
        },
    };
    let host: Vec<char>;
    if rest.len() > 0 && rest[0] == '[' {
        let inner = slice_chars(&rest, 1, rest.len());
        assert(inner@ == rest@.skip(1));
        match find_char(&inner, ']') {
            Some(e) => {
                proof {
                    let c = choose|e: int| first_index_of(inner@, ']', e);
                    assert(c == e as int) by {
                        if c < e {
                            assert(inner@[c] == ']');
                        } else if c > e {
                            assert(inner@[e as int] == ']');
                        }
                    }
                }
                host = slice_chars(&inner, 0, e);
                assert(host@ == inner@.take(e as int));
            },
            None => {
                return false;
            },
        }
    } else {
        let e = host_end(&rest);
        host = slice_chars(&rest, 0, e);
        assert(host@ == rest@.take(e as int));
    }
    let localhost = chars_of("localhost");
    let v6 = chars_of("::1");
    chars_eq_ignore_ascii_case(&host, &localhost) || chars_eq(&host, &v6) || ipv4_loopback_exec(&host)
}

proof fn lemma_or_zero(acc: u8, x: u8, y: u8)
    ensures
        (acc | (x ^ y)) == 0 <==> (acc == 0 && x == y),
{
    assert((acc | (x ^ y)) == 0 <==> (acc == 0 && x == y)) by (bit_vector);
}

/// Equality of two tokens, comparing every byte pair regardless of where the
/// first difference is (only the lengths short-circuit).
pub fn constant_time_eq(a: &str, b: &str) -> (r: bool)
    ensures
        r == (a@ == b@),
{
    let ab = a.as_bytes();
    let bb = b.as_bytes();
    proof {
        vstd::utf8::encode_utf8_decode_utf8(a@);
        vstd::utf8::encode_utf8_decode_utf8(b@);
    }
    if ab.len() != bb.len() {
        assert(ab@ != bb@);
        return false;
    }
    let mut acc: u8 = 0;
    let mut i: usize = 0;
    while i < ab.len()
        invariant
            ab.len() == bb.len(),
            i <= ab.len(),
            (acc == 0) == (forall|k: int| 0 <= k < i ==> ab@[k] == bb@[k]),
        decreases ab.len() - i,
    {
        proof {
            lemma_or_zero(acc, ab@[i as int], bb@[i as int]);
        }
        acc = acc | (ab[i] ^ bb[i]);
        i = i + 1;
    }
    if acc == 0 {
        assert(ab@ =~= bb@);
    }
    acc == 0
}

/// The token a request presents under `Authorization: Bearer <token>`.
pub open spec fn bearer_token(authorization: Option<Seq<char>>) -> Option<Seq<char>> {
    match authorization {
        Some(a) => strip(a, "Bearer "@),
        None => None,
    }
}

/// Whether the `X-Auth-Token` header or the bearer token equals the
/// expected token.
pub open spec fn valid_token_spec(x_auth_token: Option<Seq<char>>, authorization: Option<Seq<char>>, expected: Seq<char>) -> bool {
    x_auth_token == Some(expected) || bearer_token(authorization) == Some(expected)
}

pub open spec fn str_opt_view(o: Option<&str>) -> Option<Seq<char>> {
    match o {
        Some(s) => Some(s@),
        None => None,
    }
}

/// Checks the presented tokens (the header values, when present and
/// readable as text) against the expected token, comparing in constant
/// time.
pub fn request_has_valid_token(x_auth_token: Option<&str>, authorization: Option<&str>, expected: &str) -> (r: bool)
    ensures
        r == valid_token_spec(str_opt_view(x_auth_token), str_opt_view(authorization), expected@),
{
    let header_ok = match x_auth_token {
        Some(t) => constant_time_eq(t, expected),
        None => false,
    };
    let bearer_ok = match authorization {
        Some(a) => match strip_exec(&chars_of(a), "Bearer ") {
            Some(t) => {
                let ts = crate::text::string_of(&t);
                constant_time_eq(ts.as_str(), expected)
            },
            None => false,
        },
        None => false,
    };
    header_ok || bearer_ok
}

/// The guard's verdict on a request.
#[derive(Debug, Clone, Copy, PartialEq, Eq)]
pub enum GuardVerdict {
    Allow,
    /// 403: a browser request from a foreign origin.
    CrossOrigin,
    /// 401: a token is configured and the request does not present it.
    Unauthenticated,
}

/// The health endpoint is reachable without a token (under either prefix).
pub open spec fn is_health_path(path: Seq<char>) -> bool {
    path == "/health"@ || path == "/api/health"@
}

pub open spec fn guard_spec(
    path: Seq<char>,
    origin: Option<Seq<char>>,
    auth_token: Option<Seq<char>>,
    x_auth_token: Option<Seq<char>>,
    authorization: Option<Seq<char>>,
) -> GuardVerdict {
    if origin matches Some(o) && !loopback_origin(o) {
        GuardVerdict::CrossOrigin
    } else if auth_token matches Some(t) && t.len() > 0 && !is_health_path(path) && !valid_token_spec(
        x_auth_token,
        authorization,
        t,
    ) {
        GuardVerdict::Unauthenticated
    } else {
        GuardVerdict::Allow
    }
}

/// The API guard: a request with a non-loopback `Origin` is refused; when a
/// non-empty token is configured, every path but the health check needs it.
pub fn guard_verdict(
    path: &str,
    origin: Option<&str>,
    auth_token: &Option<String>,
    x_auth_token: Option<&str>,
    authorization: Option<&str>,
) -> (v: GuardVerdict)
    ensures
        v == guard_spec(
            path@,
            str_opt_view(origin),
            match auth_token {
                Some(t) => Some(t@),
                None => None,
            },
            str_opt_view(x_auth_token),
            str_opt_view(authorization),
        ),
{
    match origin {
        Some(o) => {
            if !is_loopback_origin(o) {
                return GuardVerdict::CrossOrigin;
            }
        },
        None => {},
    }
    match auth_token {
        Some(t) => {
            if t.as_str().unicode_len() > 0 {
                let health = crate::text::str_eq(path, "/health") || crate::text::str_eq(
                    path,
                    "/api/health",
                );
                if !health && !request_has_valid_token(x_auth_token, authorization, t.as_str()) {
                    return GuardVerdict::Unauthenticated;
                }
            }
        },
        None => {},
    }
    GuardVerdict::Allow
}

} // verus!
