//! Character-level helpers shared by the parsers: whitespace, trimming,
//! ASCII case folding, prefixes and decimal rendering, all over `Seq<char>`.
use vstd::prelude::*;

verus! {

/// The Unicode `White_Space` property, which is what `char::is_whitespace`
/// (and therefore `str::trim` / `str::split_whitespace`) tests.
pub open spec fn is_ws(c: char) -> bool {
    let u = c as u32;
    ||| (0x09 <= u && u <= 0x0D)
    ||| u == 0x20
    ||| u == 0x85
    ||| u == 0xA0
    ||| u == 0x1680
    ||| (0x2000 <= u && u <= 0x200A)
    ||| u == 0x2028
    ||| u == 0x2029
    ||| u == 0x202F
    ||| u == 0x205F
    ||| u == 0x3000
}

pub fn is_whitespace(c: char) -> (r: bool)
    ensures
        r == is_ws(c),
{
    let u = c as u32;
    (0x09 <= u && u <= 0x0D) || u == 0x20 || u == 0x85 || u == 0xA0 || u == 0x1680 || (0x2000
        <= u && u <= 0x200A) || u == 0x2028 || u == 0x2029 || u == 0x202F || u == 0x205F || u
        == 0x3000
}

/// `s` without its leading whitespace.
pub open spec fn trim_start(s: Seq<char>) -> Seq<char>
    decreases s.len(),
{
    if s.len() > 0 && is_ws(s[0]) {
        trim_start(s.drop_first())
    } else {
        s
    }
}

/// `s` without its trailing whitespace.
pub open spec fn trim_end(s: Seq<char>) -> Seq<char>
    decreases s.len(),
{
    if s.len() > 0 && is_ws(s.last()) {
        trim_end(s.drop_last())
    } else {
        s
    }
}

/// `str::trim`: both ends stripped of whitespace.
pub open spec fn trim(s: Seq<char>) -> Seq<char> {
    trim_end(trim_start(s))
}

pub proof fn lemma_trim_start_skip(s: Seq<char>, i: int)
    requires
        0 <= i <= s.len(),
        forall|k: int| 0 <= k < i ==> is_ws(#[trigger] s[k]),
    ensures
        trim_start(s) == trim_start(s.skip(i)),
    decreases i,
{
    if i > 0 {
        lemma_trim_start_skip(s, i - 1);
        assert(s.skip(i - 1).drop_first() =~= s.skip(i));
    } else {
        assert(s.skip(0) =~= s);
    }
}

pub proof fn lemma_trim_end_take(s: Seq<char>, j: int)
    requires
        0 <= j <= s.len(),
        forall|k: int| j <= k < s.len() ==> is_ws(#[trigger] s[k]),
    ensures
        trim_end(s) == trim_end(s.take(j)),
    decreases s.len() - j,
{
    if j < s.len() {
        lemma_trim_end_take(s, j + 1);
        assert(s.take(j + 1).drop_last() =~= s.take(j));
    } else {
        assert(s.take(j) =~= s);
    }
}

proof fn lemma_trim_start_shape(s: Seq<char>)
    ensures
        trim_start(s).len() > 0 ==> !is_ws(trim_start(s)[0]),
    decreases s.len(),
{
    if s.len() > 0 && is_ws(s[0]) {
        lemma_trim_start_shape(s.drop_first());
    }
}

proof fn lemma_trim_end_shape(s: Seq<char>)
    ensures
        trim_end(s).len() <= s.len(),
        trim_end(s) =~= s.take(trim_end(s).len() as int),
        trim_end(s).len() > 0 ==> !is_ws(trim_end(s).last()),
    decreases s.len(),
{
    if s.len() > 0 && is_ws(s.last()) {
        lemma_trim_end_shape(s.drop_last());
        assert(s.drop_last().take(trim_end(s).len() as int) =~= s.take(trim_end(s).len() as int));
    } else {
        assert(s.take(s.len() as int) =~= s);
    }
}

/// Trimming twice trims no more than trimming once.
pub proof fn lemma_trim_idempotent(s: Seq<char>)
    ensures
        trim(trim(s)) == trim(s),
{
    let a = trim_start(s);
    let t = trim_end(a);
    lemma_trim_start_shape(s);
    lemma_trim_end_shape(a);
    if t.len() > 0 {
        assert(t[0] == a[0]);
        assert(!is_ws(t.last()));
    }
    assert(trim_start(t) == t);
    assert(trim_end(t) == t);
}

/// Copy of `v[from..to]`.
pub fn slice_chars(v: &Vec<char>, from: usize, to: usize) -> (r: Vec<char>)
    requires
        from <= to <= v.len(),
    ensures
        r@ == v@.subrange(from as int, to as int),
{
    let mut r: Vec<char> = Vec::new();
    let mut k = from;
    while k < to
        invariant
            from <= k <= to <= v.len(),
            r@ == v@.subrange(from as int, k as int),
        decreases to - k,
    {
        r.push(v[k]);
        k = k + 1;
    }
    r
}

/// Index of the first non-whitespace character (or `v.len()`).
pub fn trim_start_index(v: &Vec<char>) -> (i: usize)
    ensures
        i <= v.len(),
        forall|k: int| 0 <= k < i ==> is_ws(#[trigger] v@[k]),
        i < v.len() ==> !is_ws(v@[i as int]),
        trim_start(v@) == v@.skip(i as int),
{
    let mut i: usize = 0;
    while i < v.len() && is_whitespace(v[i])
        invariant
            i <= v.len(),
            forall|k: int| 0 <= k < i ==> is_ws(#[trigger] v@[k]),
        decreases v.len() - i,
    {
        i = i + 1;
    }
    proof {
        lemma_trim_start_skip(v@, i as int);
    }
    i
}

/// `str::trim` over characters.
pub fn trim_chars(v: &Vec<char>) -> (r: Vec<char>)
    ensures
        r@ == trim(v@),
{
    let i = trim_start_index(v);
    let mut j = v.len();
    while j > i && is_whitespace(v[j - 1])
        invariant
            i <= j <= v.len(),
            forall|k: int| j <= k < v.len() ==> is_ws(#[trigger] v@[k]),
        decreases j,
    {
        j = j - 1;
    }
    let ghost t = v@.skip(i as int);
    proof {
        assert forall|k: int| (j - i) <= k < t.len() implies is_ws(#[trigger] t[k]) by {
            assert(t[k] == v@[k + i]);
        }
        lemma_trim_end_take(t, j - i);
        assert(t.take(j - i) =~= v@.subrange(i as int, j as int));
        if j > i {
            assert(t.take(j - i).last() == v@[j - 1]);
        }
    }
    slice_chars(v, i, j)
}

/// ASCII-only case folding, as used by `eq_ignore_ascii_case`.
pub open spec fn ascii_lower(c: char) -> char {
    if 'A' <= c && c <= 'Z' {
        (((c as u32) + 32) as u8) as char
    } else {
        c
    }
}

pub fn ascii_lower_char(c: char) -> (r: char)
    ensures
        r == ascii_lower(c),
{
    if 'A' <= c && c <= 'Z' {
        (((c as u32) + 32) as u8) as char
    } else {
        c
    }
}

/// `str::eq_ignore_ascii_case`.
pub open spec fn eq_ignore_ascii_case(a: Seq<char>, b: Seq<char>) -> bool {
    a.len() == b.len() && forall|i: int| 0 <= i < a.len() ==> ascii_lower(a[i]) == ascii_lower(
        b[i],
    )
}

pub fn chars_eq_ignore_ascii_case(a: &Vec<char>, b: &Vec<char>) -> (r: bool)
    ensures
        r == eq_ignore_ascii_case(a@, b@),
{
    if a.len() != b.len() {
        return false;
    }
    let mut i: usize = 0;
    while i < a.len()
        invariant
            a.len() == b.len(),
            i <= a.len(),
            forall|k: int| 0 <= k < i ==> ascii_lower(a@[k]) == ascii_lower(b@[k]),
        decreases a.len() - i,
    {
        if ascii_lower_char(a[i]) != ascii_lower_char(b[i]) {
            return false;
        }
        i = i + 1;
    }
    true
}

/// Whether `v` starts with `prefix`.
pub fn starts_with_chars(v: &Vec<char>, prefix: &Vec<char>) -> (r: bool)
    ensures
        r == (prefix@.len() <= v@.len() && v@.take(prefix@.len() as int) == prefix@),
{
    if prefix.len() > v.len() {
        return false;
    }
    let mut i: usize = 0;
    while i < prefix.len()
        invariant
            prefix.len() <= v.len(),
            i <= prefix.len(),
            forall|k: int| 0 <= k < i ==> v@[k] == prefix@[k],
        decreases prefix.len() - i,
    {
        if v[i] != prefix[i] {
            assert(v@.take(prefix@.len() as int)[i as int] != prefix@[i as int]);
            return false;
        }
        i = i + 1;
    }
    assert(v@.take(prefix@.len() as int) =~= prefix@);
    true
}

/// Whether `v` ends with `suffix`.
pub fn ends_with_chars(v: &Vec<char>, suffix: &Vec<char>) -> (r: bool)
    ensures
        r == (suffix@.len() <= v@.len() && v@.skip(v@.len() - suffix@.len()) == suffix@),
{
    if suffix.len() > v.len() {
        return false;
    }
    let off = v.len() - suffix.len();
    let mut i: usize = 0;
    while i < suffix.len()
        invariant
            suffix.len() <= v.len(),
            off == v.len() - suffix.len(),
            i <= suffix.len(),
            forall|k: int| 0 <= k < i ==> v@[off + k] == suffix@[k],
        decreases suffix.len() - i,
    {
        if v[off + i] != suffix[i] {
            assert(v@.skip(off as int)[i as int] != suffix@[i as int]);
            return false;
        }
        i = i + 1;
    }
    assert(v@.skip(off as int) =~= suffix@);
    true
}

/// Position of the first occurrence of `c`, if any.
pub open spec fn first_index_of(s: Seq<char>, c: char, i: int) -> bool {
    0 <= i < s.len() && s[i] == c && forall|k: int| 0 <= k < i ==> s[k] != c
}

pub fn find_char(v: &Vec<char>, c: char) -> (r: Option<usize>)
    ensures
        r matches Some(i) ==> first_index_of(v@, c, i as int),
        r is None ==> forall|k: int| 0 <= k < v@.len() ==> v@[k] != c,
{
    let mut i: usize = 0;
    while i < v.len()
        invariant
            i <= v.len(),
            forall|k: int| 0 <= k < i ==> v@[k] != c,
        decreases v.len() - i,
    {
        if v[i] == c {
            return Some(i);
        }
        i = i + 1;
    }
    None
}

/// Position of the last occurrence of `c`, if any (`str::rfind` on a char).
pub open spec fn last_index_of(s: Seq<char>, c: char, i: int) -> bool {
    0 <= i < s.len() && s[i] == c && forall|k: int| i < k < s.len() ==> s[k] != c
}

pub fn rfind_char(v: &Vec<char>, c: char) -> (r: Option<usize>)
    ensures
        r matches Some(i) ==> last_index_of(v@, c, i as int),
        r is None ==> forall|k: int| 0 <= k < v@.len() ==> v@[k] != c,
{
    let mut i: usize = v.len();
    while i > 0
        invariant
            i <= v.len(),
            forall|k: int| i <= k < v@.len() ==> v@[k] != c,
        decreases i,
    {
        if v[i - 1] == c {
            return Some(i - 1);
        }
        i = i - 1;
    }
    None
}

/// Decimal digit character for `d < 10`.
pub open spec fn digit_char(d: nat) -> char {
    if d == 0 {
        '0'
    } else if d == 1 {
        '1'
    } else if d == 2 {
        '2'
    } else if d == 3 {
        '3'
    } else if d == 4 {
        '4'
    } else if d == 5 {
        '5'
    } else if d == 6 {
        '6'
    } else if d == 7 {
        '7'
    } else if d == 8 {
        '8'
    } else {
        '9'
    }
}

/// Decimal rendering of a natural number, as `{}` formats it.
pub open spec fn dec(n: nat) -> Seq<char>
    decreases n,
{
    if n < 10 {
        seq![digit_char(n)]
    } else {
        dec(n / 10).push(digit_char(n % 10))
    }
}

/// Decimal rendering of an integer, with a leading `-` when negative.
pub open spec fn dec_int(n: int) -> Seq<char> {
    if n < 0 {
        seq!['-'] + dec((-n) as nat)
    } else {
        dec(n as nat)
    }
}

fn digit(d: u64) -> (c: char)
    requires
        d < 10,
    ensures
        c == digit_char(d as nat),
{
    if d == 0 {
        '0'
    } else if d == 1 {
        '1'
    } else if d == 2 {
        '2'
    } else if d == 3 {
        '3'
    } else if d == 4 {
        '4'
    } else if d == 5 {
        '5'
    } else if d == 6 {
        '6'
    } else if d == 7 {
        '7'
    } else if d == 8 {
        '8'
    } else {
        '9'
    }
}

pub fn u64_to_dec(n: u64) -> (r: Vec<char>)
    ensures
        r@ == dec(n as nat),
    decreases n,
{
    if n < 10 {
        let mut v = Vec::new();
        v.push(digit(n));
        proof {
            assert(v@ =~= seq![digit_char(n as nat)]);
        }
        v
    } else {
        let mut v = u64_to_dec(n / 10);
        v.push(digit(n % 10));
        v
    }
}

pub fn i64_to_dec(n: i64) -> (r: Vec<char>)
    ensures
        r@ == dec_int(n as int),
{
    if n < 0 {
        let m: u64 = ((-(n + 1)) as u64) + 1;
        let digits = u64_to_dec(m);
        let mut r = Vec::new();
        r.push('-');
        let mut i: usize = 0;
        while i < digits.len()
            invariant
                i <= digits.len(),
                r@ == seq!['-'] + digits@.take(i as int),
            decreases digits.len() - i,
        {
            r.push(digits[i]);
            proof {
                assert(digits@.take(i + 1) =~= digits@.take(i as int).push(digits@[i as int]));
            }
            i = i + 1;
        }
        proof {
            assert(digits@.take(digits@.len() as int) =~= digits@);
        }
        r
    } else {
        u64_to_dec(n as u64)
    }
}

/// Appends `b` to `a`.
pub fn append_chars(a: &mut Vec<char>, b: &Vec<char>)
    ensures
        final(a)@ == old(a)@ + b@,
{
    let ghost a0 = a@;
    let mut i: usize = 0;
    while i < b.len()
        invariant
            i <= b.len(),
            a@ == a0 + b@.take(i as int),
        decreases b.len() - i,
    {
        a.push(b[i]);
        proof {
            assert(b@.take(i + 1) =~= b@.take(i as int).push(b@[i as int]));
        }
        i = i + 1;
    }
    proof {
        assert(b@.take(b@.len() as int) =~= b@);
    }
}

/// Character-wise equality of two character vectors.
pub fn chars_eq(a: &Vec<char>, b: &Vec<char>) -> (r: bool)
    ensures
        r == (a@ == b@),
{
    if a.len() != b.len() {
        return false;
    }
    let mut i: usize = 0;
    while i < a.len()
        invariant
            a.len() == b.len(),
            i <= a.len(),
            forall|k: int| 0 <= k < i ==> a@[k] == b@[k],
        decreases a.len() - i,
    {
        if a[i] != b[i] {
            return false;
        }
        i = i + 1;
    }
    assert(a@ =~= b@);
    true
}

/// String-slice equality (`a == b`).
pub fn str_eq(a: &str, b: &str) -> (r: bool)
    ensures
        r == (a@ == b@),
{
    chars_eq(&chars_of(a), &chars_of(b))
}

/// Lexicographic order of the characters from position `i` on, comparing
/// characters by code point (the order of `str::cmp`, since UTF-8 keeps the
/// code point order of its bytes); a proper prefix comes first.
pub open spec fn lt_from(a: Seq<char>, b: Seq<char>, i: int) -> bool
    decreases a.len() - i,
{
    if i >= a.len() {
        i < b.len()
    } else if i >= b.len() {
        false
    } else if a[i] != b[i] {
        a[i] < b[i]
    } else {
        lt_from(a, b, i + 1)
    }
}

/// `a < b` for strings.
pub open spec fn seq_lt(a: Seq<char>, b: Seq<char>) -> bool {
    lt_from(a, b, 0)
}

proof fn lemma_lt_from_order(a: Seq<char>, b: Seq<char>, c: Seq<char>, i: int)
    requires
        0 <= i,
    ensures
        !lt_from(a, a, i),
        lt_from(a, b, i) && lt_from(b, c, i) ==> lt_from(a, c, i),
        lt_from(a, b, i) ==> !lt_from(b, a, i),
    decreases a.len() - i,
{
    if i < a.len() {
        lemma_lt_from_order(a, b, c, i + 1);
    }
}

proof fn lemma_lt_from_total(a: Seq<char>, b: Seq<char>, i: int)
    requires
        0 <= i,
        a.len() >= i,
        b.len() >= i,
        forall|k: int| 0 <= k < i ==> a[k] == b[k],
    ensures
        a == b || lt_from(a, b, i) || lt_from(b, a, i),
    decreases a.len() - i,
{
    if i < a.len() && i < b.len() && a[i] == b[i] {
        lemma_lt_from_total(a, b, i + 1);
    } else if i >= a.len() && i >= b.len() {
        assert(a =~= b);
    } else if i < a.len() && i < b.len() {
    }
}

/// `seq_lt` is a strict total order.
pub proof fn lemma_seq_lt_strict_total(a: Seq<char>, b: Seq<char>, c: Seq<char>)
    ensures
        !seq_lt(a, a),
        seq_lt(a, b) && seq_lt(b, c) ==> seq_lt(a, c),
        seq_lt(a, b) ==> !seq_lt(b, a),
        a == b || seq_lt(a, b) || seq_lt(b, a),
{
    lemma_lt_from_order(a, b, c, 0);
    lemma_lt_from_total(a, b, 0);
}

/// `a < b` for character vectors.
pub fn chars_lt(a: &Vec<char>, b: &Vec<char>) -> (r: bool)
    ensures
        r == seq_lt(a@, b@),
{
    let mut i: usize = 0;
    while i < a.len() && i < b.len() && a[i] == b[i]
        invariant
            i <= a@.len(),
            i <= b@.len(),
            lt_from(a@, b@, 0) == lt_from(a@, b@, i as int),
        decreases a@.len() - i,
    {
        i = i + 1;
    }
    if i >= a.len() {
        i < b.len()
    } else if i >= b.len() {
        false
    } else {
        a[i] < b[i]
    }
}

/// `a < b` for string slices.
pub fn str_lt(a: &str, b: &str) -> (r: bool)
    ensures
        r == seq_lt(a@, b@),
{
    chars_lt(&chars_of(a), &chars_of(b))
}

/// The characters of a string slice.
pub fn chars_of(s: &str) -> (v: Vec<char>)
    ensures
        v@ == s@,
{
    let mut v: Vec<char> = Vec::new();
    for c in it: s.chars()
        invariant
            v@ == it.seq().take(it.index() as int),
            it.seq() == s@,
    {
        v.push(c);
    }
    v
}

/// Builds a `String` from its characters (`FromIterator<&char> for String`).
#[verifier::external_body]
pub fn string_of(v: &Vec<char>) -> (s: String)
    ensures
        s@ == v@,
{
    v.iter().collect()
}

/// Full Unicode lowercase mapping of a string (`str::to_lowercase`). The
/// mapping is defined by the Unicode case tables and is not spelled out here.
pub uninterp spec fn lowercase(s: Seq<char>) -> Seq<char>;

/// `str::to_lowercase`: the result is `lowercase` of the argument, and the
/// empty text stays empty (the mapping goes character by character). Nothing
/// else, not even how lengths relate otherwise, is stated about it.
#[verifier::external_body]
pub fn to_lowercase(s: &str) -> (r: String)
    ensures
        r@ == lowercase(s@),
        s@.len() == 0 ==> r@.len() == 0,
{
    s.to_lowercase()
}

} // verus!

verus! {

/// Words of `s` as `str::split_whitespace` yields them, accumulated left to
/// right: the words completed so far and the word being read.
pub open spec fn words_acc(s: Seq<char>) -> (Seq<Seq<char>>, Seq<char>)
    decreases s.len(),
{
    if s.len() == 0 {
        (Seq::empty(), Seq::empty())
    } else {
        let (ws, cur) = words_acc(s.drop_last());
        let c = s.last();
        if is_ws(c) {
            if cur.len() > 0 {
                (ws.push(cur), Seq::empty())
            } else {
                (ws, cur)
            }
        } else {
            (ws, cur.push(c))
        }
    }
}

/// The maximal runs of non-whitespace characters of `s`, in order.
pub open spec fn words(s: Seq<char>) -> Seq<Seq<char>> {
    let (ws, cur) = words_acc(s);
    if cur.len() > 0 {
        ws.push(cur)
    } else {
        ws
    }
}

pub open spec fn views(v: Seq<Vec<char>>) -> Seq<Seq<char>> {
    v.map_values(|w: Vec<char>| w@)
}

/// `split_whitespace` over characters.
pub fn split_words(s: &Vec<char>) -> (r: Vec<Vec<char>>)
    ensures
        views(r@) == words(s@),
{
    let mut ws: Vec<Vec<char>> = Vec::new();
    let mut cur: Vec<char> = Vec::new();
    let mut i: usize = 0;
    while i < s.len()
        invariant
            i <= s.len(),
            (views(ws@), cur@) == words_acc(s@.take(i as int)),
        decreases s.len() - i,
    {
        let c = s[i];
        proof {
            assert(s@.take(i + 1).drop_last() =~= s@.take(i as int));
        }
        if is_whitespace(c) {
            if cur.len() > 0 {
                let w = cur;
                cur = Vec::new();
                ws.push(w);
                proof {
                    assert(views(ws@) =~= views(ws@.drop_last()).push(w@));
                }
            }
        } else {
            cur.push(c);
        }
        i = i + 1;
    }
    proof {
        assert(s@.take(s@.len() as int) =~= s@);
    }
    if cur.len() > 0 {
        let w = cur;
        ws.push(w);
        proof {
            assert(views(ws@) =~= views(ws@.drop_last()).push(w@));
        }
    }
    ws
}

/// Numeric value of an ASCII digit.
pub open spec fn digit_value(c: char) -> nat {
    ((c as u32) - ('0' as u32)) as nat
}

pub open spec fn is_digit(c: char) -> bool {
    '0' <= c && c <= '9'
}

pub open spec fn all_digits(w: Seq<char>) -> bool {
    forall|i: int| 0 <= i < w.len() ==> is_digit(#[trigger] w[i])
}

/// Value of a string of decimal digits (most significant first).
pub open spec fn digits_value(w: Seq<char>) -> nat
    decreases w.len(),
{
    if w.len() == 0 {
        0
    } else {
        digits_value(w.drop_last()) * 10 + digit_value(w.last())
    }
}

/// Reading a decimal rendering back gives the number: `dec` is one-to-one.
pub proof fn lemma_dec_value(n: nat)
    ensures
        digits_value(dec(n)) == n,
        dec(n).len() > 0,
    decreases n,
{
    if n < 10 {
        let d = dec(n);
        assert(d.drop_last() =~= Seq::<char>::empty());
        assert(digits_value(d.drop_last()) == 0);
    } else {
        lemma_dec_value(n / 10);
        let d = dec(n);
        assert(d.drop_last() =~= dec(n / 10));
        assert(d.last() == digit_char(n % 10));
        assert(digit_value(digit_char(n % 10)) == n % 10);
    }
}

/// `s` without one leading `c`, if it starts with one.
pub open spec fn drop_sign(w: Seq<char>, c: char) -> Seq<char> {
    if w.len() > 0 && w[0] == c {
        w.drop_first()
    } else {
        w
    }
}

/// `<u64 as FromStr>::from_str`: an optional `+`, then one or more ASCII
/// digits whose value fits in 64 bits.
pub open spec fn parse_u64(w: Seq<char>) -> Option<u64> {
    let d = drop_sign(w, '+');
    if d.len() > 0 && all_digits(d) && digits_value(d) <= u64::MAX {
        Some(digits_value(d) as u64)
    } else {
        None
    }
}

/// `<i64 as FromStr>::from_str`: an optional `+` or `-`, then one or more
/// ASCII digits whose signed value fits in 64 bits.
pub open spec fn parse_i64(w: Seq<char>) -> Option<i64> {
    if w.len() > 0 && w[0] == '-' {
        let d = w.drop_first();
        if d.len() > 0 && all_digits(d) && digits_value(d) <= 0x8000_0000_0000_0000 {
            Some((-(digits_value(d) as int)) as i64)
        } else {
            None
        }
    } else {
        let d = drop_sign(w, '+');
        if d.len() > 0 && all_digits(d) && digits_value(d) <= i64::MAX {
            Some(digits_value(d) as i64)
        } else {
            None
        }
    }
}

proof fn lemma_digits_value_mono(w: Seq<char>, i: int)
    requires
        0 <= i <= w.len(),
        all_digits(w),
    ensures
        digits_value(w.take(i)) <= digits_value(w),
    decreases w.len() - i,
{
    if i < w.len() {
        lemma_digits_value_mono(w, i + 1);
        assert(w.take(i + 1).drop_last() =~= w.take(i));
    } else {
        assert(w.take(i) =~= w);
    }
}

/// Value of the digit string `d[from..]` as an unsigned number no larger
/// than `limit`, or `None` when a character is not a digit, the string is
/// empty, or the value exceeds `limit`.
fn parse_digits(d: &Vec<char>, from: usize, limit: u64) -> (r: Option<u64>)
    requires
        from <= d.len(),
        limit >= 9,
    ensures
        ({
            let w = d@.skip(from as int);
            match r {
                Some(v) => w.len() > 0 && all_digits(w) && digits_value(w) <= limit && v
                    == digits_value(w),
                None => !(w.len() > 0 && all_digits(w) && digits_value(w) <= limit),
            }
        }),
{
    let ghost w = d@.skip(from as int);
    if from == d.len() {
        return None;
    }
    let mut i: usize = from;
    let mut v: u64 = 0;
    while i < d.len()
        invariant
            from <= i <= d.len(),
            w == d@.skip(from as int),
            all_digits(w.take(i - from)),
            v == digits_value(w.take(i - from)),
            v <= limit,
            limit >= 9,
        decreases d.len() - i,
    {
        let c = d[i];
        proof {
            assert(w[i - from] == c);
        }
        if !('0' <= c && c <= '9') {
            return None;
        }
        let dv: u64 = ((c as u32) - ('0' as u32)) as u64;
        proof {
            assert(w.take(i - from + 1).drop_last() =~= w.take(i - from));
            assert(w.take(i - from + 1).last() == c);
            assert(all_digits(w.take(i - from + 1))) by {
                assert forall|k: int| 0 <= k < w.take(i - from + 1).len() implies is_digit(
                    #[trigger] w.take(i - from + 1)[k],
                ) by {
                    if k < i - from {
                        assert(w.take(i - from + 1)[k] == w.take(i - from)[k]);
                    }
                }
            }
        }
        if v > (limit - dv) / 10 {
            proof {
                assert(digits_value(w.take(i - from + 1)) > limit) by (nonlinear_arith)
                    requires
                        v > (limit - dv) / 10,
                        dv <= limit,
                        digits_value(w.take(i - from + 1)) == v * 10 + dv,
                        dv <= 9,
                ;
                if all_digits(w) {
                    lemma_digits_value_mono(w, i - from + 1);
                }
            }
            return None;
        }
        v = v * 10 + dv;
        i = i + 1;
    }
    proof {
        assert(w.take(i - from) =~= w);
    }
    Some(v)
}

pub fn parse_u64_chars(w: &Vec<char>) -> (r: Option<u64>)
    ensures
        r == parse_u64(w@),
{
    let from: usize = if w.len() > 0 && w[0] == '+' { 1 } else { 0 };
    proof {
        if from == 1 {
            assert(drop_sign(w@, '+') =~= w@.skip(1));
        } else {
            assert(drop_sign(w@, '+') =~= w@.skip(0));
        }
    }
    parse_digits(w, from, u64::MAX)
}

pub fn parse_i64_chars(w: &Vec<char>) -> (r: Option<i64>)
    ensures
        r == parse_i64(w@),
{
    if w.len() > 0 && w[0] == '-' {
        proof {
            assert(w@.drop_first() =~= w@.skip(1));
        }
        match parse_digits(w, 1, 0x8000_0000_0000_0000) {
            Some(v) => {
                if v == 0x8000_0000_0000_0000 {
                    Some(i64::MIN)
                } else {
                    Some(-(v as i64))
                }
            },
            None => None,
        }
    } else {
        let from: usize = if w.len() > 0 && w[0] == '+' { 1 } else { 0 };
        proof {
            if from == 1 {
                assert(drop_sign(w@, '+') =~= w@.skip(1));
            } else {
                assert(drop_sign(w@, '+') =~= w@.skip(0));
            }
        }
        match parse_digits(w, from, i64::MAX as u64) {
            Some(v) => Some(v as i64),
            None => None,
        }
    }
}

/// The `'\n'`-separated pieces of `s`.
pub open spec fn split_lines_acc(s: Seq<char>) -> (Seq<Seq<char>>, Seq<char>)
    decreases s.len(),
{
    if s.len() == 0 {
        (Seq::empty(), Seq::empty())
    } else {
        let (done, cur) = split_lines_acc(s.drop_last());
        if s.last() == '\n' {
            (done.push(cur), Seq::empty())
        } else {
            (done, cur.push(s.last()))
        }
    }
}

pub open spec fn split_lines(s: Seq<char>) -> Seq<Seq<char>> {
    let (done, cur) = split_lines_acc(s);
    done.push(cur)
}

/// The `'\n'`-separated pieces of a text.
pub fn split_lines_chars(s: &Vec<char>) -> (r: Vec<Vec<char>>)
    ensures
        views(r@) == split_lines(s@),
{
    let mut done: Vec<Vec<char>> = Vec::new();
    let mut cur: Vec<char> = Vec::new();
    let mut i: usize = 0;
    while i < s.len()
        invariant
            i <= s.len(),
            (views(done@), cur@) == split_lines_acc(s@.take(i as int)),
        decreases s.len() - i,
    {
        proof {
            assert(s@.take(i + 1).drop_last() =~= s@.take(i as int));
        }
        if s[i] == '\n' {
            let line = cur;
            cur = Vec::new();
            done.push(line);
            proof {
                assert(views(done@) =~= views(done@.drop_last()).push(line@));
            }
        } else {
            cur.push(s[i]);
        }
        i = i + 1;
    }
    proof {
        assert(s@.take(s@.len() as int) =~= s@);
    }
    let line = cur;
    done.push(line);
    proof {
        assert(views(done@) =~= views(done@.drop_last()).push(line@));
    }
    done
}

/// `s` contains `pat` as a contiguous piece.
pub open spec fn contains_seq(s: Seq<char>, pat: Seq<char>) -> bool {
    exists|i: int| 0 <= i <= s.len() - pat.len() && #[trigger] s.subrange(i, i + pat.len()) == pat
}

fn matches_at(v: &Vec<char>, p: &Vec<char>, i: usize) -> (r: bool)
    requires
        i + p@.len() <= v@.len(),
    ensures
        r == (v@.subrange(i as int, i + p@.len()) == p@),
{
    let mut k: usize = 0;
    while k < p.len()
        invariant
            i + p@.len() <= v@.len(),
            k <= p@.len(),
            v@.len() == v.len(),
            p@.len() == p.len(),
            forall|m: int| 0 <= m < k ==> v@[i + m] == p@[m],
        decreases p@.len() - k,
    {
        assert(i + k < v.len());
        if v[i + k] != p[k] {
            assert(v@.subrange(i as int, i + p@.len())[k as int] != p@[k as int]);
            return false;
        }
        k = k + 1;
    }
    assert(v@.subrange(i as int, i + p@.len()) =~= p@);
    true
}

/// `str::contains` with a string pattern.
pub fn contains_str(s: &str, pat: &str) -> (r: bool)
    ensures
        r == contains_seq(s@, pat@),
{
    let v = chars_of(s);
    let p = chars_of(pat);
    if p.len() > v.len() {
        return false;
    }
    let last = v.len() - p.len();
    let mut i: usize = 0;
    while i < last
        invariant
            v@ == s@,
            p@ == pat@,
            p.len() <= v.len(),
            last == v.len() - p.len(),
            i <= last,
            forall|j: int| 0 <= j < i ==> #[trigger] v@.subrange(j, j + p@.len()) != p@,
        decreases last - i,
    {
        if matches_at(&v, &p, i) {
            return true;
        }
        i = i + 1;
    }
    matches_at(&v, &p, last)
}

/// `s` without one trailing `'\r'`.
pub open spec fn strip_cr(s: Seq<char>) -> Seq<char> {
    if s.len() > 0 && s.last() == '\r' {
        s.drop_last()
    } else {
        s
    }
}

/// `str::lines`: the pieces between `'\n'`s, a `"\r\n"` ending counting as
/// one line ending, and no empty piece after a final line ending.
pub open spec fn std_lines(s: Seq<char>) -> Seq<Seq<char>> {
    let (done, cur) = split_lines_acc(s);
    let ended = done.map_values(|l: Seq<char>| strip_cr(l));
    if cur.len() > 0 {
        ended.push(cur)
    } else {
        ended
    }
}

/// `str::lines` over characters.
pub fn std_lines_chars(s: &Vec<char>) -> (r: Vec<Vec<char>>)
    ensures
        views(r@) == std_lines(s@),
{
    let mut done: Vec<Vec<char>> = Vec::new();
    let mut cur: Vec<char> = Vec::new();
    let mut i: usize = 0;
    while i < s.len()
        invariant
            i <= s.len(),
            views(done@) == split_lines_acc(s@.take(i as int)).0.map_values(|l: Seq<char>| strip_cr(l)),
            cur@ == split_lines_acc(s@.take(i as int)).1,
        decreases s.len() - i,
    {
        proof {
            assert(s@.take(i + 1).drop_last() =~= s@.take(i as int));
        }
        if s[i] == '\n' {
            let mut line = cur;
            if line.len() > 0 && line[line.len() - 1] == '\r' {
                line.pop();
            }
            cur = Vec::new();
            let ghost before = views(done@);
            let ghost acc = split_lines_acc(s@.take(i as int));
            done.push(line);
            proof {
                assert(views(done@) =~= before.push(line@));
                assert(acc.0.push(acc.1).map_values(|l: Seq<char>| strip_cr(l)) =~= acc.0.map_values(
                    |l: Seq<char>| strip_cr(l),
                ).push(strip_cr(acc.1)));
            }
        } else {
            cur.push(s[i]);
        }
        i = i + 1;
    }
    proof {
        assert(s@.take(s@.len() as int) =~= s@);
    }
    if cur.len() > 0 {
        let line = cur;
        let ghost before = views(done@);
        done.push(line);
        assert(views(done@) =~= before.push(line@));
    }
    done
}

} // verus!
