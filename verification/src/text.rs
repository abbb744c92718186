//! Character-level helpers shared by the parsers and the reply builders.

use vstd::prelude::*;

verus! {

broadcast use vstd::string::group_string_axioms;

/// The characters of `s`, in order.
pub fn chars_of(s: &str) -> (v: Vec<char>)
    ensures
        v@ == s@,
{
    let mut v: Vec<char> = Vec::new();
    for c in it: s.chars()
        invariant
            v@ == it.seq().take(it.index()),
    {
        v.push(c);
    }
    v
}

/// Appends one character to a `String` (std's `String::push`).
#[verifier::external_body]
pub(crate) fn push_char(s: &mut String, c: char)
    ensures
        final(s)@ == old(s)@.push(c),
{
    s.push(c);
}

/// A `String` holding exactly the given characters.
pub fn string_of(chars: &[char]) -> (s: String)
    ensures
        s@ == chars@,
{
    let mut s = String::new();
    let n = chars.len();
    for i in 0..n
        invariant
            n == chars@.len(),
            s@ == chars@.take(i as int),
    {
        push_char(&mut s, chars[i]);
        assert(chars@.take(i as int).push(chars@[i as int]) =~= chars@.take(i + 1));
    }
    assert(chars@.take(n as int) =~= chars@);
    s
}


/// `pat` occurs in `hay` starting at position `k`.
pub open spec fn matches_at(hay: Seq<char>, pat: Seq<char>, k: int) -> bool {
    &&& 0 <= k
    &&& k + pat.len() <= hay.len()
    &&& hay.subrange(k, k + pat.len()) == pat
}

/// The first position at or after `from` where `pat` occurs in `hay`.
pub open spec fn find_from(hay: Seq<char>, pat: Seq<char>, from: int) -> Option<int>
    decreases hay.len() + 1 - from,
{
    if from < 0 || from + pat.len() > hay.len() {
        None
    } else if matches_at(hay, pat, from) {
        Some(from)
    } else {
        find_from(hay, pat, from + 1)
    }
}

/// What `find_from` returns is an occurrence, and the first one from `from` on.
pub proof fn lemma_find_from(hay: Seq<char>, pat: Seq<char>, from: int)
    requires
        0 <= from,
    ensures
        find_from(hay, pat, from) matches Some(k) ==> {
            &&& from <= k
            &&& matches_at(hay, pat, k)
            &&& forall|q: int| from <= q < k ==> !matches_at(hay, pat, q)
        },
        find_from(hay, pat, from) is None ==> forall|q: int|
            from <= q ==> !matches_at(hay, pat, q),
    decreases hay.len() + 1 - from,
{
    if from < 0 || from + pat.len() > hay.len() {
    } else if matches_at(hay, pat, from) {
    } else {
        lemma_find_from(hay, pat, from + 1);
    }
}

/// Whether `pat` occurs in `hay` at position `k`.
pub fn occurs_at(hay: &Vec<char>, pat: &Vec<char>, k: usize) -> (b: bool)
    ensures
        b == matches_at(hay@, pat@, k as int),
{
    if k > hay.len() || pat.len() > hay.len() - k {
        return false;
    }
    let n = pat.len();
    let mut t: usize = 0;
    while t < n
        invariant
            n == pat@.len(),
            k + n <= hay.len(),
            t <= n,
            forall|q: int| 0 <= q < t ==> hay@[k + q] == pat@[q],
        decreases n - t,
    {
        if hay[k + t] != pat[t] {
            return false;
        }
        t = t + 1;
    }
    assert(hay@.subrange(k as int, k + n) =~= pat@);
    true
}

/// The first position at or after `from` where `pat` occurs in `hay`.
pub fn find(hay: &Vec<char>, pat: &Vec<char>, from: usize) -> (r: Option<usize>)
    ensures
        r matches Some(k) ==> find_from(hay@, pat@, from as int) == Some(k as int),
        r is None ==> find_from(hay@, pat@, from as int) is None,
{
    if from > hay.len() || pat.len() > hay.len() - from {
        return None;
    }
    let last = hay.len() - pat.len();
    let mut k = from;
    while k <= last
        invariant
            from <= k,
            last + pat@.len() == hay@.len(),
            find_from(hay@, pat@, from as int) == find_from(hay@, pat@, k as int),
        decreases last + 1 - k,
    {
        if occurs_at(hay, pat, k) {
            return Some(k);
        }
        if k == last {
            assert(find_from(hay@, pat@, k + 1) is None);
            return None;
        }
        k = k + 1;
    }
    None
}

/// The characters of `v` from `lo` up to `hi`.
pub fn sub_chars(v: &Vec<char>, lo: usize, hi: usize) -> (r: Vec<char>)
    requires
        lo <= hi <= v@.len(),
    ensures
        r@ == v@.subrange(lo as int, hi as int),
{
    let mut r: Vec<char> = Vec::new();
    for i in lo..hi
        invariant
            hi <= v@.len(),
            r@ == v@.subrange(lo as int, i as int),
    {
        r.push(v[i]);
        assert(v@.subrange(lo as int, i + 1) =~= v@.subrange(lo as int, i as int).push(v@[i as int]));
    }
    r
}

/// `a` followed by `b`.
pub fn join_chars(a: &Vec<char>, b: &Vec<char>) -> (r: Vec<char>)
    ensures
        r@ == a@ + b@,
{
    let mut r = sub_chars(a, 0, a.len());
    assert(a@.subrange(0, a@.len() as int) =~= a@);
    let n = b.len();
    for i in 0..n
        invariant
            n == b@.len(),
            r@ == a@ + b@.take(i as int),
    {
        r.push(b[i]);
        assert(a@ + b@.take(i + 1) =~= (a@ + b@.take(i as int)).push(b@[i as int]));
    }
    assert(b@.take(n as int) =~= b@);
    r
}

/// Whether `c` has the Unicode `White_Space` property, which std's
/// `char::is_whitespace` tests: tab, line feed, vertical tab, form feed,
/// carriage return, space, U+0085, U+00A0, U+1680, U+2000 to U+200A, U+2028,
/// U+2029, U+202F, U+205F and U+3000.
pub open spec fn is_white_space(c: char) -> bool {
    let v = c as u32;
    ||| (0x09 <= v && v <= 0x0D)
    ||| v == 0x20
    ||| v == 0x85
    ||| v == 0xA0
    ||| v == 0x1680
    ||| (0x2000 <= v && v <= 0x200A)
    ||| v == 0x2028
    ||| v == 0x2029
    ||| v == 0x202F
    ||| v == 0x205F
    ||| v == 0x3000
}

/// Whether `c` is white space.
pub fn char_is_whitespace(c: char) -> (b: bool)
    ensures
        b == is_white_space(c),
{
    let v = c as u32;
    (0x09 <= v && v <= 0x0D) || v == 0x20 || v == 0x85 || v == 0xA0 || v == 0x1680 || (0x2000
        <= v && v <= 0x200A) || v == 0x2028 || v == 0x2029 || v == 0x202F || v == 0x205F || v
        == 0x3000
}

/// `s` without its leading white space.
pub open spec fn trim_start(s: Seq<char>) -> Seq<char>
    decreases s.len(),
{
    if s.len() > 0 && is_white_space(s[0]) {
        trim_start(s.drop_first())
    } else {
        s
    }
}

/// `s` without its trailing white space.
pub open spec fn trim_end(s: Seq<char>) -> Seq<char>
    decreases s.len(),
{
    if s.len() > 0 && is_white_space(s.last()) {
        trim_end(s.drop_last())
    } else {
        s
    }
}

/// `s` without leading and trailing white space, as std's `str::trim` gives it.
pub open spec fn trim(s: Seq<char>) -> Seq<char> {
    trim_end(trim_start(s))
}

/// The bounds of `trim(v[lo..hi])` inside `v`.
pub fn trim_bounds(v: &Vec<char>, lo: usize, hi: usize) -> (r: (usize, usize))
    requires
        lo <= hi <= v@.len(),
    ensures
        lo <= r.0 <= r.1 <= hi,
        v@.subrange(r.0 as int, r.1 as int) == trim(v@.subrange(lo as int, hi as int)),
        forall|q: int| lo <= q < r.0 ==> is_white_space(#[trigger] v@[q]),
        forall|q: int| r.1 <= q < hi ==> is_white_space(#[trigger] v@[q]),
        r.0 < r.1 ==> !is_white_space(v@[r.0 as int]) && !is_white_space(v@[r.1 - 1]),
{
    let mut a = lo;
    while a < hi && char_is_whitespace(v[a])
        invariant
            lo <= a <= hi <= v@.len(),
            trim_start(v@.subrange(lo as int, hi as int)) == trim_start(
                v@.subrange(a as int, hi as int),
            ),
            forall|q: int| lo <= q < a ==> is_white_space(#[trigger] v@[q]),
        decreases hi - a,
    {
        assert(v@.subrange(a as int, hi as int).drop_first() =~= v@.subrange(a + 1, hi as int));
        a = a + 1;
    }
    let mut b = hi;
    while b > a && char_is_whitespace(v[b - 1])
        invariant
            lo <= a <= b <= hi <= v@.len(),
            a < hi ==> !is_white_space(v@[a as int]),
            trim_end(v@.subrange(a as int, hi as int)) == trim_end(v@.subrange(a as int, b as int)),
            forall|q: int| b <= q < hi ==> is_white_space(#[trigger] v@[q]),
        decreases b - a,
    {
        assert(v@.subrange(a as int, b as int).drop_last() =~= v@.subrange(a as int, b - 1));
        b = b - 1;
    }
    (a, b)
}

/// Trimming removes the leading white space and nothing else from the front.
proof fn lemma_trim_start_skips(s: Seq<char>) -> (a: int)
    ensures
        0 <= a <= s.len(),
        trim_start(s) == s.skip(a),
        forall|q: int| 0 <= q < a ==> is_white_space(#[trigger] s[q]),
        a < s.len() ==> !is_white_space(s[a]),
    decreases s.len(),
{
    if s.len() > 0 && is_white_space(s[0]) {
        let a1 = lemma_trim_start_skips(s.drop_first());
        assert(s.drop_first().skip(a1) =~= s.skip(a1 + 1));
        assert forall|q: int| 0 <= q < a1 + 1 implies is_white_space(#[trigger] s[q]) by {
            if q > 0 {
                assert(s[q] == s.drop_first()[q - 1]);
            }
        }
        if a1 + 1 < s.len() {
            assert(s[a1 + 1] == s.drop_first()[a1]);
        }
        a1 + 1
    } else {
        assert(s.skip(0) =~= s);
        0
    }
}

/// Trimming removes the trailing white space and nothing else from the back.
proof fn lemma_trim_end_takes(s: Seq<char>) -> (b: int)
    ensures
        0 <= b <= s.len(),
        trim_end(s) == s.take(b),
        forall|q: int| b <= q < s.len() ==> is_white_space(#[trigger] s[q]),
        b > 0 ==> !is_white_space(s[b - 1]),
    decreases s.len(),
{
    if s.len() > 0 && is_white_space(s.last()) {
        let b1 = lemma_trim_end_takes(s.drop_last());
        assert(s.drop_last().take(b1) =~= s.take(b1));
        assert forall|q: int| b1 <= q < s.len() implies is_white_space(#[trigger] s[q]) by {
            if q < s.len() - 1 {
                assert(s[q] == s.drop_last()[q]);
            }
        }
        if b1 > 0 {
            assert(s[b1 - 1] == s.drop_last()[b1 - 1]);
        }
        b1
    } else {
        assert(s.take(s.len() as int) =~= s);
        s.len() as int
    }
}

/// Trimming keeps a contiguous part of the text, inner white space included:
/// everything before it and after it is white space, and it neither starts nor
/// ends with white space.
pub proof fn lemma_trim_keeps_inner_text(s: Seq<char>)
    ensures
        exists|a: int, b: int|
            {
                &&& 0 <= a <= b <= s.len()
                &&& trim(s) == s.subrange(a, b)
                &&& forall|q: int| 0 <= q < a ==> is_white_space(#[trigger] s[q])
                &&& forall|q: int| b <= q < s.len() ==> is_white_space(#[trigger] s[q])
                &&& a < b ==> !is_white_space(s[a]) && !is_white_space(s[b - 1])
            },
{
    let a = lemma_trim_start_skips(s);
    let t = s.skip(a);
    let b1 = lemma_trim_end_takes(t);
    let b = a + b1;
    assert(t.take(b1) =~= s.subrange(a, b));
    assert forall|q: int| b <= q < s.len() implies is_white_space(#[trigger] s[q]) by {
        assert(s[q] == t[q - a]);
    }
    if a < b {
        assert(s[b - 1] == t[b1 - 1]);
    }
}

/// Text that neither starts nor ends with white space is its own trim,
/// whatever white space it holds inside.
pub proof fn lemma_trim_of_trimmed(s: Seq<char>)
    requires
        s.len() > 0 ==> !is_white_space(s[0]) && !is_white_space(s.last()),
    ensures
        trim(s) == s,
{
    assert(trim_start(s) == s);
    assert(trim_end(s) == s);
}

/// Searching in `a + b` from a position inside `b` finds what searching `b` finds, moved by `a`.
pub proof fn lemma_find_from_shift(a: Seq<char>, b: Seq<char>, p: Seq<char>, f: int)
    requires
        0 <= f,
    ensures
        find_from(a + b, p, a.len() + f) == match find_from(b, p, f) {
            Some(k) => Some(k + a.len()),
            None => None,
        },
    decreases b.len() + 1 - f,
{
    let h = a + b;
    let g = a.len() + f;
    if g + p.len() > h.len() {
    } else {
        assert(h.subrange(g, g + p.len()) =~= b.subrange(f, f + p.len()));
        if !matches_at(b, p, f) {
            lemma_find_from_shift(a, b, p, f + 1);
        }
    }
}

/// Positions that do not hold the first character of `p` cannot start it.
pub proof fn lemma_find_from_skip(h: Seq<char>, p: Seq<char>, from: int, to: int)
    requires
        0 <= from <= to <= h.len(),
        p.len() > 0,
        forall|q: int| from <= q < to ==> h[q] != p[0],
    ensures
        find_from(h, p, from) == find_from(h, p, to),
    decreases to - from,
{
    if from < to {
        if from + p.len() <= h.len() {
            assert(h.subrange(from, from + p.len())[0] == h[from]);
        }
        lemma_find_from_skip(h, p, from + 1, to);
    }
}

} // verus!
