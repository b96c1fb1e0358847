//! Character-level helpers shared by the parsers and matchers.
//!
//! Strings are handled as sequences of `char`. Each helper is specified by a
//! spec function over `Seq<char>`; the splitting helpers are specified as left
//! folds so that the loops that compute them can be checked step by step.

use vstd::prelude::*;
use vstd::std_specs::iter::IteratorSpec;

verus! {

/// The characters of `s`, in order.
pub fn chars_of(s: &str) -> (out: Vec<char>)
    ensures
        out@ == s@,
{
    let mut out: Vec<char> = Vec::new();
    for c in it: s.chars()
        invariant
            out@ == it.seq().take(it.index() as int),
            it.seq() == s@,
    {
        out.push(c);
    }
    out
}

/// Builds a `String` from its characters (`FromIterator<char>` for `String`).
#[verifier::external_body]
pub fn string_from_chars(v: &Vec<char>) -> (s: String)
    ensures
        s@ == v@,
{
    v.iter().collect()
}

/// Copies a string slice into an owned `String`.
pub fn owned(s: &str) -> (r: String)
    ensures
        r@ == s@,
{
    s.to_owned()
}

/// What `str::to_lowercase` returns for a string with these characters
/// (Unicode lower-case mapping, which may change the length).
pub uninterp spec fn unicode_lower(s: Seq<char>) -> Seq<char>;

/// Whether every character is ASCII.
pub open spec fn all_ascii(s: Seq<char>) -> bool {
    forall|i: int| 0 <= i < s.len() ==> (#[trigger] s[i] as u32) < 128
}

/// `c` with `A`..`Z` mapped to `a`..`z`.
pub open spec fn ascii_lower_char(c: char) -> char {
    if 'A' <= c && c <= 'Z' {
        ((c as u32) + 32) as char
    } else {
        c
    }
}

/// `c` with `a`..`z` mapped to `A`..`Z`.
pub open spec fn ascii_upper_char(c: char) -> char {
    if 'a' <= c && c <= 'z' {
        ((c as u32) - 32) as char
    } else {
        c
    }
}

/// Unicode lower-casing of a string slice, by `str::to_lowercase`.
/// The result is the lower-case mapping of exactly the argument's
/// characters; on ASCII text that maps `A`..`Z` to `a`..`z` and keeps every
/// other character (as `str::to_ascii_lowercase` does).
#[verifier::external_body]
pub fn to_lowercase(s: &str) -> (r: String)
    ensures
        r@ == unicode_lower(s@),
        all_ascii(s@) ==> r@ == s@.map_values(|c: char| ascii_lower_char(c)),
{
    s.to_lowercase()
}

/// What `str::to_uppercase` returns for a string with these characters
/// (Unicode upper-case mapping, which may change the length).
pub uninterp spec fn unicode_upper(s: Seq<char>) -> Seq<char>;

/// Unicode upper-casing of a string slice, by `str::to_uppercase`.
/// The result is the upper-case mapping of exactly the argument's
/// characters; on ASCII text that maps `a`..`z` to `A`..`Z` and keeps every
/// other character (as `str::to_ascii_uppercase` does).
#[verifier::external_body]
pub fn to_uppercase(s: &str) -> (r: String)
    ensures
        r@ == unicode_upper(s@),
        all_ascii(s@) ==> r@ == s@.map_values(|c: char| ascii_upper_char(c)),
{
    s.to_uppercase()
}

/// Lower-cases the characters of `v` (by `str::to_lowercase` on the same text).
pub fn lowercase_chars(v: &Vec<char>) -> (r: Vec<char>)
    ensures
        r@ == unicode_lower(v@),
        all_ascii(v@) ==> r@ == v@.map_values(|c: char| ascii_lower_char(c)),
{
    let s = string_from_chars(v);
    let l = to_lowercase(s.as_str());
    chars_of(l.as_str())
}

/// `char::is_whitespace`: the characters with the Unicode `White_Space` property.
pub open spec fn is_ws(c: char) -> bool {
    ||| ('\u{9}' <= c && c <= '\u{d}')
    ||| c == ' '
    ||| c == '\u{85}'
    ||| c == '\u{a0}'
    ||| c == '\u{1680}'
    ||| ('\u{2000}' <= c && c <= '\u{200a}')
    ||| c == '\u{2028}'
    ||| c == '\u{2029}'
    ||| c == '\u{202f}'
    ||| c == '\u{205f}'
    ||| c == '\u{3000}'
}

pub fn is_whitespace(c: char) -> (b: bool)
    ensures
        b == is_ws(c),
{
    ('\u{9}' <= c && c <= '\u{d}') || c == ' ' || c == '\u{85}' || c == '\u{a0}' || c == '\u{1680}'
        || ('\u{2000}' <= c && c <= '\u{200a}') || c == '\u{2028}' || c == '\u{2029}' || c
        == '\u{202f}' || c == '\u{205f}' || c == '\u{3000}'
}

/// `s` without its leading white space.
pub open spec fn trim_start(s: Seq<char>) -> Seq<char>
    decreases s.len(),
{
    if s.len() > 0 && is_ws(s[0]) {
        trim_start(s.drop_first())
    } else {
        s
    }
}

/// `s` without its trailing white space.
pub open spec fn trim_end(s: Seq<char>) -> Seq<char>
    decreases s.len(),
{
    if s.len() > 0 && is_ws(s.last()) {
        trim_end(s.drop_last())
    } else {
        s
    }
}

/// `str::trim`: `s` without leading and trailing white space.
pub open spec fn trim(s: Seq<char>) -> Seq<char> {
    trim_end(trim_start(s))
}

proof fn lemma_trim_start_skip(s: Seq<char>, i: int)
    requires
        0 <= i <= s.len(),
        forall|j: int| 0 <= j < i ==> is_ws(#[trigger] s[j]),
    ensures
        trim_start(s) == trim_start(s.skip(i)),
    decreases i,
{
    if i > 0 {
        assert(s.skip(1) =~= s.drop_first());
        lemma_trim_start_skip(s.drop_first(), i - 1);
        assert(s.drop_first().skip(i - 1) =~= s.skip(i));
    } else {
        assert(s.skip(0) =~= s);
    }
}

proof fn lemma_trim_end_take(s: Seq<char>, i: int)
    requires
        0 <= i <= s.len(),
        forall|j: int| i <= j < s.len() ==> is_ws(#[trigger] s[j]),
    ensures
        trim_end(s) == trim_end(s.take(i)),
    decreases s.len() - i,
{
    if i < s.len() {
        assert(s.take(s.len() - 1) =~= s.drop_last());
        lemma_trim_end_take(s.drop_last(), i);
        assert(s.drop_last().take(i) =~= s.take(i));
    } else {
        assert(s.take(i) =~= s);
    }
}

/// The characters of `s` with leading and trailing white space removed.
pub fn trim_chars(s: &Vec<char>) -> (r: Vec<char>)
    ensures
        r@ == trim(s@),
{
    let n = s.len();
    let mut a: usize = 0;
    while a < n && is_whitespace(s[a])
        invariant
            a <= n,
            n == s@.len(),
            forall|j: int| 0 <= j < a ==> is_ws(#[trigger] s@[j]),
        decreases n - a,
    {
        a = a + 1;
    }
    proof {
        lemma_trim_start_skip(s@, a as int);
    }
    let mut b: usize = n;
    while b > a && is_whitespace(s[b - 1])
        invariant
            a <= b <= n,
            n == s@.len(),
            forall|j: int| b <= j < n ==> is_ws(#[trigger] s@[j]),
        decreases b,
    {
        b = b - 1;
    }
    let ghost t = s@.skip(a as int);
    proof {
        assert(trim_start(t) == t);
        assert forall|j: int| b - a <= j < t.len() implies is_ws(#[trigger] t[j]) by {
            assert(t[j] == s@[j + a]);
        }
        lemma_trim_end_take(t, b - a);
        if b > a {
            assert(!is_ws(t.take(b - a).last()));
        }
    }
    let r = slice_chars(s, a, b);
    proof {
        assert(r@ =~= t.take(b - a));
    }
    r
}

/// The characters of `s` from index `from` up to (not including) `to`.
pub fn slice_chars(s: &Vec<char>, from: usize, to: usize) -> (r: Vec<char>)
    requires
        from <= to <= s.len(),
    ensures
        r@ == s@.subrange(from as int, to as int),
{
    let mut r: Vec<char> = Vec::new();
    let mut i = from;
    while i < to
        invariant
            from <= i <= to <= s.len(),
            r@ == s@.subrange(from as int, i as int),
        decreases to - i,
    {
        r.push(s[i]);
        i = i + 1;
        proof {
            assert(r@ =~= s@.subrange(from as int, i as int));
        }
    }
    r
}

/// Whether `s` begins with `p`.
pub open spec fn has_prefix(s: Seq<char>, p: Seq<char>) -> bool {
    p.len() <= s.len() && s.take(p.len() as int) == p
}

/// Whether `s` ends with `p`.
pub open spec fn has_suffix(s: Seq<char>, p: Seq<char>) -> bool {
    p.len() <= s.len() && s.skip(s.len() - p.len()) == p
}

/// Whether `p` occurs in `s` at position `i`.
pub open spec fn occurs_at(s: Seq<char>, p: Seq<char>, i: int) -> bool {
    0 <= i && i + p.len() <= s.len() && s.subrange(i, i + p.len()) == p
}

/// `str::contains` with a string pattern: `p` occurs somewhere in `s`.
pub open spec fn contains_seq(s: Seq<char>, p: Seq<char>) -> bool {
    exists|i: int| occurs_at(s, p, i)
}

/// Whether `p` occurs in `s` at position `i`.
pub fn matches_at(s: &Vec<char>, p: &Vec<char>, i: usize) -> (b: bool)
    ensures
        b == occurs_at(s@, p@, i as int),
{
    if p.len() > s.len() || i > s.len() - p.len() {
        return false;
    }
    let mut k: usize = 0;
    while k < p.len()
        invariant
            i + p.len() <= s.len(),
            k <= p.len(),
            forall|j: int| 0 <= j < k ==> s@[i + j] == p@[j],
        decreases p.len() - k,
    {
        if s[i + k] != p[k] {
            assert(s@.subrange(i as int, i + p.len())[k as int] != p@[k as int]);
            return false;
        }
        k = k + 1;
    }
    assert(s@.subrange(i as int, i + p.len()) =~= p@);
    true
}

/// Whether `s` begins with `p`.
pub fn starts_with(s: &Vec<char>, p: &Vec<char>) -> (b: bool)
    ensures
        b == has_prefix(s@, p@),
{
    let b = matches_at(s, p, 0);
    proof {
        if p@.len() <= s@.len() {
            assert(s@.subrange(0, p@.len() as int) =~= s@.take(p@.len() as int));
        }
    }
    b
}

/// Whether `s` ends with `p`.
pub fn ends_with(s: &Vec<char>, p: &Vec<char>) -> (b: bool)
    ensures
        b == has_suffix(s@, p@),
{
    if p.len() > s.len() {
        return false;
    }
    let b = matches_at(s, p, s.len() - p.len());
    proof {
        assert(s@.subrange(s@.len() - p@.len(), s@.len() as int) =~= s@.skip(
            s@.len() - p@.len(),
        ));
    }
    b
}

/// Whether `p` occurs anywhere in `s` (`str::contains`).
pub fn contains_chars(s: &Vec<char>, p: &Vec<char>) -> (b: bool)
    ensures
        b == contains_seq(s@, p@),
{
    if p.len() > s.len() {
        assert forall|i: int| !occurs_at(s@, p@, i) by {}
        return false;
    }
    let last = s.len() - p.len();
    let mut i: usize = 0;
    loop
        invariant
            last == s@.len() - p@.len(),
            i <= last,
            forall|j: int| 0 <= j < i ==> !occurs_at(s@, p@, j),
        ensures
            forall|j: int| 0 <= j <= last ==> !occurs_at(s@, p@, j),
        decreases last - i,
    {
        if matches_at(s, p, i) {
            return true;
        }
        if i == last {
            break;
        }
        i = i + 1;
    }
    assert forall|j: int| !occurs_at(s@, p@, j) by {
        if 0 <= j && j <= last {
        }
    }
    false
}

/// The index of the first `c` in `s`, or `s.len()` when there is none.
pub open spec fn first_of(s: Seq<char>, c: char) -> int
    decreases s.len(),
{
    if s.len() == 0 {
        0
    } else if s[0] == c {
        0
    } else {
        1 + first_of(s.drop_first(), c)
    }
}

proof fn lemma_first_of(s: Seq<char>, c: char, k: int)
    requires
        0 <= k <= s.len(),
        forall|j: int| 0 <= j < k ==> s[j] != c,
        k < s.len() ==> s[k] == c,
    ensures
        first_of(s, c) == k,
    decreases k,
{
    if k > 0 {
        assert forall|j: int| 0 <= j < k - 1 implies s.drop_first()[j] != c by {
            assert(s.drop_first()[j] == s[j + 1]);
        }
        lemma_first_of(s.drop_first(), c, k - 1);
    }
}

/// The position of the first `c` in `s` (`s.len()` when `c` does not occur).
pub fn find_char(s: &Vec<char>, c: char) -> (k: usize)
    ensures
        k == first_of(s@, c),
        k <= s@.len(),
        forall|j: int| 0 <= j < k ==> s@[j] != c,
        k < s@.len() ==> s@[k as int] == c,
{
    let mut k: usize = 0;
    while k < s.len() && s[k] != c
        invariant
            k <= s@.len(),
            forall|j: int| 0 <= j < k ==> s@[j] != c,
        decreases s.len() - k,
    {
        k = k + 1;
    }
    proof {
        lemma_first_of(s@, c, k as int);
    }
    k
}

/// `str::split_once` with a character: the text before and after the first
/// `c`, when there is one.
pub open spec fn split_once(s: Seq<char>, c: char) -> Option<(Seq<char>, Seq<char>)> {
    let k = first_of(s, c);
    if k < s.len() {
        Some((s.take(k), s.skip(k + 1)))
    } else {
        None
    }
}

/// Whether the two character sequences are equal.
pub fn chars_eq(a: &Vec<char>, b: &Vec<char>) -> (r: bool)
    ensures
        r == (a@ == b@),
{
    if a.len() != b.len() {
        return false;
    }
    let mut i: usize = 0;
    while i < a.len()
        invariant
            a@.len() == b@.len(),
            i <= a@.len(),
            forall|j: int| 0 <= j < i ==> a@[j] == b@[j],
        decreases a.len() - i,
    {
        if a[i] != b[i] {
            return false;
        }
        i = i + 1;
    }
    assert(a@ =~= b@);
    true
}

/// The concatenation of two character sequences.
pub fn concat_chars(a: &Vec<char>, b: &Vec<char>) -> (r: Vec<char>)
    ensures
        r@ == a@ + b@,
{
    let mut r = a.clone();
    let mut i: usize = 0;
    while i < b.len()
        invariant
            i <= b@.len(),
            r@ == a@ + b@.take(i as int),
        decreases b.len() - i,
    {
        r.push(b[i]);
        i = i + 1;
        proof {
            assert(r@ =~= a@ + b@.take(i as int));
        }
    }
    assert(b@.take(b@.len() as int) =~= b@);
    r
}

/// Splitting state: the finished pieces and the piece being collected.
pub struct SplitState {
    pub done: Seq<Seq<char>>,
    pub cur: Seq<char>,
}

/// One step of `str::split_whitespace` over the character `c`.
pub open spec fn ws_step(st: SplitState, c: char) -> SplitState {
    if is_ws(c) {
        if st.cur.len() > 0 {
            SplitState { done: st.done.push(st.cur), cur: Seq::empty() }
        } else {
            st
        }
    } else {
        SplitState { done: st.done, cur: st.cur.push(c) }
    }
}

/// The splitting state after reading all of `s`.
pub open spec fn ws_state(s: Seq<char>) -> SplitState
    decreases s.len(),
{
    if s.len() == 0 {
        SplitState { done: Seq::empty(), cur: Seq::empty() }
    } else {
        ws_step(ws_state(s.drop_last()), s.last())
    }
}

/// `str::split_whitespace`: the maximal runs of non-white-space characters.
pub open spec fn split_ws(s: Seq<char>) -> Seq<Seq<char>> {
    let st = ws_state(s);
    if st.cur.len() > 0 {
        st.done.push(st.cur)
    } else {
        st.done
    }
}

/// One step of `str::split(sep)` over the character `c`.
pub open spec fn sep_step(st: SplitState, c: char, sep: char) -> SplitState {
    if c == sep {
        SplitState { done: st.done.push(st.cur), cur: Seq::empty() }
    } else {
        SplitState { done: st.done, cur: st.cur.push(c) }
    }
}

/// The state of `str::split(sep)` after reading all of `s`.
pub open spec fn sep_state(s: Seq<char>, sep: char) -> SplitState
    decreases s.len(),
{
    if s.len() == 0 {
        SplitState { done: Seq::empty(), cur: Seq::empty() }
    } else {
        sep_step(sep_state(s.drop_last(), sep), s.last(), sep)
    }
}

/// `str::split(sep)` for a single-character separator: always one more piece
/// than there are separators.
pub open spec fn split_on(s: Seq<char>, sep: char) -> Seq<Seq<char>> {
    let st = sep_state(s, sep);
    st.done.push(st.cur)
}

/// The views of a vector of character vectors.
pub open spec fn views(v: Seq<Vec<char>>) -> Seq<Seq<char>> {
    v.map_values(|x: Vec<char>| x@)
}

/// `str::split_whitespace` on characters.
pub fn split_whitespace(s: &Vec<char>) -> (r: Vec<Vec<char>>)
    ensures
        views(r@) == split_ws(s@),
{
    let mut done: Vec<Vec<char>> = Vec::new();
    let mut cur: Vec<char> = Vec::new();
    let mut i: usize = 0;
    assert(s@.take(0) =~= Seq::<char>::empty());
    assert(views(done@) =~= Seq::<Seq<char>>::empty());
    while i < s.len()
        invariant
            i <= s@.len(),
            ws_state(s@.take(i as int)) == (SplitState { done: views(done@), cur: cur@ }),
        decreases s.len() - i,
    {
        let c = s[i];
        proof {
            assert(s@.take(i + 1).drop_last() =~= s@.take(i as int));
        }
        if is_whitespace(c) {
            if cur.len() > 0 {
                let ghost old_done = done@;
                let piece = cur;
                cur = Vec::new();
                done.push(piece);
                proof {
                    assert(done@.drop_last() =~= old_done);
                    assert(views(done@) =~= views(old_done).push(piece@));
                }
            }
        } else {
            cur.push(c);
        }
        i = i + 1;
    }
    proof {
        assert(s@.take(s@.len() as int) =~= s@);
    }
    if cur.len() > 0 {
        done.push(cur);
        proof {
            assert(views(done@) =~= views(done@.drop_last()).push(done@.last()@));
        }
    }
    done
}

/// `str::split(sep)` on characters, for a single-character separator.
pub fn split_char(s: &Vec<char>, sep: char) -> (r: Vec<Vec<char>>)
    ensures
        views(r@) == split_on(s@, sep),
{
    let mut done: Vec<Vec<char>> = Vec::new();
    let mut cur: Vec<char> = Vec::new();
    let mut i: usize = 0;
    assert(s@.take(0) =~= Seq::<char>::empty());
    assert(views(done@) =~= Seq::<Seq<char>>::empty());
    while i < s.len()
        invariant
            i <= s@.len(),
            sep_state(s@.take(i as int), sep) == (SplitState { done: views(done@), cur: cur@ }),
        decreases s.len() - i,
    {
        let c = s[i];
        proof {
            assert(s@.take(i + 1).drop_last() =~= s@.take(i as int));
        }
        if c == sep {
            let ghost old_done = done@;
            let piece = cur;
            cur = Vec::new();
            done.push(piece);
            proof {
                assert(done@.drop_last() =~= old_done);
                assert(views(done@) =~= views(old_done).push(piece@));
            }
        } else {
            cur.push(c);
        }
        i = i + 1;
    }
    proof {
        assert(s@.take(s@.len() as int) =~= s@);
    }
    let ghost old_done = done@;
    done.push(cur);
    proof {
        assert(done@.drop_last() =~= old_done);
        assert(views(done@) =~= views(old_done).push(done@.last()@));
    }
    done
}

/// Whether `c` is an ASCII decimal digit.
pub open spec fn is_digit(c: char) -> bool {
    '0' <= c && c <= '9'
}

/// The numeric value of an ASCII decimal digit.
pub open spec fn digit_value(c: char) -> nat {
    (c as nat - '0' as nat) as nat
}

/// Whether every character of `s` is an ASCII decimal digit.
pub open spec fn all_digits(s: Seq<char>) -> bool {
    forall|i: int| 0 <= i < s.len() ==> is_digit(#[trigger] s[i])
}

/// The number that the decimal digits `s` denote.
pub open spec fn digits_value(s: Seq<char>) -> nat
    decreases s.len(),
{
    if s.len() == 0 {
        0
    } else {
        digits_value(s.drop_last()) * 10 + digit_value(s.last())
    }
}

/// `s` without one leading `+`, if it has one.
pub open spec fn drop_plus(s: Seq<char>) -> Seq<char> {
    if s.len() > 0 && s[0] == '+' {
        s.drop_first()
    } else {
        s
    }
}

/// What `FromStr` for an unsigned integer type whose largest value is `max`
/// gives for `s`: an optional `+`, then at least one decimal digit, with a value
/// of at most `max`.
pub open spec fn parse_unsigned(s: Seq<char>, max: nat) -> Option<nat> {
    let d = drop_plus(s);
    if d.len() > 0 && all_digits(d) && digits_value(d) <= max {
        Some(digits_value(d))
    } else {
        None
    }
}

proof fn lemma_digits_value_mono(s: Seq<char>, i: int)
    requires
        0 <= i <= s.len(),
    ensures
        digits_value(s.take(i)) <= digits_value(s),
    decreases s.len() - i,
{
    if i < s.len() {
        lemma_digits_value_mono(s, i + 1);
        assert(s.take(i + 1).drop_last() =~= s.take(i));
    } else {
        assert(s.take(i) =~= s);
    }
}

/// Parses an unsigned decimal number of at most `max` (`FromStr` for `u8`,
/// `u16`, `u32`, `u64`, with `max` the type's largest value).
pub fn parse_unsigned_chars(s: &Vec<char>, max: u64) -> (r: Option<u64>)
    requires
        max >= 9,
    ensures
        match parse_unsigned(s@, max as nat) {
            Some(v) => r == Some(v as u64),
            None => r is None,
        },
{
    let start: usize = if s.len() > 0 && s[0] == '+' {
        1
    } else {
        0
    };
    let ghost d = drop_plus(s@);
    proof {
        assert(d =~= s@.skip(start as int));
    }
    if start >= s.len() {
        return None;
    }
    let mut acc: u64 = 0;
    let mut overflow = false;
    let mut i = start;
    while i < s.len()
        invariant
            start <= i <= s@.len(),
            start < s@.len(),
            max >= 9,
            d == s@.skip(start as int),
            d == drop_plus(s@),
            forall|j: int| start <= j < i ==> is_digit(#[trigger] s@[j]),
            !overflow ==> acc as nat == digits_value(d.take(i - start)) && acc <= max,
            overflow ==> digits_value(d.take(i - start)) > max,
        decreases s.len() - i,
    {
        let c = s[i];
        if !('0' <= c && c <= '9') {
            assert(d[i - start] == s@[i as int]);
            assert(!is_digit(d[i - start]));
            return None;
        }
        let dv = (c as u32 - '0' as u32) as u64;
        proof {
            assert(d.take(i + 1 - start).drop_last() =~= d.take(i - start));
            assert(d.take(i + 1 - start).last() == c);
        }
        if !overflow {
            if acc > (max - dv) / 10 {
                overflow = true;
                proof {
                    assert(acc * 10 + dv > max) by (nonlinear_arith)
                        requires
                            acc > (max - dv) / 10,
                            dv <= 9,
                            max >= 9,
                    ;
                }
            } else {
                proof {
                    assert(acc * 10 + dv <= max) by (nonlinear_arith)
                        requires
                            acc <= (max - dv) / 10,
                            dv <= 9,
                    ;
                }
                acc = acc * 10 + dv;
            }
        } else {
            proof {
                assert(digits_value(d.take(i + 1 - start)) >= digits_value(d.take(i - start)));
            }
        }
        i = i + 1;
    }
    proof {
        assert(d.take(i - start) =~= d);
        assert(all_digits(d)) by {
            assert forall|k: int| 0 <= k < d.len() implies is_digit(#[trigger] d[k]) by {
                assert(d[k] == s@[k + start]);
            }
        }
    }
    if overflow {
        None
    } else {
        Some(acc)
    }
}

/// `char::is_ascii_alphabetic`.
pub open spec fn is_alpha(c: char) -> bool {
    ('a' <= c && c <= 'z') || ('A' <= c && c <= 'Z')
}

pub fn is_ascii_alphabetic(c: char) -> (b: bool)
    ensures
        b == is_alpha(c),
{
    ('a' <= c && c <= 'z') || ('A' <= c && c <= 'Z')
}

/// `char::is_ascii_alphanumeric`.
pub open spec fn is_alnum(c: char) -> bool {
    is_alpha(c) || is_digit(c)
}

/// `char::to_ascii_uppercase`: ASCII lower-case letters map to upper case,
/// every other character is unchanged.
pub open spec fn upper(c: char) -> char {
    if 'a' <= c && c <= 'z' {
        ((c as u32) - 32) as char
    } else {
        c
    }
}

pub fn to_ascii_upper(c: char) -> (r: char)
    ensures
        r == upper(c),
{
    if 'a' <= c && c <= 'z' {
        let b = (c as u8) - 32;
        assert(b as char == ((c as u32) - 32) as char);
        b as char
    } else {
        c
    }
}

/// `char::to_ascii_lowercase`.
pub open spec fn lower(c: char) -> char {
    if 'A' <= c && c <= 'Z' {
        ((c as u32) + 32) as char
    } else {
        c
    }
}

pub fn to_ascii_lower(c: char) -> (r: char)
    ensures
        r == lower(c),
{
    if 'A' <= c && c <= 'Z' {
        let b = (c as u8) + 32;
        assert(b as char == ((c as u32) + 32) as char);
        b as char
    } else {
        c
    }
}

/// `str::to_ascii_lowercase` on characters.
pub open spec fn ascii_lower(s: Seq<char>) -> Seq<char> {
    s.map_values(|c: char| lower(c))
}

pub fn ascii_lower_chars(s: &Vec<char>) -> (r: Vec<char>)
    ensures
        r@ == ascii_lower(s@),
{
    let mut r: Vec<char> = Vec::new();
    let mut i: usize = 0;
    while i < s.len()
        invariant
            i <= s@.len(),
            r@ == ascii_lower(s@.take(i as int)),
        decreases s.len() - i,
    {
        r.push(to_ascii_lower(s[i]));
        i = i + 1;
        proof {
            assert(r@ =~= ascii_lower(s@.take(i as int)));
        }
    }
    assert(s@.take(s@.len() as int) =~= s@);
    r
}

/// A line without one trailing carriage return.
pub open spec fn strip_cr(l: Seq<char>) -> Seq<char> {
    if l.len() > 0 && l.last() == '\r' {
        l.drop_last()
    } else {
        l
    }
}

/// `str::lines`: the pieces between `\n` characters, each `\r\n`-terminated
/// line losing its `\r`; no empty last line after a final `\n`.
pub open spec fn lines_of(s: Seq<char>) -> Seq<Seq<char>> {
    let p = split_on(s, '\n');
    let n = p.len();
    let ended = p.take(n - 1).map_values(|l: Seq<char>| strip_cr(l));
    if p[n - 1].len() == 0 {
        ended
    } else {
        ended.push(p[n - 1])
    }
}

/// `str::lines` on a string slice.
pub fn lines(s: &str) -> (r: Vec<Vec<char>>)
    ensures
        views(r@) == lines_of(s@),
{
    let c = chars_of(s);
    let p = split_char(&c, '\n');
    let ghost pv = views(p@);
    assert(pv.len() == p@.len());
    let n = p.len();
    let mut r: Vec<Vec<char>> = Vec::new();
    let mut i: usize = 0;
    while i + 1 < n
        invariant
            n == p@.len(),
            n >= 1,
            pv == views(p@),
            pv == split_on(c@, '\n'),
            i + 1 <= n,
            views(r@) == pv.take(i as int).map_values(|l: Seq<char>| strip_cr(l)),
        decreases n - i,
    {
        let l = &p[i];
        let piece: Vec<char> = if l.len() > 0 && l[l.len() - 1] == '\r' {
            slice_chars(l, 0, l.len() - 1)
        } else {
            l.clone()
        };
        proof {
            assert(l@ == pv[i as int]);
            if l@.len() > 0 && l@.last() == '\r' {
                assert(piece@ =~= l@.drop_last());
            }
        }
        let ghost before = views(r@);
        r.push(piece);
        i = i + 1;
        proof {
            assert(views(r@) =~= before.push(piece@));
            assert(pv.take(i as int).map_values(|l: Seq<char>| strip_cr(l)) =~= pv.take(
                i - 1,
            ).map_values(|l: Seq<char>| strip_cr(l)).push(strip_cr(pv[i - 1])));
        }
    }
    let last = &p[n - 1];
    assert(last@ == pv[n - 1]);
    if last.len() > 0 {
        let ghost before = views(r@);
        r.push(last.clone());
        assert(views(r@) =~= before.push(last@));
    }
    r
}

/// The ASCII digit for `d < 10`.
pub open spec fn digit_char(d: nat) -> char {
    ((d + 48) as u32) as char
}

/// The decimal text of `n` (no leading zeros; `0` for zero), as `Display`
/// writes an unsigned integer.
pub open spec fn dec(n: nat) -> Seq<char>
    decreases n,
{
    if n < 10 {
        seq![digit_char(n)]
    } else {
        dec(n / 10).push(digit_char(n % 10))
    }
}

/// The decimal text of a number is non-empty, made of ASCII digits only,
/// and denotes the number, so different numbers have different texts.
pub proof fn lemma_dec_value(n: nat)
    ensures
        dec(n).len() > 0,
        all_digits(dec(n)),
        digits_value(dec(n)) == n,
    decreases n,
{
    if n < 10 {
        assert(dec(n) =~= seq![digit_char(n)]);
        assert(dec(n).drop_last() =~= Seq::<char>::empty());
        assert(digit_char(n) as nat == n + 48);
        assert(digits_value(dec(n)) == digits_value(dec(n).drop_last()) * 10 + (dec(n).last() as nat - '0' as nat) as nat);
    } else {
        lemma_dec_value(n / 10);
        let d = dec(n / 10);
        assert(dec(n) == d.push(digit_char(n % 10)));
        assert(dec(n).drop_last() =~= d);
        assert(digit_char(n % 10) as nat == n % 10 + 48);
        assert(digits_value(dec(n)) == digits_value(d) * 10 + (digit_char(n % 10) as nat - '0' as nat) as nat);
        assert((n / 10) * 10 + n % 10 == n);
        assert forall|i: int| 0 <= i < dec(n).len() implies is_digit(#[trigger] dec(n)[i]) by {
            if i < d.len() {
                assert(dec(n)[i] == d[i]);
            }
        }
    }
}

/// The decimal text of `n`.
pub fn dec_chars(n: u64) -> (r: Vec<char>)
    ensures
        r@ == dec(n as nat),
    decreases n,
{
    if n < 10 {
        let c = ((n as u8) + 48) as char;
        let mut r: Vec<char> = Vec::new();
        r.push(c);
        assert(r@ =~= seq![digit_char(n as nat)]);
        r
    } else {
        let mut r = dec_chars(n / 10);
        let c = (((n % 10) as u8) + 48) as char;
        r.push(c);
        r
    }
}

/// Appends the characters of `b` to `a`.
pub fn append_chars(a: &mut Vec<char>, b: &Vec<char>)
    ensures
        final(a)@ == old(a)@ + b@,
{
    let mut i: usize = 0;
    let ghost start = a@;
    while i < b.len()
        invariant
            i <= b@.len(),
            a@ == start + b@.take(i as int),
        decreases b.len() - i,
    {
        a.push(b[i]);
        i = i + 1;
        proof {
            assert(a@ =~= start + b@.take(i as int));
        }
    }
    assert(b@.take(b@.len() as int) =~= b@);
}

/// Why a signed integer could not be parsed (`std::num::IntErrorKind`).
#[derive(Debug, Clone, Copy, PartialEq, Eq)]
pub enum IntError {
    Empty,
    InvalidDigit,
    PosOverflow,
    NegOverflow,
}

/// The text `Display` writes for a `ParseIntError` of this kind.
pub open spec fn int_error_text(e: IntError) -> Seq<char> {
    match e {
        IntError::Empty => "cannot parse integer from empty string"@,
        IntError::InvalidDigit => "invalid digit found in string"@,
        IntError::PosOverflow => "number too large to fit in target type"@,
        IntError::NegOverflow => "number too small to fit in target type"@,
    }
}

/// The text of a parse error, as `Display` for `ParseIntError` writes it.
pub fn int_error_string(e: IntError) -> (r: String)
    ensures
        r@ == int_error_text(e),
{
    match e {
        IntError::Empty => owned("cannot parse integer from empty string"),
        IntError::InvalidDigit => owned("invalid digit found in string"),
        IntError::PosOverflow => owned("number too large to fit in target type"),
        IntError::NegOverflow => owned("number too small to fit in target type"),
    }
}

/// One digit step of `i32::from_str`: digits are read left to right; the
/// first non-digit, or the first step whose value leaves the range, decides
/// the error.
pub open spec fn i32_step(st: Result<int, IntError>, c: char, neg: bool) -> Result<int, IntError> {
    match st {
        Err(e) => Err(e),
        Ok(acc) => if !is_digit(c) {
            Err(IntError::InvalidDigit)
        } else if neg {
            let v = acc * 10 - digit_value(c);
            if v < i32::MIN {
                Err(IntError::NegOverflow)
            } else {
                Ok(v)
            }
        } else {
            let v = acc * 10 + digit_value(c);
            if v > i32::MAX {
                Err(IntError::PosOverflow)
            } else {
                Ok(v)
            }
        },
    }
}

/// The scan of the digits `d` (after the sign).
pub open spec fn i32_scan(d: Seq<char>, neg: bool) -> Result<int, IntError>
    decreases d.len(),
{
    if d.len() == 0 {
        Ok(0)
    } else {
        i32_step(i32_scan(d.drop_last(), neg), d.last(), neg)
    }
}

/// What `str::parse::<i32>` gives: an optional sign, then digits.
pub open spec fn parse_i32_spec(s: Seq<char>) -> Result<int, IntError> {
    if s.len() == 0 {
        Err(IntError::Empty)
    } else if s[0] == '+' || s[0] == '-' {
        if s.len() == 1 {
            Err(IntError::InvalidDigit)
        } else {
            i32_scan(s.drop_first(), s[0] == '-')
        }
    } else {
        i32_scan(s, false)
    }
}

proof fn lemma_i32_scan_bounds(d: Seq<char>, neg: bool)
    ensures
        i32_scan(d, neg) matches Ok(v) ==> i32::MIN <= v <= i32::MAX && (neg ==> v <= 0) && (!neg ==> v >= 0),
    decreases d.len(),
{
    if d.len() > 0 {
        lemma_i32_scan_bounds(d.drop_last(), neg);
    }
}

/// `str::parse::<i32>` on characters.
pub fn parse_i32_chars(s: &Vec<char>) -> (r: Result<i32, IntError>)
    ensures
        match parse_i32_spec(s@) {
            Ok(v) => r == Ok::<i32, IntError>(v as i32),
            Err(e) => r == Err::<i32, IntError>(e),
        },
{
    if s.len() == 0 {
        return Err(IntError::Empty);
    }
    let neg = s[0] == '-';
    let start: usize = if s[0] == '+' || s[0] == '-' {
        1
    } else {
        0
    };
    if start == 1 && s.len() == 1 {
        return Err(IntError::InvalidDigit);
    }
    let ghost d = s@.skip(start as int);
    proof {
        if start == 1 {
            assert(d =~= s@.drop_first());
        } else {
            assert(d =~= s@);
        }
        assert(d.take(0) =~= Seq::<char>::empty());
        assert(parse_i32_spec(s@) == i32_scan(d, neg));
    }
    let mut acc: i32 = 0;
    let mut i = start;
    while i < s.len()
        invariant
            start <= i <= s@.len(),
            d == s@.skip(start as int),
            neg == (s@[0] == '-'),
            start == 1 ==> (s@[0] == '+' || s@[0] == '-'),
            start == 0 ==> !neg,
            parse_i32_spec(s@) == i32_scan(d, neg),
            i32_scan(d.take(i - start), neg) == Ok::<int, IntError>(acc as int),
        decreases s.len() - i,
    {
        let c = s[i];
        proof {
            assert(d.take(i + 1 - start).drop_last() =~= d.take(i - start));
            assert(d.take(i + 1 - start).last() == c);
        }
        if !('0' <= c && c <= '9') {
            proof {
                assert(i32_scan(d.take(i + 1 - start), neg) == Err::<int, IntError>(IntError::InvalidDigit));
                lemma_scan_err_sticks(d, i + 1 - start, neg);
                assert(d.take(d.len() as int) =~= d);
            }
            return Err(IntError::InvalidDigit);
        }
        let dv = (c as u32 - '0' as u32) as i64;
        proof {
            lemma_i32_scan_bounds(d.take(i - start), neg);
        }
        let v: i64 = if neg {
            (acc as i64) * 10 - dv
        } else {
            (acc as i64) * 10 + dv
        };
        if v < -2147483648i64 {
            proof {
                assert(i32_scan(d.take(i + 1 - start), neg) == Err::<int, IntError>(IntError::NegOverflow));
                lemma_scan_err_sticks(d, i + 1 - start, neg);
                assert(d.take(d.len() as int) =~= d);
            }
            return Err(IntError::NegOverflow);
        }
        if v > 2147483647i64 {
            proof {
                assert(i32_scan(d.take(i + 1 - start), neg) == Err::<int, IntError>(IntError::PosOverflow));
                lemma_scan_err_sticks(d, i + 1 - start, neg);
                assert(d.take(d.len() as int) =~= d);
            }
            return Err(IntError::PosOverflow);
        }
        acc = v as i32;
        i = i + 1;
    }
    assert(d.take(i - start) =~= d);
    Ok(acc)
}

proof fn lemma_scan_err_sticks(d: Seq<char>, k: int, neg: bool)
    requires
        0 <= k <= d.len(),
        i32_scan(d.take(k), neg) is Err,
    ensures
        i32_scan(d.take(d.len() as int), neg) == i32_scan(d.take(k), neg),
    decreases d.len() - k,
{
    if k < d.len() {
        assert(d.take(k + 1).drop_last() =~= d.take(k));
        lemma_scan_err_sticks(d, k + 1, neg);
    }
}

/// The pieces of `v` joined with `sep` between neighbours (`[T]::join`).
pub open spec fn join_seq(v: Seq<Seq<char>>, sep: char) -> Seq<char>
    decreases v.len(),
{
    if v.len() == 0 {
        Seq::empty()
    } else if v.len() == 1 {
        v[0]
    } else {
        join_seq(v.drop_last(), sep) + seq![sep] + v.last()
    }
}

/// Joins the pieces of `v` with `sep`.
pub fn join_chars(v: &Vec<Vec<char>>, sep: char) -> (r: Vec<char>)
    ensures
        r@ == join_seq(views(v@), sep),
{
    let ghost vv = views(v@);
    let mut r: Vec<char> = Vec::new();
    let mut i: usize = 0;
    assert(vv.take(0) =~= Seq::<Seq<char>>::empty());
    while i < v.len()
        invariant
            i <= v@.len(),
            vv == views(v@),
            r@ == join_seq(vv.take(i as int), sep),
        decreases v.len() - i,
    {
        proof {
            assert(vv.take(i + 1).drop_last() =~= vv.take(i as int));
            assert(vv.take(i + 1).last() == v@[i as int]@);
        }
        if i > 0 {
            r.push(sep);
        } else {
            assert(vv.take(1).len() == 1);
        }
        append_chars(&mut r, &v[i]);
        i = i + 1;
        proof {
            if i == 1 {
                assert(r@ =~= vv.take(1)[0]);
            } else {
                assert(r@ =~= join_seq(vv.take(i - 1), sep) + seq![sep] + vv.take(i as int).last());
            }
        }
    }
    assert(vv.take(v@.len() as int) =~= vv);
    r
}

/// Groups of `n` consecutive pieces, each joined with `,`.
pub open spec fn comma_groups(parts: Seq<Seq<char>>, n: nat) -> Seq<Seq<char>>
    decreases parts.len(),
{
    if n == 0 || parts.len() < n {
        Seq::empty()
    } else {
        seq![join_seq(parts.take(n as int), ',')] + comma_groups(parts.skip(n as int), n)
    }
}

/// Re-groups comma-separated pieces `n` at a time: pieces inside a group are
/// joined with `,`, groups with a space.
pub fn regroup(parts: &Vec<Vec<char>>, n: usize) -> (r: Vec<char>)
    requires
        n > 0,
        parts@.len() % (n as nat) == 0,
    ensures
        r@ == join_seq(comma_groups(views(parts@), n as nat), ' '),
{
    let ghost pv = views(parts@);
    let mut groups: Vec<Vec<char>> = Vec::new();
    let mut i: usize = 0;
    proof {
        assert(pv.skip(0) =~= pv);
    }
    while i < parts.len()
        invariant
            n > 0,
            i <= parts@.len(),
            i % n == 0,
            parts@.len() % (n as nat) == 0,
            pv == views(parts@),
            views(groups@) + comma_groups(pv.skip(i as int), n as nat) == comma_groups(pv, n as nat),
        decreases parts.len() - i,
    {
        proof {
            assert(i + n <= parts@.len()) by (nonlinear_arith)
                requires
                    i % n == 0,
                    parts@.len() % (n as nat) == 0,
                    i < parts@.len(),
                    n > 0,
            ;
        }
        let mut chunk: Vec<Vec<char>> = Vec::new();
        let mut k: usize = 0;
        while k < n
            invariant
                k <= n,
                i + n <= parts.len(),
                pv == views(parts@),
                views(chunk@) == pv.subrange(i as int, i + k),
            decreases n - k,
        {
            let c = parts[i + k].clone();
            assert(c@ =~= parts@[i + k]@);
            let ghost before = views(chunk@);
            chunk.push(c);
            k = k + 1;
            proof {
                assert(views(chunk@) =~= before.push(c@));
                assert(pv[i + k - 1] == parts@[i + k - 1]@);
                assert(views(chunk@) =~= pv.subrange(i as int, i + k));
            }
        }
        let joined = join_chars(&chunk, ',');
        let ghost before = views(groups@);
        groups.push(joined);
        proof {
            let rest = pv.skip(i as int);
            assert(rest.take(n as int) =~= pv.subrange(i as int, i + n));
            assert(rest.skip(n as int) =~= pv.skip(i + n));
            assert(views(groups@) =~= before.push(joined@));
            assert(comma_groups(rest, n as nat) == seq![joined@] + comma_groups(pv.skip(i + n), n as nat));
            assert(views(groups@) + comma_groups(pv.skip(i + n), n as nat) =~= before + comma_groups(rest, n as nat));
            assert((i + n) % (n as int) == 0) by (nonlinear_arith)
                requires
                    i % n == 0,
                    n > 0,
            ;
        }
        i = i + n;
    }
    proof {
        assert(pv.skip(i as int).len() == 0);
        assert(views(groups@) =~= comma_groups(pv, n as nat));
    }
    join_chars(&groups, ' ')
}

/// `s` without its trailing copies of `c` (`trim_end_matches`).
pub open spec fn trim_end_char(s: Seq<char>, c: char) -> Seq<char>
    decreases s.len(),
{
    if s.len() > 0 && s.last() == c {
        trim_end_char(s.drop_last(), c)
    } else {
        s
    }
}

/// `s` without its trailing copies of `c`.
pub fn trim_end_char_exec(s: &Vec<char>, c: char) -> (r: Vec<char>)
    ensures
        r@ == trim_end_char(s@, c),
{
    let mut n = s.len();
    assert(s@.take(n as int) =~= s@);
    while n > 0 && s[n - 1] == c
        invariant
            n <= s@.len(),
            trim_end_char(s@, c) == trim_end_char(s@.take(n as int), c),
        decreases n,
    {
        assert(s@.take(n as int).drop_last() =~= s@.take(n - 1));
        n = n - 1;
    }
    slice_chars(s, 0, n)
}

} // verus!
