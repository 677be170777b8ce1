//! Operations on text: the line and token handling that the traffic observer
//! is built from, and the comparison of domain names, each with its
//! mathematical definition.

use crate::seqs::{first_where, lemma_first_where_at};
use vstd::prelude::*;
use vstd::utf8::*;

verus! {

/// The characters that are `c`.
pub open spec fn same_char(c: char) -> spec_fn(char) -> bool {
    |x: char| x == c
}

/// The index of the first `c` in `s`, or the length of `s` where it has none.
pub open spec fn first_index_of(s: Seq<char>, c: char) -> int {
    first_where(s, same_char(c))
}

/// The part of `s` before its first line feed; all of `s` where it has none.
pub open spec fn first_line(s: Seq<char>) -> Seq<char> {
    s.take(first_index_of(s, '\n'))
}

/// The parts of `s` before and after its first `c`, where it has one.
pub open spec fn split_once(s: Seq<char>, c: char) -> Option<(Seq<char>, Seq<char>)> {
    let k = first_index_of(s, c);
    if k < s.len() {
        Some((s.take(k), s.skip(k + 1)))
    } else {
        None
    }
}

/// True when `pat` stands in `s` at index `i`.
pub open spec fn occurs_at(s: Seq<char>, pat: Seq<char>, i: int) -> bool {
    0 <= i && i + pat.len() <= s.len() && s.subrange(i, i + pat.len()) == pat
}

/// True when `pat` stands somewhere in `s`.
pub open spec fn contains(s: Seq<char>, pat: Seq<char>) -> bool {
    exists|i: int| occurs_at(s, pat, i)
}

/// `s` without the occurrences of `pat`, found from the left and not overlapping.
/// An empty `pat` removes nothing.
pub open spec fn remove_all(s: Seq<char>, pat: Seq<char>) -> Seq<char>
    decreases s.len(),
{
    if pat.len() == 0 || s.len() < pat.len() {
        s
    } else if occurs_at(s, pat, 0) {
        remove_all(s.skip(pat.len() as int), pat)
    } else {
        seq![s[0]] + remove_all(s.skip(1), pat)
    }
}

/// The characters that Unicode gives the property White_Space.
pub open spec fn is_space(c: char) -> bool {
    ||| ('\u{9}' <= c && c <= '\u{d}')
    ||| c == ' '
    ||| c == '\u{85}'
    ||| c == '\u{a0}'
    ||| c == '\u{1680}'
    ||| ('\u{2000}' <= c && c <= '\u{200a}')
    ||| c == '\u{2028}'
    ||| c == '\u{2029}'
    ||| c == '\u{202f}'
    ||| c == '\u{205f}'
    ||| c == '\u{3000}'
}

/// `s` without the white space at its start.
pub open spec fn trim_start(s: Seq<char>) -> Seq<char>
    decreases s.len(),
{
    if s.len() > 0 && is_space(s[0]) {
        trim_start(s.drop_first())
    } else {
        s
    }
}

/// `s` without the white space at its end.
pub open spec fn trim_end(s: Seq<char>) -> Seq<char>
    decreases s.len(),
{
    if s.len() > 0 && is_space(s.last()) {
        trim_end(s.drop_last())
    } else {
        s
    }
}

/// `s` without the white space at its start and at its end.
pub open spec fn trim(s: Seq<char>) -> Seq<char> {
    trim_end(trim_start(s))
}

/// True for the ten decimal digits.
pub open spec fn is_digit(c: char) -> bool {
    '0' <= c && c <= '9'
}

/// The number that the digit `c` stands for.
pub open spec fn digit_value(c: char) -> int {
    c as int - '0' as int
}

/// True when `s` holds decimal digits and nothing else.
pub open spec fn all_digits(s: Seq<char>) -> bool {
    forall|i: int| 0 <= i < s.len() ==> is_digit(#[trigger] s[i])
}

/// The number that the decimal digits `s` write, leading zeros allowed.
pub open spec fn digits_value(s: Seq<char>) -> int
    decreases s.len(),
{
    if s.len() == 0 {
        0
    } else {
        digits_value(s.drop_last()) * 10 + digit_value(s.last())
    }
}

/// The 32-bit integer that `s` writes in decimal: an optional `+` or `-`, then
/// one digit or more, and a value that fits. Nothing else is a number.
pub open spec fn parse_i32(s: Seq<char>) -> Option<i32> {
    let negative = s.len() > 0 && s[0] == '-';
    let signed = s.len() > 0 && (s[0] == '-' || s[0] == '+');
    let body = if signed {
        s.drop_first()
    } else {
        s
    };
    let value = if negative {
        -digits_value(body)
    } else {
        digits_value(body)
    };
    if body.len() > 0 && all_digits(body) && i32::MIN <= value <= i32::MAX {
        Some(value as i32)
    } else {
        None
    }
}

/// Finds the first `c` in `s`; the length of `s` where there is none.
pub fn find_char(s: &[char], c: char) -> (k: usize)
    ensures
        k == first_index_of(s@, c),
        k <= s@.len(),
{
    let mut k: usize = 0;
    while k < s.len() && s[k] != c
        invariant
            k <= s@.len(),
            forall|j: int| 0 <= j < k ==> !same_char(c)(#[trigger] s@[j]),
        decreases s@.len() - k,
    {
        k += 1;
    }
    proof {
        lemma_first_where_at(s@, same_char(c), k as int);
    }
    k
}

/// Copies `s[from..to]`.
fn copy_range(s: &[char], from: usize, to: usize) -> (out: Vec<char>)
    requires
        from <= to <= s@.len(),
    ensures
        out@ == s@.subrange(from as int, to as int),
{
    let mut out: Vec<char> = Vec::new();
    let mut i: usize = from;
    while i < to
        invariant
            from <= i <= to <= s@.len(),
            out@ == s@.subrange(from as int, i as int),
        decreases to - i,
    {
        out.push(s[i]);
        i += 1;
    }
    out
}

/// The part of `s` before its first line feed.
pub fn take_line(s: &[char]) -> (line: Vec<char>)
    ensures
        line@ == first_line(s@),
{
    let k = find_char(s, '\n');
    copy_range(s, 0, k)
}

/// Splits `s` at its first `c`.
pub fn split_at_char(s: &[char], c: char) -> (r: Option<(Vec<char>, Vec<char>)>)
    ensures
        match r {
            Some((head, tail)) => split_once(s@, c) == Some((head@, tail@)),
            None => split_once(s@, c) is None,
        },
{
    let k = find_char(s, c);
    if k < s.len() {
        Some((copy_range(s, 0, k), copy_range(s, k + 1, s.len())))
    } else {
        None
    }
}

/// Tests whether `pat` stands in `s` at index `i`.
pub fn matches_at(s: &[char], pat: &[char], i: usize) -> (b: bool)
    ensures
        b == occurs_at(s@, pat@, i as int),
{
    if pat.len() > s.len() || i > s.len() - pat.len() {
        return false;
    }
    let n = s.len();
    let mut j: usize = 0;
    while j < pat.len()
        invariant
            j <= pat@.len(),
            n == s@.len(),
            i + pat@.len() <= n,
            forall|t: int| 0 <= t < j ==> s@[i + t] == pat@[t],
        decreases pat@.len() - j,
    {
        if s[i + j] != pat[j] {
            proof {
                let window = s@.subrange(i as int, i + pat@.len());
                assert(window[j as int] == s@[i + j]);
            }
            return false;
        }
        j += 1;
    }
    assert(s@.subrange(i as int, i + pat@.len()) =~= pat@);
    true
}

/// Tests whether `pat` stands somewhere in `s`.
pub fn has_token(s: &[char], pat: &[char]) -> (b: bool)
    ensures
        b == contains(s@, pat@),
{
    let n = s.len();
    let m = pat.len();
    if m == 0 {
        assert(occurs_at(s@, pat@, 0)) by {
            assert(s@.subrange(0, 0) =~= pat@);
        }
        return true;
    }
    let mut i: usize = 0;
    while i < n && n - i >= m
        invariant
            i <= n,
            n == s@.len(),
            m == pat@.len(),
            m > 0,
            forall|t: int| 0 <= t < i ==> !occurs_at(s@, pat@, t),
        decreases n - i,
    {
        if matches_at(s, pat, i) {
            return true;
        }
        i += 1;
    }
    false
}

proof fn lemma_remove_all_step(s: Seq<char>, pat: Seq<char>, i: int)
    requires
        pat.len() > 0,
        0 <= i,
        i + pat.len() <= s.len(),
    ensures
        occurs_at(s, pat, i) ==> remove_all(s.skip(i), pat) == remove_all(
            s.skip(i + pat.len()),
            pat,
        ),
        !occurs_at(s, pat, i) ==> remove_all(s.skip(i), pat) == seq![s[i]] + remove_all(
            s.skip(i + 1),
            pat,
        ),
{
    let rest = s.skip(i);
    assert(rest.subrange(0, pat.len() as int) == s.subrange(i, i + pat.len()));
    assert(rest.skip(pat.len() as int) == s.skip(i + pat.len()));
    assert(rest.skip(1) == s.skip(i + 1));
}

/// Removes the occurrences of `pat` from `s`.
pub fn strip_token(s: &[char], pat: &[char]) -> (out: Vec<char>)
    ensures
        out@ == remove_all(s@, pat@),
{
    let n = s.len();
    let m = pat.len();
    let mut out: Vec<char> = Vec::new();
    let mut i: usize = 0;
    assert(s@.skip(0) == s@);
    while m > 0 && i < n && n - i >= m
        invariant
            i <= n,
            n == s@.len(),
            m == pat@.len(),
            out@ + remove_all(s@.skip(i as int), pat@) == remove_all(s@, pat@),
        decreases n - i,
    {
        proof {
            lemma_remove_all_step(s@, pat@, i as int);
        }
        if matches_at(s, pat, i) {
            i += m;
        } else {
            proof {
                let rest = remove_all(s@.skip(i + 1), pat@);
                assert(out@.push(s@[i as int]) + rest == out@ + (seq![s@[i as int]] + rest));
            }
            out.push(s[i]);
            i += 1;
        }
    }
    // What is left is shorter than the token, or the token is empty: it stays.
    while i < n
        invariant
            i <= n,
            n == s@.len(),
            out@ + s@.skip(i as int) == remove_all(s@, pat@),
        decreases n - i,
    {
        proof {
            assert(out@.push(s@[i as int]) + s@.skip(i + 1) == out@ + s@.skip(i as int));
        }
        out.push(s[i]);
        i += 1;
    }
    assert(out@ + s@.skip(n as int) == out@);
    out
}

/// Tests for white space.
pub fn is_whitespace(c: char) -> (b: bool)
    ensures
        b == is_space(c),
{
    (c >= '\u{9}' && c <= '\u{d}') || c == ' ' || c == '\u{85}' || c == '\u{a0}' || c
        == '\u{1680}' || (c >= '\u{2000}' && c <= '\u{200a}') || c == '\u{2028}' || c
        == '\u{2029}' || c == '\u{202f}' || c == '\u{205f}' || c == '\u{3000}'
}

proof fn lemma_trim_start(s: Seq<char>, a: int)
    requires
        0 <= a <= s.len(),
        forall|j: int| 0 <= j < a ==> is_space(s[j]),
        a < s.len() ==> !is_space(s[a]),
    ensures
        trim_start(s) == s.skip(a),
    decreases a,
{
    if a > 0 {
        let rest = s.drop_first();
        assert forall|j: int| 0 <= j < a - 1 implies is_space(rest[j]) by {
            assert(rest[j] == s[j + 1]);
        }
        lemma_trim_start(rest, a - 1);
        assert(rest.skip(a - 1) == s.skip(a));
    } else {
        assert(s.skip(0) == s);
    }
}

proof fn lemma_trim_end(s: Seq<char>, b: int)
    requires
        0 <= b <= s.len(),
        forall|j: int| b <= j < s.len() ==> is_space(s[j]),
        b > 0 ==> !is_space(s[b - 1]),
    ensures
        trim_end(s) == s.take(b),
    decreases s.len() - b,
{
    if b < s.len() {
        let rest = s.drop_last();
        lemma_trim_end(rest, b);
        assert(rest.take(b) == s.take(b));
    } else {
        assert(s.take(b) == s);
    }
}

/// Removes the white space at both ends of `s`.
pub fn trimmed(s: &[char]) -> (out: Vec<char>)
    ensures
        out@ == trim(s@),
{
    let mut a: usize = 0;
    while a < s.len() && is_whitespace(s[a])
        invariant
            a <= s@.len(),
            forall|j: int| 0 <= j < a ==> is_space(s@[j]),
        decreases s@.len() - a,
    {
        a += 1;
    }
    let mut b: usize = s.len();
    while b > a && is_whitespace(s[b - 1])
        invariant
            a <= b <= s@.len(),
            forall|j: int| b <= j < s@.len() ==> is_space(s@[j]),
        decreases b,
    {
        b -= 1;
    }
    proof {
        lemma_trim_start(s@, a as int);
        let mid = s@.skip(a as int);
        assert forall|j: int| b - a <= j < mid.len() implies is_space(mid[j]) by {
            assert(mid[j] == s@[a + j]);
        }
        if b > a {
            assert(mid[b - a - 1] == s@[b - 1]);
        }
        lemma_trim_end(mid, b - a);
        assert(mid.take(b - a) == s@.subrange(a as int, b as int));
    }
    copy_range(s, a, b)
}

proof fn lemma_digits_value_bounds(s: Seq<char>)
    requires
        all_digits(s),
    ensures
        0 <= digits_value(s),
    decreases s.len(),
{
    if s.len() > 0 {
        assert(is_digit(s.last()));
        assert(all_digits(s.drop_last())) by {
            assert forall|i: int| 0 <= i < s.drop_last().len() implies is_digit(
                #[trigger] s.drop_last()[i],
            ) by {
                assert(s.drop_last()[i] == s[i]);
            }
        }
        lemma_digits_value_bounds(s.drop_last());
    }
}

proof fn lemma_digits_value_grows(s: Seq<char>, k: int)
    requires
        all_digits(s),
        0 <= k <= s.len(),
    ensures
        0 <= digits_value(s.take(k)) <= digits_value(s),
    decreases s.len() - k,
{
    if k < s.len() {
        let init = s.drop_last();
        assert(all_digits(init)) by {
            assert forall|i: int| 0 <= i < init.len() implies is_digit(#[trigger] init[i]) by {
                assert(init[i] == s[i]);
            }
        }
        lemma_digits_value_grows(init, k);
        assert(init.take(k) == s.take(k));
        lemma_digits_value_bounds(init);
        assert(is_digit(s.last()));
    } else {
        assert(s.take(k) == s);
        lemma_digits_value_bounds(s);
    }
}

/// Reads `s` as a 32-bit integer in decimal.
pub fn parse_number(s: &[char]) -> (r: Option<i32>)
    ensures
        r == parse_i32(s@),
{
    let n = s.len();
    if n == 0 {
        return None;
    }
    let negative = s[0] == '-';
    let start: usize = if s[0] == '-' || s[0] == '+' {
        1
    } else {
        0
    };
    if start == n {
        return None;
    }
    let ghost body = s@.skip(start as int);
    assert(s@.skip(1) == s@.drop_first());
    assert(s@.skip(0) == s@);
    let limit: i64 = 2147483648;
    let mut acc: i64 = 0;
    let mut i: usize = start;
    while i < n
        invariant
            start <= i <= n,
            n == s@.len(),
            n > 0,
            negative == (s@[0] == '-'),
            start == (if s@[0] == '-' || s@[0] == '+' {
                1int
            } else {
                0int
            }),
            body == (if start == 1 {
                s@.drop_first()
            } else {
                s@
            }),
            all_digits(body.take(i - start)),
            acc == digits_value(body.take(i - start)),
            0 <= acc <= limit,
            limit == 2147483648,
        decreases n - i,
    {
        let c = s[i];
        if !(c >= '0' && c <= '9') {
            proof {
                assert(body[i - start] == c);
                assert(!all_digits(body));
            }
            return None;
        }
        let d: i64 = (c as u32 - '0' as u32) as i64;
        proof {
            let next = body.take(i + 1 - start);
            assert(next.drop_last() == body.take(i - start));
            assert(next.last() == c);
            assert forall|j: int| 0 <= j < next.len() implies is_digit(#[trigger] next[j]) by {
                if j < next.len() - 1 {
                    assert(next[j] == body.take(i - start)[j]);
                }
            }
        }
        let next_acc: i64 = acc * 10 + d;
        if next_acc > limit {
            proof {
                if all_digits(body) {
                    lemma_digits_value_grows(body, i + 1 - start);
                }
            }
            return None;
        }
        acc = next_acc;
        i += 1;
    }
    assert(body.take(n - start) == body);
    if negative {
        Some((-acc) as i32)
    } else if acc == limit {
        None
    } else {
        Some(acc as i32)
    }
}

/// Tests two texts for equality.
pub fn same_text(a: &str, b: &str) -> (same: bool)
    ensures
        same == (a@ == b@),
{
    let x = a.as_bytes();
    let y = b.as_bytes();
    proof {
        encode_utf8_decode_utf8(a@);
        encode_utf8_decode_utf8(b@);
    }
    if x.len() != y.len() {
        return false;
    }
    let n = x.len();
    let mut i: usize = 0;
    while i < n
        invariant
            i <= n,
            n == x@.len(),
            n == y@.len(),
            x@ == encode_utf8(a@),
            y@ == encode_utf8(b@),
            forall|j: int| 0 <= j < i ==> x@[j] == y@[j],
        decreases n - i,
    {
        if x[i] != y[i] {
            return false;
        }
        i += 1;
    }
    assert(x@ =~= y@);
    true
}

} // verus!
