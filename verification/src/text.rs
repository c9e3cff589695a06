//! Character-level scanning: white space, trimming, tokens and decimal digits.
//!
//! The specifications are recursive functions on `Seq<char>`; the executable
//! functions walk a `&[char]` and are proved to agree with them.

use vstd::prelude::*;
use vstd::slice::slice_subrange;

verus! {

/// Whether `c` is white space: the code points with the Unicode property
/// `White_Space`, which is what `char::is_whitespace` tests.
pub open spec fn spec_is_whitespace(c: char) -> bool {
    let n = c as u32;
    ||| 0x09 <= n <= 0x0d
    ||| n == 0x20
    ||| n == 0x85
    ||| n == 0xa0
    ||| n == 0x1680
    ||| 0x2000 <= n <= 0x200a
    ||| n == 0x2028
    ||| n == 0x2029
    ||| n == 0x202f
    ||| n == 0x205f
    ||| n == 0x3000
}

/// Whether `c` is one of the ten ASCII decimal digits.
pub open spec fn spec_is_digit(c: char) -> bool {
    0x30 <= c as u32 <= 0x39
}

/// The number that the decimal digit `c` stands for.
pub open spec fn digit_of(c: char) -> nat {
    (c as u32 - 0x30) as nat
}

/// Whether every character of `s` is a decimal digit.
pub open spec fn all_digits(s: Seq<char>) -> bool {
    forall|i: int| 0 <= i < s.len() ==> spec_is_digit(#[trigger] s[i])
}

/// The number that the digit string `s` writes in base ten; 0 for the empty string.
pub open spec fn digits_value(s: Seq<char>) -> nat
    decreases s.len(),
{
    if s.len() == 0 {
        0
    } else {
        digits_value(s.drop_last()) * 10 + digit_of(s.last())
    }
}

/// `s` without its leading white space.
pub open spec fn trim_start(s: Seq<char>) -> Seq<char>
    decreases s.len(),
{
    if s.len() > 0 && spec_is_whitespace(s[0]) {
        trim_start(s.drop_first())
    } else {
        s
    }
}

/// `s` without its trailing white space.
pub open spec fn trim_end(s: Seq<char>) -> Seq<char>
    decreases s.len(),
{
    if s.len() > 0 && spec_is_whitespace(s.last()) {
        trim_end(s.drop_last())
    } else {
        s
    }
}

/// `s` without leading and trailing white space.
pub open spec fn trim(s: Seq<char>) -> Seq<char> {
    trim_end(trim_start(s))
}

/// The length of the longest prefix of `s` that holds no white space.
pub open spec fn token_len(s: Seq<char>) -> nat
    decreases s.len(),
{
    if s.len() > 0 && !spec_is_whitespace(s[0]) {
        1 + token_len(s.drop_first())
    } else {
        0
    }
}

/// The index of the first occurrence of `c` in `s`, or `s.len()` if there is none.
pub open spec fn index_of(s: Seq<char>, c: char) -> nat
    decreases s.len(),
{
    if s.len() > 0 && s[0] != c {
        1 + index_of(s.drop_first(), c)
    } else {
        0
    }
}

/// Appending digits never lowers the value: a prefix of a digit string
/// writes a number that is at most the whole string's.
pub proof fn lemma_digits_value_prefix(s: Seq<char>, n: int)
    requires
        0 <= n <= s.len(),
    ensures
        digits_value(s.take(n)) <= digits_value(s),
    decreases s.len() - n,
{
    if n == s.len() {
        assert(s.take(n) =~= s);
    } else {
        lemma_digits_value_prefix(s, n + 1);
        assert(s.take(n + 1).drop_last() =~= s.take(n));
    }
}

/// Tests a character for white space.
#[verifier::when_used_as_spec(spec_is_whitespace)]
pub fn is_whitespace(c: char) -> (b: bool)
    ensures
        b == spec_is_whitespace(c),
{
    let n: u32 = c as u32;
    (0x09 <= n && n <= 0x0d) || n == 0x20 || n == 0x85 || n == 0xa0 || n == 0x1680 || (0x2000 <= n
        && n <= 0x200a) || n == 0x2028 || n == 0x2029 || n == 0x202f || n == 0x205f || n == 0x3000
}

/// Tests a character for a decimal digit.
#[verifier::when_used_as_spec(spec_is_digit)]
pub fn is_digit(c: char) -> (b: bool)
    ensures
        b == spec_is_digit(c),
{
    let n: u32 = c as u32;
    0x30 <= n && n <= 0x39
}

/// Collects the characters of `s` into a vector.
pub fn chars_of(s: &str) -> (v: Vec<char>)
    ensures
        v@ == s@,
{
    broadcast use vstd::string::axiom_spec_iter;

    let mut v: Vec<char> = Vec::new();
    for c in it: s.chars()
        invariant
            it.seq() == s@,
            v@ == it.seq().take(it.index()),
    {
        v.push(c);
    }
    v
}

/// The first index at or after `from` that holds no white space, or the
/// length of `s` if only white space is left.
pub(crate) fn skip_whitespace(s: &[char], from: usize) -> (at: usize)
    requires
        from <= s@.len(),
    ensures
        from <= at <= s@.len(),
        s@.skip(at as int) == trim_start(s@.skip(from as int)),
{
    let mut at: usize = from;
    while at < s.len() && is_whitespace(s[at])
        invariant
            from <= at <= s@.len(),
            trim_start(s@.skip(at as int)) == trim_start(s@.skip(from as int)),
        decreases s@.len() - at,
    {
        assert(s@.skip(at as int).drop_first() =~= s@.skip(at + 1));
        at += 1;
    }
    at
}

/// The end of the token that starts at `from`: the first index at or after
/// `from` that holds white space, or the length of `s`.
pub(crate) fn token_end(s: &[char], from: usize) -> (at: usize)
    requires
        from <= s@.len(),
    ensures
        from <= at <= s@.len(),
        at - from == token_len(s@.skip(from as int)),
{
    let mut at: usize = from;
    while at < s.len() && !is_whitespace(s[at])
        invariant
            from <= at <= s@.len(),
            token_len(s@.skip(from as int)) == (at - from) + token_len(s@.skip(at as int)),
        decreases s@.len() - at,
    {
        assert(s@.skip(at as int).drop_first() =~= s@.skip(at + 1));
        at += 1;
    }
    at
}

/// The first index at or after `from` that holds `c`, or the length of `s`.
pub(crate) fn find_char(s: &[char], from: usize, c: char) -> (at: usize)
    requires
        from <= s@.len(),
    ensures
        from <= at <= s@.len(),
        at - from == index_of(s@.skip(from as int), c),
{
    let mut at: usize = from;
    while at < s.len() && s[at] != c
        invariant
            from <= at <= s@.len(),
            index_of(s@.skip(from as int), c) == (at - from) + index_of(s@.skip(at as int), c),
        decreases s@.len() - at,
    {
        assert(s@.skip(at as int).drop_first() =~= s@.skip(at + 1));
        at += 1;
    }
    at
}

/// The bounds of `s` without the white space at its two ends.
pub fn trim_bounds(s: &[char]) -> (bounds: (usize, usize))
    ensures
        bounds.0 <= bounds.1 <= s@.len(),
        s@.subrange(bounds.0 as int, bounds.1 as int) == trim(s@),
{
    let lo: usize = skip_whitespace(s, 0);
    let mut hi: usize = s.len();
    proof {
        assert(s@.skip(0) =~= s@);
        assert(s@.subrange(lo as int, hi as int) =~= s@.skip(lo as int));
    }
    while hi > lo && is_whitespace(s[hi - 1])
        invariant
            lo <= hi <= s@.len(),
            trim_end(s@.subrange(lo as int, hi as int)) == trim(s@),
        decreases hi,
    {
        assert(s@.subrange(lo as int, hi as int).drop_last() =~= s@.subrange(lo as int, hi - 1));
        hi -= 1;
    }
    (lo, hi)
}

/// Whether `s` and the string `text` hold the same characters.
pub fn equals_str(s: &[char], text: &str) -> (b: bool)
    ensures
        b == (s@ == text@),
{
    let t = chars_of(text);
    if s.len() != t.len() {
        return false;
    }
    let mut i: usize = 0;
    while i < s.len()
        invariant
            i <= s@.len(),
            t@ == text@,
            s@.len() == t@.len(),
            s@.take(i as int) == t@.take(i as int),
        decreases s@.len() - i,
    {
        if s[i] != t[i] {
            assert(s@[i as int] != text@[i as int]);
            return false;
        }
        assert(s@.take(i + 1) =~= s@.take(i as int).push(s@[i as int]));
        assert(t@.take(i + 1) =~= t@.take(i as int).push(t@[i as int]));
        i += 1;
    }
    proof {
        assert(s@.take(i as int) =~= s@);
        assert(t@.take(i as int) =~= t@);
    }
    true
}

/// Whether `s` begins with the characters of the string `text`.
pub fn starts_with_str(s: &[char], text: &str) -> (b: bool)
    ensures
        b == text@.is_prefix_of(s@),
{
    let n = text.unicode_len();
    if s.len() < n {
        return false;
    }
    let head = slice_subrange(s, 0, n);
    let b = equals_str(head, text);
    proof {
        assert(s@.subrange(0, n as int) =~= s@.take(n as int));
        if text@.is_prefix_of(s@) {
            assert(s@.take(n as int) =~= text@);
        }
    }
    b
}

/// Whether `s` holds decimal digits only.
pub fn is_all_digits(s: &[char]) -> (b: bool)
    ensures
        b == all_digits(s@),
{
    let mut i: usize = 0;
    while i < s.len()
        invariant
            i <= s@.len(),
            forall|j: int| 0 <= j < i ==> spec_is_digit(#[trigger] s@[j]),
        decreases s@.len() - i,
    {
        if !is_digit(s[i]) {
            return false;
        }
        i += 1;
    }
    true
}

/// Reads the digit string `s` as the continuation of a number read so far:
/// `acc` is the value of the digits `before`. Gives the value of all the
/// digits together, if a `u64` can hold it.
pub(crate) fn extend_digits(acc: u64, s: &[char], Ghost(before): Ghost<Seq<char>>) -> (value: Option<u64>)
    requires
        all_digits(s@),
        acc == digits_value(before),
    ensures
        match value {
            Some(v) => v == digits_value(before + s@),
            None => digits_value(before + s@) > u64::MAX,
        },
{
    let mut acc: u64 = acc;
    let mut i: usize = 0;
    proof {
        assert(before + s@.take(0) =~= before);
    }
    while i < s.len()
        invariant
            i <= s@.len(),
            all_digits(s@),
            acc == digits_value(before + s@.take(i as int)),
        decreases s@.len() - i,
    {
        let d: u64 = (s[i] as u32 - 0x30) as u64;
        proof {
            let all = before + s@;
            let n = before.len() + i;
            assert(spec_is_digit(s@[i as int]));
            assert(all.take(n + 1) =~= before + s@.take(i + 1));
            assert(all.take(n + 1).drop_last() =~= before + s@.take(i as int));
            assert(digits_value(all.take(n + 1)) == acc * 10 + d);
            lemma_digits_value_prefix(all, n + 1);
        }
        if acc > (u64::MAX - d) / 10 {
            return None;
        }
        acc = acc * 10 + d;
        i += 1;
    }
    proof {
        assert(s@.take(i as int) =~= s@);
    }
    Some(acc)
}

/// The number that the digit string `s` writes, if a `u64` can hold it.
pub(crate) fn digits_to_u64(s: &[char]) -> (value: Option<u64>)
    requires
        all_digits(s@),
    ensures
        match value {
            Some(v) => v == digits_value(s@),
            None => digits_value(s@) > u64::MAX,
        },
{
    proof {
        assert(Seq::<char>::empty() + s@ =~= s@);
    }
    extend_digits(0, s, Ghost(Seq::empty()))
}

} // verus!
