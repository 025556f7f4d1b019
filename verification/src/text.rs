//! Small verified helpers over `char`, `String` and `str`.
use vstd::prelude::*;
use vstd::string::*;

verus! {

/// Appends `c` to `s` through std's `String::push`, which appends the given
/// `char` to the end of the string.
#[verifier::external_body]
pub(crate) fn push_char(s: &mut String, c: char)
    ensures
        final(s)@ == old(s)@.push(c),
{
    s.push(c);
}

/// Builds a `String` holding exactly the characters of `chars`.
pub fn string_from_chars(chars: &Vec<char>) -> (res: String)
    ensures
        res@ == chars@,
{
    let mut s = String::new();
    let n = chars.len();
    for i in 0..n
        invariant
            n == chars.len(),
            s@ == chars@.take(i as int),
    {
        push_char(&mut s, chars[i]);
        assert(chars@.take((i + 1) as int) =~= chars@.take(i as int).push(chars@[i as int]));
    }
    assert(chars@.take(n as int) =~= chars@);
    s
}

/// Whether the two strings hold the same characters.
pub fn str_equals(s: &str, lit: &str) -> (res: bool)
    ensures
        res == (s@ == lit@),
{
    let n = s.unicode_len();
    let m = lit.unicode_len();
    if n != m {
        return false;
    }
    for i in 0..n
        invariant
            n == s@.len(),
            m == lit@.len(),
            n == m,
            forall|j: int| 0 <= j < i ==> s@[j] == lit@[j],
    {
        if s.get_char(i) != lit.get_char(i) {
            return false;
        }
    }
    assert(s@ =~= lit@);
    true
}

/// The characters of `s`, in order.
pub fn chars_of(s: &str) -> (res: Vec<char>)
    ensures
        res@ == s@,
{
    let n = s.unicode_len();
    let mut res: Vec<char> = Vec::new();
    for i in 0..n
        invariant
            n == s@.len(),
            res@ == s@.take(i as int),
    {
        res.push(s.get_char(i));
        assert(s@.take((i + 1) as int) =~= s@.take(i as int).push(s@[i as int]));
    }
    assert(s@.take(n as int) =~= s@);
    res
}

/// The characters of `v` from position `from` up to, not including, `to`.
pub fn sub_chars(v: &Vec<char>, from: usize, to: usize) -> (res: Vec<char>)
    requires
        from <= to <= v.len(),
    ensures
        res@ == v@.subrange(from as int, to as int),
{
    let mut res: Vec<char> = Vec::new();
    let mut i = from;
    while i < to
        invariant
            from <= i <= to <= v.len(),
            res@ == v@.subrange(from as int, i as int),
        decreases to - i,
    {
        res.push(v[i]);
        assert(v@.subrange(from as int, (i + 1) as int) =~= v@.subrange(from as int, i as int).push(v@[i as int]));
        i = i + 1;
    }
    res
}

/// Appends the characters of `src` to `dst`.
pub fn extend_chars(dst: &mut Vec<char>, src: &Vec<char>)
    ensures
        final(dst)@ == old(dst)@ + src@,
{
    let n = src.len();
    for i in 0..n
        invariant
            n == src@.len(),
            dst@ == old(dst)@ + src@.take(i as int),
    {
        dst.push(src[i]);
        assert(src@.take((i + 1) as int) =~= src@.take(i as int).push(src@[i as int]));
        assert(old(dst)@ + src@.take((i + 1) as int) =~= (old(dst)@ + src@.take(i as int)).push(src@[i as int]));
    }
    assert(src@.take(n as int) =~= src@);
}

/// Whether the characters of `chars` are exactly those of the string `lit`.
pub fn chars_equal_str(chars: &Vec<char>, lit: &str) -> (res: bool)
    ensures
        res == (chars@ == lit@),
{
    let n = lit.unicode_len();
    if chars.len() != n {
        return false;
    }
    for i in 0..n
        invariant
            n == chars@.len(),
            n == lit@.len(),
            forall|j: int| 0 <= j < i ==> chars@[j] == lit@[j],
    {
        if chars[i] != lit.get_char(i) {
            return false;
        }
    }
    assert(chars@ =~= lit@);
    true
}

/// Whether the characters of `chars` are exactly those of `lit`.
pub fn chars_equal(chars: &Vec<char>, lit: &[char]) -> (res: bool)
    ensures
        res == (chars@ == lit@),
{
    if chars.len() != lit.len() {
        return false;
    }
    let n = chars.len();
    for i in 0..n
        invariant
            n == chars@.len(),
            n == lit@.len(),
            forall|j: int| 0 <= j < i ==> chars@[j] == lit@[j],
    {
        if chars[i] != lit[i] {
            return false;
        }
    }
    assert(chars@ =~= lit@);
    true
}

/// `[0-9]`
pub open spec fn is_decimal_digit(c: char) -> bool {
    '0' <= c <= '9'
}

/// Whether every character is a decimal digit.
pub open spec fn all_decimal_digits(d: Seq<char>) -> bool {
    forall|i: int| 0 <= i < d.len() ==> is_decimal_digit(#[trigger] d[i])
}

/// The value of a decimal numeral.
pub open spec fn decimal_value(d: Seq<char>) -> nat
    decreases d.len(),
{
    if d.len() == 0 {
        0
    } else {
        decimal_value(d.drop_last()) * 10 + ((d.last() as int) - ('0' as int)) as nat
    }
}

/// The digits of an unsigned numeral: its text without one leading `+`.
pub open spec fn unsigned_digits(text: Seq<char>) -> Seq<char> {
    if text.len() > 0 && text[0] == '+' {
        text.drop_first()
    } else {
        text
    }
}

/// What std's `FromStr` for an unsigned integer type whose largest value is
/// `max` gives for `text`: the value of an optional `+` and one or more
/// decimal digits, where it is at most `max`.
pub open spec fn parse_unsigned(text: Seq<char>, max: nat) -> Option<nat> {
    let d = unsigned_digits(text);
    if d.len() > 0 && all_decimal_digits(d) && decimal_value(d) <= max {
        Some(decimal_value(d))
    } else {
        None
    }
}

proof fn lemma_decimal_value_prefix(d: Seq<char>, i: int)
    requires
        0 <= i <= d.len(),
        all_decimal_digits(d),
    ensures
        decimal_value(d.take(i)) <= decimal_value(d),
    decreases d.len() - i,
{
    if i < d.len() {
        lemma_decimal_value_prefix(d, i + 1);
        assert(d.take(i + 1).drop_last() =~= d.take(i));
        assert(is_decimal_digit(d[i]));
    } else {
        assert(d.take(i) =~= d);
    }
}

/// Parses an unsigned numeral as `FromStr` for an unsigned integer type whose
/// largest value is `max` does.
pub fn parse_unsigned_numeral(text: &str, max: u128) -> (res: Option<u128>)
    ensures
        match res {
            Some(v) => parse_unsigned(text@, max as nat) == Some(v as nat),
            None => parse_unsigned(text@, max as nat) is None,
        },
{
    let n = text.unicode_len();
    let mut start: usize = 0;
    if n > 0 && text.get_char(0) == '+' {
        start = 1;
    }
    let ghost d = unsigned_digits(text@);
    assert(d =~= text@.subrange(start as int, n as int));
    if start >= n {
        return None;
    }
    let mut value: u128 = 0;
    let mut i = start;
    while i < n
        invariant
            start <= i <= n,
            n == text@.len(),
            d =~= text@.subrange(start as int, n as int),
            d == unsigned_digits(text@),
            value <= max,
            all_decimal_digits(d.take(i - start)),
            value == decimal_value(d.take(i - start)),
        decreases n - i,
    {
        let c = text.get_char(i);
        if !('0' <= c && c <= '9') {
            assert(!is_decimal_digit(d[i - start]));
            return None;
        }
        let digit: u128 = (c as u32 - '0' as u32) as u128;
        let ghost k = i - start;
        assert(d.take(k + 1).drop_last() =~= d.take(k));
        assert(d.take(k + 1).last() == c);
        assert(all_decimal_digits(d.take(k + 1)));
        let next = match value.checked_mul(10) {
            Some(m) => match m.checked_add(digit) {
                Some(v) => v,
                None => {
                    proof {
                        lemma_parse_exceeds(d, k + 1, max as nat);
                    }
                    return None;
                },
            },
            None => {
                proof {
                    lemma_parse_exceeds(d, k + 1, max as nat);
                }
                return None;
            },
        };
        if next > max {
            proof {
                lemma_parse_exceeds(d, k + 1, max as nat);
            }
            return None;
        }
        value = next;
        i = i + 1;
    }
    assert(d.take(n - start) =~= d);
    Some(value)
}

/// Where a prefix of the digits already exceeds `max`, so does the numeral.
proof fn lemma_parse_exceeds(d: Seq<char>, k: int, max: nat)
    requires
        0 < k <= d.len(),
        all_decimal_digits(d.take(k)),
        decimal_value(d.take(k)) > max,
    ensures
        !(d.len() > 0 && all_decimal_digits(d) && decimal_value(d) <= max),
{
    if all_decimal_digits(d) {
        lemma_decimal_value_prefix(d, k);
    }
}

} // verus!
