//! Decimal numerals: writing numbers as text and reading them back.
//!
//! Text is built one character at a time with `String::push`, whose effect
//! is stated here and taken on trust.

use vstd::prelude::*;

verus! {

/// `String::push` appends one character to the end of the string.
pub assume_specification[ String::push ](s: &mut String, ch: char)
    ensures
        final(s)@ == old(s)@.push(ch),
;

/// The character that stands for the decimal digit `d`.
pub open spec fn digit_char(d: nat) -> char {
    ('0' as int + d % 10) as char
}

/// Whether `c` is one of `'0'` to `'9'`.
pub open spec fn is_digit(c: char) -> bool {
    '0' <= c <= '9'
}

/// The number that the digit `c` stands for.
pub open spec fn digit_value(c: char) -> nat {
    (c as int - '0' as int) as nat
}

/// The decimal numeral of `n`, without sign or leading zeros.
pub open spec fn decimal(n: nat) -> Seq<char>
    decreases n,
{
    if n < 10 {
        seq![digit_char(n)]
    } else {
        decimal(n / 10).push(digit_char(n % 10))
    }
}

/// Whether every character of `s` is a decimal digit.
pub open spec fn all_digits(s: Seq<char>) -> bool {
    forall|i: int| 0 <= i < s.len() ==> is_digit(#[trigger] s[i])
}

/// The number that a sequence of decimal digits denotes; the empty sequence
/// denotes zero.
pub open spec fn digits_value(s: Seq<char>) -> nat
    decreases s.len(),
{
    if s.len() == 0 {
        0
    } else {
        digits_value(s.drop_last()) * 10 + digit_value(s.last())
    }
}

/// What is left of a numeral once one leading `'+'` is taken off.
pub open spec fn numeral_body(s: Seq<char>) -> Seq<char> {
    if s.len() > 0 && s[0] == '+' {
        s.skip(1)
    } else {
        s
    }
}

/// Reads `s` as an unsigned decimal numeral no greater than `max`: an
/// optional `'+'`, then one or more digits and nothing else. Any other text,
/// and any numeral above `max`, reads as `None`.
pub open spec fn parse_unsigned(s: Seq<char>, max: nat) -> Option<nat> {
    let body = numeral_body(s);
    if body.len() > 0 && all_digits(body) && digits_value(body) <= max {
        Some(digits_value(body))
    } else {
        None
    }
}

/// A decimal numeral is a non-empty run of digits that denotes the number it
/// was made from.
pub proof fn lemma_decimal_digits(n: nat)
    ensures
        decimal(n).len() > 0,
        all_digits(decimal(n)),
        digits_value(decimal(n)) == n,
    decreases n,
{
    if n < 10 {
        assert(digits_value(decimal(n).drop_last()) == 0);
    } else {
        lemma_decimal_digits(n / 10);
        assert(decimal(n).drop_last() =~= decimal(n / 10));
    }
}

/// Reading a decimal numeral gives back the number it was made from, as long
/// as that number is within the limit.
pub proof fn lemma_parse_decimal(n: nat, max: nat)
    requires
        n <= max,
    ensures
        parse_unsigned(decimal(n), max) == Some(n),
{
    lemma_decimal_digits(n);
}

/// Different numbers have different decimal numerals.
pub proof fn lemma_decimal_injective(a: nat, b: nat)
    requires
        decimal(a) == decimal(b),
    ensures
        a == b,
{
    lemma_decimal_digits(a);
    lemma_decimal_digits(b);
}

/// A run of digits denotes at least as much as any of its prefixes.
pub proof fn lemma_digits_value_prefix(s: Seq<char>, k: int)
    requires
        0 <= k <= s.len(),
    ensures
        digits_value(s.take(k)) <= digits_value(s),
    decreases s.len(),
{
    if k == s.len() {
        assert(s.take(k) =~= s);
    } else {
        assert(s.drop_last().take(k) =~= s.take(k));
        lemma_digits_value_prefix(s.drop_last(), k);
    }
}

/// Appends the decimal numeral of `n` to `out`.
pub fn push_decimal(out: &mut String, n: u128)
    ensures
        final(out)@ == old(out)@ + decimal(n as nat),
    decreases n,
{
    if n >= 10 {
        push_decimal(out, n / 10);
    }
    let d: u8 = (n % 10) as u8;
    out.push(('0' as u8 + d) as char);
}

/// Reads `s` as a decimal numeral that fits in 128 bits.
pub fn parse_u128(s: &str) -> (r: Option<u128>)
    ensures
        match r {
            Some(v) => parse_unsigned(s@, u128::MAX as nat) == Some(v as nat),
            None => parse_unsigned(s@, u128::MAX as nat) is None,
        },
{
    let mut value: u128 = 0;
    let mut signed: bool = false;
    let mut any: bool = false;
    for c in it: s.chars()
        invariant
            it.seq() == s@,
            signed ==> it.index() > 0 && s@[0] == '+',
            !signed && it.index() > 0 ==> s@[0] != '+',
            any == (it.index() > (if signed { 1int } else { 0int })),
            all_digits(s@.subrange(if signed { 1int } else { 0int }, it.index() as int)),
            value == digits_value(s@.subrange(if signed { 1int } else { 0int }, it.index() as int)),
    {
        let ghost i = it.index() as int;
        let ghost from = if signed { 1int } else { 0int };
        let ghost body = numeral_body(s@);
        if !any && !signed && c == '+' {
            signed = true;
        } else {
            assert(body[i - from] == c);
            if !('0' <= c && c <= '9') {
                return None;
            }
            let d: u128 = (c as u32 - '0' as u32) as u128;
            assert(s@.subrange(from, i + 1).drop_last() =~= s@.subrange(from, i));
            assert(body.take(i + 1 - from) =~= s@.subrange(from, i + 1));
            if value > (u128::MAX - d) / 10 {
                proof {
                    lemma_digits_value_prefix(body, i + 1 - from);
                }
                return None;
            }
            value = value * 10 + d;
            any = true;
        }
    }
    proof {
        let from = if signed { 1int } else { 0int };
        assert(numeral_body(s@) =~= s@.subrange(from, s@.len() as int));
    }
    if any {
        Some(value)
    } else {
        None
    }
}

/// Reads `s` as a decimal numeral that fits in 32 bits.
pub fn parse_u32(s: &str) -> (r: Option<u32>)
    ensures
        match r {
            Some(v) => parse_unsigned(s@, u32::MAX as nat) == Some(v as nat),
            None => parse_unsigned(s@, u32::MAX as nat) is None,
        },
{
    match parse_u128(s) {
        Some(v) => if v <= 0xffff_ffff {
            Some(v as u32)
        } else {
            None
        },
        None => None,
    }
}

} // verus!
