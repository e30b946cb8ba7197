//! The way an amount of energy is written in a journal line: a sign, the
//! whole watt-hours, a point and two decimals, as in `+12.34` or `-0.50`.

use vstd::prelude::*;
use crate::text::{
    all_digits, char_to_digit, decimal_value, digit_char, digit_to_char, digit_value, digits,
    is_digit, lemma_digits_denote, push_decimal, read_decimal,
};

verus! {

/// The size of `r` without its sign.
pub open spec fn magnitude(r: int) -> nat {
    if r < 0 {
        (-r) as nat
    } else {
        r as nat
    }
}

/// The text that stands for `r` hundredths of a watt-hour.
pub open spec fn amount_text(r: int) -> Seq<char> {
    seq![if r < 0 { '-' } else { '+' }] + digits(magnitude(r) / 100) + seq![
        '.',
        digit_char(magnitude(r) % 100 / 10),
        digit_char(magnitude(r) % 10),
    ]
}

/// Whether `s` is written as an amount: a sign, at least one digit, a point
/// and exactly two digits.
pub open spec fn is_amount(s: Seq<char>) -> bool {
    &&& s.len() >= 5
    &&& (s[0] == '+' || s[0] == '-')
    &&& all_digits(s.subrange(1, s.len() - 3))
    &&& s[s.len() - 3] == '.'
    &&& is_digit(s[s.len() - 2])
    &&& is_digit(s[s.len() - 1])
}

/// The hundredths of a watt-hour that a written amount denotes.
pub open spec fn amount_value(s: Seq<char>) -> int {
    let size = decimal_value(s.subrange(1, s.len() - 3)) * 100 + digit_value(s[s.len() - 2]) * 10
        + digit_value(s[s.len() - 1]);
    if s[0] == '-' {
        -size
    } else {
        size as int
    }
}

/// What reading `s` as an amount gives: its value when `s` is written as an
/// amount and the value fits in 64 bits, nothing otherwise.
pub open spec fn parse_amount(s: Seq<char>) -> Option<int> {
    if is_amount(s) && i64::MIN <= amount_value(s) <= i64::MAX {
        Some(amount_value(s))
    } else {
        None
    }
}

/// Whether `c` can occur in a written amount.
pub open spec fn is_amount_char(c: char) -> bool {
    is_digit(c) || c == '+' || c == '-' || c == '.'
}

/// A written amount is read back as the amount it was written for, and it
/// holds nothing but a sign, digits and a point.
pub proof fn lemma_amount_round_trip(r: int)
    requires
        i64::MIN <= r <= i64::MAX,
    ensures
        parse_amount(amount_text(r)) == Some(r),
        forall|i: int| 0 <= i < amount_text(r).len() ==> is_amount_char(#[trigger] amount_text(r)[i]),
{
    let size = magnitude(r);
    let whole = digits(size / 100);
    let s = amount_text(r);
    lemma_digits_denote(size / 100);
    assert(s.len() == whole.len() + 4);
    assert(s.subrange(1, s.len() - 3) =~= whole);
    assert(s[0] == if r < 0 { '-' } else { '+' });
    assert(s[s.len() - 3] == '.');
    assert(s[s.len() - 2] == digit_char(size % 100 / 10));
    assert(s[s.len() - 1] == digit_char(size % 10));
    assert(size == (size / 100) * 100 + (size % 100 / 10) * 10 + size % 10);
    assert forall|i: int| 0 <= i < s.len() implies is_amount_char(#[trigger] s[i]) by {
        if 1 <= i < s.len() - 3 {
            assert(s[i] == whole[i - 1]);
        }
    }
}

/// Appends the text of `r` hundredths of a watt-hour to `s`.
pub fn push_amount(s: &mut String, r: i64)
    ensures
        final(s)@ == old(s)@ + amount_text(r as int),
{
    let size: u64 = if r < 0 {
        if r == i64::MIN {
            9_223_372_036_854_775_808u64
        } else {
            (-r) as u64
        }
    } else {
        r as u64
    };
    assert(size as nat == magnitude(r as int));
    s.push(if r < 0 { '-' } else { '+' });
    push_decimal(s, size / 100);
    s.push('.');
    s.push(digit_to_char((size % 100 / 10) as u8));
    s.push(digit_to_char((size % 10) as u8));
    assert(s@ =~= old(s)@ + amount_text(r as int));
}

/// Reads the characters `v[from..to]` as an amount.
pub fn read_amount(v: &Vec<char>, from: usize, to: usize) -> (r: Option<i64>)
    requires
        from <= to <= v.len(),
    ensures
        match parse_amount(v@.subrange(from as int, to as int)) {
            Some(value) => r == Some(value as i64) && r->0 as int == value,
            None => r is None,
        },
{
    let ghost s = v@.subrange(from as int, to as int);
    if to - from < 5 {
        return None;
    }
    let sign = v[from];
    if sign != '+' && sign != '-' {
        assert(s[0] == sign);
        return None;
    }
    if v[to - 3] != '.' {
        assert(s[s.len() - 3] == v@[to - 3]);
        return None;
    }
    assert(s[s.len() - 2] == v@[to - 2]);
    assert(s[s.len() - 1] == v@[to - 1]);
    assert(s[0] == sign);
    assert(s[s.len() - 3] == '.');
    assert(s.subrange(1, s.len() - 3) =~= v@.subrange(from + 1, to - 3));
    let tens = match char_to_digit(v[to - 2]) {
        Some(d) => d,
        None => {
            return None;
        },
    };
    let units = match char_to_digit(v[to - 1]) {
        Some(d) => d,
        None => {
            return None;
        },
    };
    let whole = match read_decimal(v, from + 1, to - 3) {
        Some(n) => n,
        None => {
            return None;
        },
    };
    assert(is_amount(s));
    let size: u128 = whole as u128 * 100 + tens as u128 * 10 + units as u128;
    if sign == '-' {
        if size > 9_223_372_036_854_775_808u128 {
            None
        } else if size == 9_223_372_036_854_775_808u128 {
            Some(i64::MIN)
        } else {
            Some(-(size as i64))
        }
    } else {
        if size > 9_223_372_036_854_775_807u128 {
            None
        } else {
            Some(size as i64)
        }
    }
}

} // verus!
