//! Decimal numbers in text.
use vstd::prelude::*;

use crate::text::{chars_of, digit, is_digit};

verus! {

/// The digit for a number below ten.
pub open spec fn digit_char(d: nat) -> char {
    (48 + d) as char
}

/// A natural number in decimal.
pub open spec fn decimal(n: nat) -> Seq<char>
    decreases n,
{
    if n < 10 {
        seq![digit_char(n)]
    } else {
        decimal(n / 10).push(digit_char(n % 10))
    }
}

/// An integer in decimal, with a minus sign where it is negative.
pub open spec fn int_decimal(i: int) -> Seq<char> {
    if i < 0 {
        "-"@ + decimal((-i) as nat)
    } else {
        decimal(i as nat)
    }
}

/// Appends `n` in decimal.
pub fn push_decimal(out: &mut String, n: u128)
    ensures
        final(out)@ == old(out)@ + decimal(n as nat),
    decreases n,
{
    if n >= 10 {
        push_decimal(out, n / 10);
    }
    let ghost mid = out@;
    let d: u8 = (n % 10) as u8;
    out.push((48 + d) as char);
    proof {
        if n >= 10 {
            assert(out@ =~= old(out)@ + decimal((n / 10) as nat).push(digit_char((n % 10) as nat)));
        } else {
            assert(out@ =~= old(out)@ + seq![digit_char(n as nat)]);
        }
    }
}

/// `n` in decimal.
pub fn decimal_string(n: u128) -> (r: String)
    ensures
        r@ == decimal(n as nat),
{
    broadcast use crate::text::group_text;

    let mut out = String::new();
    push_decimal(&mut out, n);
    out
}

/// The magnitude of a signed number.
pub open spec fn magnitude(i: int) -> nat {
    if i < 0 {
        (-i) as nat
    } else {
        i as nat
    }
}

pub fn magnitude_of(i: i64) -> (r: u128)
    ensures
        r == magnitude(i as int),
{
    if i < 0 {
        (-(i as i128)) as u128
    } else {
        i as u128
    }
}

/// `i` in decimal.
pub fn int_string(i: i64) -> (r: String)
    ensures
        r@ == int_decimal(i as int),
{
    broadcast use crate::text::group_text;

    let mut out = String::new();
    if i < 0 {
        out.push_str("-");
    }
    push_decimal(&mut out, magnitude_of(i));
    out
}

/// The value of a sequence of decimal digits.
pub open spec fn digits_value(s: Seq<char>) -> nat
    decreases s.len(),
{
    if s.len() == 0 {
        0
    } else {
        digits_value(s.drop_last()) * 10 + ((s.last() as nat) - 48) as nat
    }
}

/// The digits of an unsigned number: what follows an optional plus sign.
pub open spec fn unsigned_digits(s: Seq<char>) -> Seq<char> {
    if s.len() > 0 && s[0] == '+' {
        s.drop_first()
    } else {
        s
    }
}

/// The number that `s` spells: an optional plus sign and one or more digits.
pub open spec fn parse_nat(s: Seq<char>) -> Option<nat> {
    let d = unsigned_digits(s);
    if d.len() > 0 && (forall|i: int| 0 <= i < d.len() ==> is_digit(#[trigger] d[i])) {
        Some(digits_value(d))
    } else {
        None
    }
}

/// The number that `s` spells, where it is at most `max`.
pub open spec fn parse_below(s: Seq<char>, max: nat) -> Option<nat> {
    match parse_nat(s) {
        Some(n) => if n <= max {
            Some(n)
        } else {
            None
        },
        None => None,
    }
}

proof fn digits_value_grows(s: Seq<char>, i: int)
    requires
        0 <= i <= s.len(),
        forall|k: int| 0 <= k < s.len() ==> is_digit(#[trigger] s[k]),
    ensures
        digits_value(s.take(i)) <= digits_value(s),
    decreases s.len() - i,
{
    if i < s.len() {
        digits_value_grows(s, i + 1);
        assert(s.take(i + 1).drop_last() =~= s.take(i));
    } else {
        assert(s.take(i) =~= s);
    }
}

/// Reads an unsigned number that is at most `max`.
fn parse_unsigned(s: &str, max: u128) -> (r: Option<u128>)
    requires
        max < 0x1_0000_0000_0000_0000,
    ensures
        match r {
            Some(n) => parse_below(s@, max as nat) == Some(n as nat),
            None => parse_below(s@, max as nat) is None,
        },
{
    let v = chars_of(s);
    let from: usize = if v.len() > 0 && v[0] == '+' {
        1
    } else {
        0
    };
    let ghost d = unsigned_digits(s@);
    proof {
        assert(d =~= s@.subrange(from as int, s@.len() as int));
    }
    if from == v.len() {
        return None;
    }
    let mut k: usize = from;
    while k < v.len()
        invariant
            from <= k <= v.len(),
            v@ == s@,
            d == s@.subrange(from as int, s@.len() as int),
            forall|i: int| 0 <= i < k - from ==> is_digit(#[trigger] d[i]),
            d == unsigned_digits(s@),
        decreases v.len() - k,
    {
        if !digit(v[k]) {
            proof {
                assert(!is_digit(d[k - from]));
            }
            return None;
        }
        k = k + 1;
    }
    let mut n: u128 = 0;
    let mut i: usize = from;
    proof {
        assert(d.take(0) =~= Seq::<char>::empty());
    }
    while i < v.len()
        invariant
            from <= i <= v.len(),
            v@ == s@,
            d == s@.subrange(from as int, s@.len() as int),
            d == unsigned_digits(s@),
            d.len() > 0,
            forall|k: int| 0 <= k < d.len() ==> is_digit(#[trigger] d[k]),
            n == digits_value(d.take(i - from)),
            n <= max,
            max < 0x1_0000_0000_0000_0000,
        decreases v.len() - i,
    {
        proof {
            assert(is_digit(d[i - from]));
            assert(d.take(i - from + 1).drop_last() =~= d.take(i - from));
        }
        let c = v[i];
        let x: u128 = (c as u32 - 48) as u128;
        n = n * 10 + x;
        if n > max {
            proof {
                digits_value_grows(d, i - from + 1);
            }
            return None;
        }
        i = i + 1;
    }
    proof {
        assert(d.take(d.len() as int) =~= d);
    }
    Some(n)
}

/// Reads a `u128`.
pub fn parse_u128(s: &str) -> (r: Option<u128>)
    ensures
        match r {
            Some(n) => parse_below(s@, u128::MAX as nat) == Some(n as nat),
            None => parse_below(s@, u128::MAX as nat) is None,
        },
{
    let v = chars_of(s);
    let from: usize = if v.len() > 0 && v[0] == '+' {
        1
    } else {
        0
    };
    let ghost d = unsigned_digits(s@);
    proof {
        assert(d =~= s@.subrange(from as int, s@.len() as int));
    }
    if from == v.len() {
        return None;
    }
    let mut k: usize = from;
    while k < v.len()
        invariant
            from <= k <= v.len(),
            v@ == s@,
            d == s@.subrange(from as int, s@.len() as int),
            forall|i: int| 0 <= i < k - from ==> is_digit(#[trigger] d[i]),
            d == unsigned_digits(s@),
        decreases v.len() - k,
    {
        if !digit(v[k]) {
            proof {
                assert(!is_digit(d[k - from]));
            }
            return None;
        }
        k = k + 1;
    }
    let mut n: u128 = 0;
    let mut i: usize = from;
    proof {
        assert(d.take(0) =~= Seq::<char>::empty());
    }
    while i < v.len()
        invariant
            from <= i <= v.len(),
            v@ == s@,
            d == s@.subrange(from as int, s@.len() as int),
            d == unsigned_digits(s@),
            d.len() > 0,
            forall|k: int| 0 <= k < d.len() ==> is_digit(#[trigger] d[k]),
            n == digits_value(d.take(i - from)),
        decreases v.len() - i,
    {
        proof {
            assert(is_digit(d[i - from]));
            assert(d.take(i - from + 1).drop_last() =~= d.take(i - from));
        }
        let c = v[i];
        let x: u128 = (c as u32 - 48) as u128;
        if n > (u128::MAX - x) / 10 {
            proof {
                digits_value_grows(d, i - from + 1);
                assert(n * 10 + x > u128::MAX);
            }
            return None;
        }
        n = n * 10 + x;
        i = i + 1;
    }
    proof {
        assert(d.take(d.len() as int) =~= d);
    }
    Some(n)
}

/// Reads a `usize`.
pub fn parse_usize(s: &str) -> (r: Option<usize>)
    ensures
        match r {
            Some(n) => parse_below(s@, usize::MAX as nat) == Some(n as nat),
            None => parse_below(s@, usize::MAX as nat) is None,
        },
{
    match parse_unsigned(s, usize::MAX as u128) {
        Some(n) => Some(n as usize),
        None => None,
    }
}

/// Reads a `u8`.
pub fn parse_u8(s: &str) -> (r: Option<u8>)
    ensures
        match r {
            Some(n) => parse_below(s@, 255) == Some(n as nat),
            None => parse_below(s@, 255) is None,
        },
{
    match parse_unsigned(s, 255) {
        Some(n) => Some(n as u8),
        None => None,
    }
}

} // verus!
