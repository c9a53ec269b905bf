//! Unsigned decimal numbers as byte strings.

use vstd::prelude::*;

verus! {

pub const ZERO: u8 = 48;

pub const NINE: u8 = 57;

pub const PLUS: u8 = 43;

/// Whether `b` is one of the digits `0` to `9`.
pub open spec fn is_digit(b: u8) -> bool {
    48 <= b <= 57
}

/// Whether `s` holds digits only.
pub open spec fn all_digits(s: Seq<u8>) -> bool {
    forall|i: int| 0 <= i < s.len() ==> is_digit(#[trigger] s[i])
}

/// The number that the digits of `s` write in base ten.
pub open spec fn digits_value(s: Seq<u8>) -> nat
    decreases s.len(),
{
    if s.len() == 0 {
        0
    } else {
        (digits_value(s.drop_last()) * 10 + (s.last() - 48)) as nat
    }
}

/// The digits of `n` in base ten, without leading zeros; `0` is written `0`.
pub open spec fn digits_of(n: nat) -> Seq<u8>
    decreases n,
{
    if n < 10 {
        seq![(48 + n) as u8]
    } else {
        digits_of(n / 10).push((48 + n % 10) as u8)
    }
}

/// What a run of digits reads as: its value, where there is at least one
/// digit, nothing but digits, and `usize` can hold the value.
pub open spec fn number_of_digits(d: Seq<u8>) -> Option<usize> {
    if d.len() > 0 && all_digits(d) && digits_value(d) <= usize::MAX {
        Some(digits_value(d) as usize)
    } else {
        None
    }
}

/// What `s` reads as: an optional `+`, then a run of digits.
pub open spec fn parse_number(s: Seq<u8>) -> Option<usize> {
    if s.len() > 0 && s[0] == 43 {
        number_of_digits(s.subrange(1, s.len() as int))
    } else {
        number_of_digits(s)
    }
}

/// A longer run of digits writes no smaller number than its own beginning.
pub proof fn lemma_value_grows(s: Seq<u8>, i: int)
    requires
        all_digits(s),
        0 <= i <= s.len(),
    ensures
        digits_value(s.subrange(0, i)) <= digits_value(s),
    decreases s.len(),
{
    if i == s.len() {
        assert(s.subrange(0, i) =~= s);
    } else {
        let t = s.drop_last();
        assert(t.subrange(0, i) =~= s.subrange(0, i));
        lemma_value_grows(t, i);
    }
}

/// The digits written for `n` are digits, and they write `n`.
pub proof fn lemma_digits_of(n: nat)
    ensures
        digits_of(n).len() > 0,
        all_digits(digits_of(n)),
        digits_value(digits_of(n)) == n,
    decreases n,
{
    if n < 10 {
        let s = digits_of(n);
        assert(digits_value(s.drop_last()) == 0);
    } else {
        lemma_digits_of(n / 10);
        let t = digits_of(n / 10);
        let s = digits_of(n);
        assert(s.drop_last() =~= t);
    }
}

/// Reads a decimal number.
pub fn parse_usize(s: &[u8]) -> (r: Option<usize>)
    ensures
        r == parse_number(s@),
{
    let start: usize = if s.len() > 0 && s[0] == PLUS {
        1
    } else {
        0
    };
    let ghost d = s@.subrange(start as int, s@.len() as int);
    assert(start == 0 ==> d =~= s@);
    if start == s.len() {
        return None;
    }
    let mut acc: usize = 0;
    let mut i: usize = start;
    while i < s.len()
        invariant
            start <= i <= s@.len(),
            d == s@.subrange(start as int, s@.len() as int),
            parse_number(s@) == number_of_digits(d),
            all_digits(d.subrange(0, i - start)),
            acc == digits_value(d.subrange(0, i - start)),
        decreases s@.len() - i,
    {
        let b: u8 = s[i];
        if b < ZERO || b > NINE {
            assert(!is_digit(d[i - start]));
            return None;
        }
        let ghost next = d.subrange(0, i + 1 - start);
        proof {
            assert(next.drop_last() =~= d.subrange(0, i - start));
            assert forall|j: int| 0 <= j < next.len() implies is_digit(#[trigger] next[j]) by {}
        }
        let digit: usize = (b - ZERO) as usize;
        if acc > (usize::MAX - digit) / 10 {
            proof {
                assert(acc * 10 + digit > usize::MAX) by (nonlinear_arith)
                    requires
                        acc > (usize::MAX - digit) / 10,
                        0 <= digit <= 9,
                ;
                if all_digits(d) {
                    lemma_value_grows(d, i + 1 - start);
                }
            }
            return None;
        }
        assert(acc * 10 + digit <= usize::MAX) by (nonlinear_arith)
            requires
                acc <= (usize::MAX - digit) / 10,
                0 <= digit <= 9,
        ;
        acc = acc * 10 + digit;
        i += 1;
    }
    assert(d.subrange(0, i - start) =~= d);
    Some(acc)
}

/// Writes `n` in base ten.
pub fn format_usize(n: usize) -> (r: Vec<u8>)
    ensures
        r@ == digits_of(n as nat),
{
    let mut rev: Vec<u8> = Vec::new();
    let mut m: usize = n;
    while m >= 10
        invariant
            digits_of(n as nat) == digits_of(m as nat) + rev@.reverse(),
        decreases m,
    {
        rev.push(ZERO + (m % 10) as u8);
        m = m / 10;
    }
    rev.push(ZERO + m as u8);
    let mut r: Vec<u8> = Vec::new();
    let mut i: usize = rev.len();
    while i > 0
        invariant
            0 <= i <= rev@.len(),
            r@ == rev@.reverse().subrange(0, rev@.len() - i),
        decreases i,
    {
        i -= 1;
        r.push(rev[i]);
    }
    r
}

} // verus!
