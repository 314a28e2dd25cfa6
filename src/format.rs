//! Decimal rendering of integers and fixed-point amounts.

use vstd::prelude::*;

use crate::amount::{lemma_pow10_positive, lemma_pow10_values, pow10, pow10_int};
use crate::text::push_char;

verus! {

pub open spec fn digit_char(d: int) -> char {
    if d == 0 {
        '0'
    } else if d == 1 {
        '1'
    } else if d == 2 {
        '2'
    } else if d == 3 {
        '3'
    } else if d == 4 {
        '4'
    } else if d == 5 {
        '5'
    } else if d == 6 {
        '6'
    } else if d == 7 {
        '7'
    } else if d == 8 {
        '8'
    } else {
        '9'
    }
}

/// The decimal digits of `n`, without leading zeros.
pub open spec fn nat_text(n: nat) -> Seq<char>
    decreases n,
{
    if n < 10 {
        seq![digit_char(n as int)]
    } else {
        nat_text(n / 10).push(digit_char((n % 10) as int))
    }
}

/// `n` in decimal, with a leading `-` when negative.
pub open spec fn int_text(n: int) -> Seq<char> {
    if n < 0 {
        seq!['-'] + nat_text((-n) as nat)
    } else {
        nat_text(n as nat)
    }
}

/// The last `width` decimal digits of `n`, with leading zeros.
pub open spec fn padded_text(n: nat, width: nat) -> Seq<char>
    decreases width,
{
    if width == 0 {
        Seq::empty()
    } else {
        padded_text(n / 10, (width - 1) as nat).push(digit_char((n % 10) as int))
    }
}

pub open spec fn abs_int(v: int) -> int {
    if v < 0 {
        -v
    } else {
        v
    }
}

/// The amount `v` (in units of 10^-8) with `places` decimals, rounded half
/// away from zero, signed when `v` is negative.
pub open spec fn fixed_text(v: int, places: nat) -> Seq<char> {
    let unit = pow10((8 - places) as nat);
    let q = ((abs_int(v) + unit / 2) / unit) as nat;
    let sign = if v < 0 {
        seq!['-']
    } else {
        Seq::<char>::empty()
    };
    sign + nat_text(q / (pow10(places) as nat)) + seq!['.'] + padded_text(
        q % (pow10(places) as nat),
        places,
    )
}

fn digit_char_of(d: u64) -> (r: char)
    requires
        d < 10,
    ensures
        r == digit_char(d as int),
{
    if d == 0 {
        '0'
    } else if d == 1 {
        '1'
    } else if d == 2 {
        '2'
    } else if d == 3 {
        '3'
    } else if d == 4 {
        '4'
    } else if d == 5 {
        '5'
    } else if d == 6 {
        '6'
    } else if d == 7 {
        '7'
    } else if d == 8 {
        '8'
    } else {
        '9'
    }
}

/// Appends the decimal digits of `n`.
pub fn push_nat(s: &mut String, n: u64)
    ensures
        final(s)@ == old(s)@ + nat_text(n as nat),
    decreases n,
{
    if n >= 10 {
        push_nat(s, n / 10);
    }
    push_char(s, digit_char_of(n % 10));
    assert(final(s)@ =~= old(s)@ + nat_text(n as nat));
}

/// Appends the last `width` digits of `n`, zero-padded.
pub fn push_padded(s: &mut String, n: u64, width: u32)
    ensures
        final(s)@ == old(s)@ + padded_text(n as nat, width as nat),
    decreases width,
{
    if width == 0 {
        assert(final(s)@ =~= old(s)@ + padded_text(n as nat, width as nat));
        return;
    }
    push_padded(s, n / 10, width - 1);
    push_char(s, digit_char_of(n % 10));
    assert(final(s)@ =~= old(s)@ + padded_text(n as nat, width as nat));
}

/// Appends `n` in decimal.
pub fn push_int(s: &mut String, n: i64)
    ensures
        final(s)@ == old(s)@ + int_text(n as int),
{
    if n < 0 {
        push_char(s, '-');
        push_nat(s, (-(n as i128)) as u64);
        assert(final(s)@ =~= old(s)@ + int_text(n as int));
    } else {
        push_nat(s, n as u64);
    }
}

/// Appends the amount `v` with `places` decimals (see `fixed_text`).
pub fn push_fixed(s: &mut String, v: i64, places: u32)
    requires
        1 <= places <= 8,
    ensures
        final(s)@ == old(s)@ + fixed_text(v as int, places as nat),
{
    let m: u64 = if v < 0 {
        (-(v as i128)) as u64
    } else {
        v as u64
    };
    let unit = pow10_int((8 - places) as usize) as u64;
    let full = pow10_int(places as usize) as u64;
    proof {
        lemma_pow10_positive((8 - places) as nat);
        lemma_pow10_positive(places as nat);
        crate::amount::lemma_pow10_monotone((8 - places) as nat, 8);
        lemma_pow10_values();
    }
    let q = (m + unit / 2) / unit;
    if v < 0 {
        push_char(s, '-');
    }
    push_nat(s, q / full);
    push_char(s, '.');
    push_padded(s, q % full, places);
    assert(final(s)@ =~= old(s)@ + fixed_text(v as int, places as nat));
}

} // verus!
