//! Exact integer models of the two steps by which a byte count becomes a text
//! with a fixed number of decimals: the conversion of a `u64` to the nearest
//! `f64`, and fixed-point rounding of an exact binary fraction, ties to even.
use vstd::prelude::*;
use vstd::string::StringExecFns;
use crate::number::{decimal, digit_char, digit_text, push_decimal};

verus! {

/// The distance between neighbouring `f64` values near `n`, for `n < 2^64`:
/// 1 below 2^53, doubling with each further power of two.
pub open spec fn f64_spacing(n: nat) -> nat {
    if n < 0x20_0000_0000_0000 {
        1
    } else if n < 0x40_0000_0000_0000 {
        2
    } else if n < 0x80_0000_0000_0000 {
        4
    } else if n < 0x100_0000_0000_0000 {
        8
    } else if n < 0x200_0000_0000_0000 {
        16
    } else if n < 0x400_0000_0000_0000 {
        32
    } else if n < 0x800_0000_0000_0000 {
        64
    } else if n < 0x1000_0000_0000_0000 {
        128
    } else if n < 0x2000_0000_0000_0000 {
        256
    } else if n < 0x4000_0000_0000_0000 {
        512
    } else if n < 0x8000_0000_0000_0000 {
        1024
    } else {
        2048
    }
}

/// The value of `n as f64`: `n` rounded to the nearest multiple of the `f64`
/// spacing, a tie going to the even significand.
pub open spec fn f64_value(n: nat) -> nat {
    let s = f64_spacing(n);
    let q = n / s;
    let r = n % s;
    if 2 * r > s || (2 * r == s && q % 2 == 1) {
        (q + 1) * s
    } else {
        q * s
    }
}

/// `num * scale / den` rounded to the nearest whole number, a tie going to the
/// even one: the units of `1/scale` that fixed-point formatting of `num / den` shows.
pub open spec fn round_ratio(num: nat, den: nat, scale: nat) -> nat {
    let q = (num * scale) / den;
    let r = (num * scale) % den;
    if 2 * r > den || (2 * r == den && q % 2 == 1) {
        q + 1
    } else {
        q
    }
}

/// `units` tenths, written with one decimal (`{:.1}`).
pub open spec fn one_decimal(units: nat) -> Seq<char> {
    decimal(units / 10) + seq!['.', digit_char((units % 10) as int)]
}

/// `units` hundredths, written with two decimals (`{:.2}`).
pub open spec fn two_decimals(units: nat) -> Seq<char> {
    decimal(units / 100) + seq!['.', digit_char(((units / 10) % 10) as int), digit_char((units % 10) as int)]
}

/// The value of `n as f64`, as an integer.
pub fn f64_value_of(n: u64) -> (v: u128)
    ensures
        v == f64_value(n as nat),
        v <= 0x1_0000_0000_0000_0000 * 2048,
{
    let s: u64 = if n < 0x20_0000_0000_0000 {
        1
    } else if n < 0x40_0000_0000_0000 {
        2
    } else if n < 0x80_0000_0000_0000 {
        4
    } else if n < 0x100_0000_0000_0000 {
        8
    } else if n < 0x200_0000_0000_0000 {
        16
    } else if n < 0x400_0000_0000_0000 {
        32
    } else if n < 0x800_0000_0000_0000 {
        64
    } else if n < 0x1000_0000_0000_0000 {
        128
    } else if n < 0x2000_0000_0000_0000 {
        256
    } else if n < 0x4000_0000_0000_0000 {
        512
    } else if n < 0x8000_0000_0000_0000 {
        1024
    } else {
        2048
    };
    assert(s == f64_spacing(n as nat));
    let q = n / s;
    let r = n % s;
    let up = 2 * r > s || (2 * r == s && q % 2 == 1);
    let q2: u128 = if up {
        q as u128 + 1
    } else {
        q as u128
    };
    assert(q2 * (s as u128) <= 0x1_0000_0000_0000_0000 * 2048) by (nonlinear_arith)
        requires
            q2 <= 0x1_0000_0000_0000_0000,
            s <= 2048,
    ;
    q2 * (s as u128)
}

/// `num * scale / den` rounded to the nearest whole number, ties to even.
pub fn rounded_units(num: u128, den: u128, scale: u128) -> (u: u128)
    requires
        0 < den <= 0x4000_0000_0000_0000_0000_0000_0000_0000,
        num * scale <= 0x8000_0000_0000_0000_0000_0000_0000_0000,
    ensures
        u == round_ratio(num as nat, den as nat, scale as nat),
        u <= (num * scale) / (den as int) + 1,
{
    let x = num * scale;
    let q = x / den;
    let r = x % den;
    assert(r < den);
    if 2 * r > den || (2 * r == den && q % 2 == 1) {
        assert(q + 1 <= 0x8000_0000_0000_0000_0000_0000_0000_0001) by (nonlinear_arith)
            requires
                q == x / den,
                den > 0,
                x <= 0x8000_0000_0000_0000_0000_0000_0000_0000,
        ;
        q + 1
    } else {
        q
    }
}

/// Appends `units` tenths, written with one decimal.
pub fn push_one_decimal(out: &mut String, units: u128)
    requires
        units / 10 <= u64::MAX,
    ensures
        final(out)@ == old(out)@ + one_decimal(units as nat),
{
    push_decimal(out, (units / 10) as u64);
    out.append(".");
    out.append(digit_text((units % 10) as u64));
    proof {
        reveal_strlit(".");
    }
    assert(final(out)@ =~= old(out)@ + one_decimal(units as nat));
}

/// Appends `units` hundredths, written with two decimals.
pub fn push_two_decimals(out: &mut String, units: u128)
    requires
        units / 100 <= u64::MAX,
    ensures
        final(out)@ == old(out)@ + two_decimals(units as nat),
{
    push_decimal(out, (units / 100) as u64);
    out.append(".");
    out.append(digit_text(((units / 10) % 10) as u64));
    out.append(digit_text((units % 10) as u64));
    proof {
        reveal_strlit(".");
    }
    assert(final(out)@ =~= old(out)@ + two_decimals(units as nat));
}

} // verus!
