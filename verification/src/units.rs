//! Celsius, which the host speaks, and tenths of a degree Fahrenheit, which ecobee speaks.

use vstd::arithmetic::power2::lemma2_to64;
use vstd::prelude::*;

use crate::binary64::{clamp_i64, Binary64, Double, DoubleView, Real, Rounded};

verus! {

/// An integer reduced to the range of an `i64`, modulo `2^64`.
pub open spec fn wrap_i64(n: int) -> int {
    (n + 0x8000_0000_0000_0000) % 0x1_0000_0000_0000_0000 - 0x8000_0000_0000_0000
}

/// Whole degrees Fahrenheit of a Celsius number, as double arithmetic gives them.
pub open spec fn whole_fahrenheit(c: Real) -> int {
    clamp_i64(c.times(9).over(5).plus(32).round().truncated())
}

/// Tenths of a degree Fahrenheit of a Celsius number.
pub open spec fn f10_of(c: Real) -> int {
    wrap_i64(10 * whole_fahrenheit(c))
}

/// Tenths of a degree Fahrenheit of any double. An infinity is held at the end of the range of an
/// `i64` that it is past, and what is not a number counts as zero degrees.
pub open spec fn f10_of_any(c: DoubleView) -> int {
    match c {
        DoubleView::Finite(x) => f10_of(x),
        DoubleView::Infinite { negative } => wrap_i64(
            10 * (if negative {
                i64::MIN
            } else {
                i64::MAX
            }),
        ),
        DoubleView::NotANumber => 0,
    }
}

/// The Celsius number of tenths of a degree Fahrenheit, to one decimal.
pub open spec fn celsius_of(f10: int) -> Real {
    Real::from_int(f10).over(10).plus(-32).times(5).over(9).times(10).round().over(10)
}

/// The product with ten, modulo `2^64`.
fn tenfold(n: i64) -> (r: i64)
    ensures
        r == wrap_i64(10 * n),
{
    n.wrapping_mul(10)
}

/// Celsius -> ecobee's tenths-of-Fahrenheit: the nearest whole degree, times ten.
///
/// A degree count past the range of an `i64` is held at its end, and the product with ten wraps.
pub fn c_to_f10(c: &Double) -> (f10: i64)
    ensures
        f10 == f10_of_any(c@),
{
    match c {
        Double::Finite(x) => finite_c_to_f10(x),
        Double::Infinite { negative } => tenfold(
            if *negative {
                i64::MIN
            } else {
                i64::MAX
            },
        ),
        Double::NotANumber => 0,
    }
}

/// The same for a finite number, which is all that JSON can hold.
pub fn finite_c_to_f10(c: &Binary64) -> (f10: i64)
    ensures
        f10 == f10_of(c@),
{
    proof {
        lemma2_to64();
    }
    let fahrenheit = c.rounded().times(9).over(5).plus(false, 5);
    let whole: i64 = fahrenheit.round().to_i64();
    tenfold(whole)
}

/// Ecobee's tenths-of-Fahrenheit -> Celsius, to one decimal.
pub fn f10_to_c(f10: i64) -> (c: Binary64)
    ensures
        c@ == celsius_of(f10 as int),
{
    proof {
        lemma2_to64();
    }
    let f = Rounded::from_i64(f10).over(10);
    let c = f.plus(true, 5).times(5).over(9);
    Binary64::from_rounded(c.times(10).round().over(10))
}

} // verus!
