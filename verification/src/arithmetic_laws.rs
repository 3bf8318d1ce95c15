//! What the numbers that are computed have to do with the exact ones, of any size.

use vstd::arithmetic::div_mod::*;
use vstd::arithmetic::mul::*;
use vstd::arithmetic::power2::*;
use vstd::prelude::*;

use crate::accuracy::{
    celsius_to_one_decimal, distance, error, lemma_fahrenheit_close, lemma_nearest_close,
    lemma_over_close, lemma_plus_close, lemma_round_close, lemma_times_close, lemma_whole_is_exact,
    tenths_of,
};
use crate::binary64::{decode, decode_any, grain, nearest, nearest_even, one, DoubleView, Real};
use crate::deadband::{
    lemma_grain_fits, lemma_nearest_monotone, lemma_over_monotone, lemma_plus_monotone,
    lemma_round_monotone, lemma_significand, lemma_times_monotone,
};
use crate::units::{celsius_of, f10_of, f10_of_any, whole_fahrenheit, wrap_i64};

verus! {

/// The chosen whole number is as near as any, and even where another is as near.
proof fn lemma_nearest_even_is_nearest(num: nat, d: nat, k: nat)
    requires
        d > 0,
    ensures
        distance((nearest_even(num, d) * d) as int, num as int) <= distance(
            (k * d) as int,
            num as int,
        ),
        k != nearest_even(num, d) && distance((nearest_even(num, d) * d) as int, num as int)
            == distance((k * d) as int, num as int) ==> nearest_even(num, d) % 2 == 0,
{
    let q = num / d;
    let r = num % d;
    let m = nearest_even(num, d);
    lemma_fundamental_div_mod(num as int, d as int);
    lemma_mod_bound(num as int, d as int);
    assert(num == q * d + r) by (nonlinear_arith)
        requires
            num == d * q + r,
    ;
    assert((q + 1) * d == q * d + d) by (nonlinear_arith);
    if k < q {
        assert(k * d <= q * d - d) by (nonlinear_arith)
            requires
                k + 1 <= q,
                d > 0,
        ;
    } else if k > q + 1 {
        assert(k * d >= q * d + 2 * d) by (nonlinear_arith)
            requires
                k >= q + 2,
                d > 0,
        ;
    }
}

/// Of all numbers with a 53-bit significand none is nearer than the one that a quotient is rounded
/// to, and where another is as near, the one chosen is even.
pub proof fn rounding_is_to_nearest(negative: bool, num: nat, den: nat, y: Real)
    requires
        den > 0,
        y.is_rounded(),
    ensures
        ({
            let x = nearest(negative, num, den);
            let error = distance(x.magnitude() * den as int, num as int);
            &&& x.is_rounded()
            &&& x.negative == negative
            &&& error <= distance(y.magnitude() * den as int, num as int)
            &&& error == distance(y.magnitude() * den as int, num as int) && y.magnitude()
                != x.magnitude() ==> x.mantissa % 2 == 0
        }),
{
    let x = nearest(negative, num, den);
    let e = grain(num, den);
    let p = pow2(e);
    let d = den * p;
    let m = nearest_even(num, d);
    lemma2_to64();
    lemma2_to64_rest();
    lemma_pow2_pos(e);
    lemma_mul_strictly_positive(den as int, p as int);
    lemma_significand(num, den);
    lemma_grain_fits(num, den);
    assert(x.magnitude() * den == m * d) by (nonlinear_arith)
        requires
            x.magnitude() == m * p,
            d == den * p,
    ;
    if y.exponent >= e {
        let r = (y.exponent - e) as nat;
        let k = y.mantissa * pow2(r);
        lemma_pow2_adds(r, e);
        assert(y.magnitude() == k * p) by (nonlinear_arith)
            requires
                y.magnitude() == y.mantissa * (pow2(r) * p),
                k == y.mantissa * pow2(r),
        ;
        assert(y.magnitude() * den == k * d) by (nonlinear_arith)
            requires
                y.magnitude() == k * p,
                d == den * p,
        ;
        lemma_nearest_even_is_nearest(num, d, k);
    } else {
        let k = pow2(52);
        let f = pow2(y.exponent);
        let r = (e - y.exponent - 1) as nat;
        lemma_pow2_pos(y.exponent);
        lemma_pow2_pos(r);
        lemma_pow2_adds(r, y.exponent + 1);
        lemma_pow2_unfold(y.exponent + 1);
        lemma_nearest_even_is_nearest(num, d, k);
        lemma_pow2_adds(52, e);
        assert(den * (k * p) == k * d) by (nonlinear_arith)
            requires
                d == den * p,
        ;
        assert(y.magnitude() * den < k * d) by (nonlinear_arith)
            requires
                y.magnitude() == y.mantissa * f,
                y.mantissa < 2 * k,
                p == pow2(r) * (2 * f),
                pow2(r) >= 1,
                d == den * p,
                den > 0,
                f > 0,
        ;
    }
}

proof fn lemma_nearer(negative: bool, num: nat, den: nat, y: Real)
    requires
        den > 0,
        y.is_rounded(),
    ensures
        ({
            let exact: int = if negative { -(num as int) } else { num as int };
            distance(den * nearest(negative, num, den).units(), exact) <= distance(
                den * y.units(),
                exact,
            )
        }),
{
    let x = nearest(negative, num, den);
    rounding_is_to_nearest(negative, num, den, y);
    assert(den * x.units() == (if negative { -(x.magnitude() * den) } else { (x.magnitude() * den) as int }))
        by (nonlinear_arith)
        requires
            x.units() == (if negative { -(x.magnitude() as int) } else { x.magnitude() as int }),
    ;
    assert(den * y.units() == (if y.negative { -(y.magnitude() * den) } else { (y.magnitude() * den) as int }))
        by (nonlinear_arith)
        requires
            y.units() == (if y.negative { -(y.magnitude() as int) } else { y.magnitude() as int }),
    ;
    assert(y.magnitude() * den >= 0) by (nonlinear_arith);
}

/// Each operation gives the number nearest to its exact result.
pub proof fn operations_are_rounded_once(x: Real, k: nat, n: int, y: Real)
    requires
        k > 0,
        y.is_rounded(),
    ensures
        distance(x.times(k).units(), k * x.units()) <= distance(y.units(), k * x.units()),
        distance(k * x.over(k).units(), x.units()) <= distance(k * y.units(), x.units()),
        distance(x.plus(n).units(), x.units() + n * one()) <= distance(
            y.units(),
            x.units() + n * one(),
        ),
        distance(Real::from_int(n).units(), n * one()) <= distance(y.units(), n * one()),
{
    lemma_nearer(x.negative, x.magnitude() * k, 1, y);
    assert(k * x.units() == (if x.negative { -(x.magnitude() * k) } else { (x.magnitude() * k) as int }))
        by (nonlinear_arith)
        requires
            x.units() == (if x.negative { -(x.magnitude() as int) } else { x.magnitude() as int }),
    ;
    lemma_nearer(x.negative, x.magnitude(), k, y);
    let sum = x.units() + n * one();
    lemma_nearer(sum < 0, distance(sum, 0) as nat, 1, y);
    let a = (if n < 0 { -n } else { n }) as nat;
    lemma_nearer(n < 0, a * one(), 1, y);
    assert((if n < 0 { -(a * one()) } else { (a * one()) as int }) == n * one()) by (nonlinear_arith)
        requires
            a == (if n < 0 { -n } else { n }),
    ;
}

/// Rounding to a whole number goes to the nearest one, away from zero from halfway, and cutting
/// off goes to the last one before it.
pub proof fn whole_numbers_are_nearest(x: Real, y: Real)
    requires
        y.is_rounded(),
    ensures
        distance(x.round().magnitude() as int, (x.rounded_magnitude() * one()) as int) <= distance(
            y.magnitude() as int,
            (x.rounded_magnitude() * one()) as int,
        ),
        2 * (x.rounded_magnitude() * one()) <= 2 * x.magnitude() + one() < 2 * (
        x.rounded_magnitude() * one()) + 2 * one(),
        x.round().negative == x.negative,
        distance(x.truncated(), 0) * one() <= x.magnitude() < distance(x.truncated(), 0) * one()
            + one(),
        x.truncated() < 0 ==> x.negative,
        x.truncated() > 0 ==> !x.negative,
{
    let u = one();
    lemma_pow2_pos(1074);
    let num = 2 * x.magnitude() + u;
    let q = x.rounded_magnitude();
    rounding_is_to_nearest(x.negative, q * u, 1, y);
    lemma_fundamental_div_mod(num as int, (2 * u) as int);
    lemma_mod_bound(num as int, (2 * u) as int);
    assert((2 * u) * q == 2 * (q * u)) by (nonlinear_arith);
    let w = x.magnitude() / u;
    lemma_fundamental_div_mod(x.magnitude() as int, u as int);
    lemma_mod_bound(x.magnitude() as int, u as int);
    lemma_mul_is_commutative(w as int, u as int);
    assert(distance(x.truncated(), 0) == w);
}

/// A whole number that a number is rounded to is a double.
proof fn lemma_round_is_exact(y: Real)
    requires
        y.is_rounded(),
    ensures
        y.round().magnitude() == y.rounded_magnitude() * one(),
{
    let u = one();
    let w = y.rounded_magnitude();
    lemma2_to64();
    lemma2_to64_rest();
    lemma_pow2_pos(1074);
    if y.exponent >= 1074 {
        let k = (y.exponent - 1074) as nat;
        let whole = y.mantissa * pow2(k);
        lemma_pow2_adds(k, 1074);
        lemma_mul_is_associative(y.mantissa as int, pow2(k) as int, u as int);
        assert(2 * y.magnitude() + u == whole * (2 * u) + u) by (nonlinear_arith)
            requires
                y.magnitude() == whole * u,
        ;
        lemma_fundamental_div_mod_converse(
            (2 * y.magnitude() + u) as int,
            (2 * u) as int,
            whole as int,
            u as int,
        );
        rounding_is_to_nearest(y.negative, w * u, 1, y);
    } else {
        lemma_round_close(y);
        lemma_pow2_adds(53, y.exponent);
        lemma_pow2_pos(y.exponent);
        lemma_mul_strict_inequality(
            y.mantissa as int,
            pow2(53) as int,
            pow2(y.exponent) as int,
        );
        if 53 + y.exponent < 1126 {
            lemma_pow2_strictly_increases(53 + y.exponent, 1126);
        }
        lemma_pow2_adds(52, 1074);
        assert(w < 0x10_0000_0000_0001) by (nonlinear_arith)
            requires
                w * u < 0x10_0000_0000_0001 * u,
                u > 0,
        ;
        lemma_whole_is_exact(y.negative, w);
    }
}

/// The whole degrees Fahrenheit of a number of any size are the exact ones, rounded to the nearest
/// whole degree, but for what the operations lose: at most twenty-two times half of the last place
/// of ten times the number, for five times the degrees, twice. They stop at the ends of an `i64`.
pub proof fn degrees_are_close_at_any_size(c: Real, g: nat)
    requires
        g >= 1,
        10 * c.magnitude() + 100 * one() + 10 * pow2((g - 1) as nat) < pow2(53 + g),
    ensures
        ({
            let whole = whole_fahrenheit(c);
            let exact = 9 * c.units() + 160 * one();
            let lost = 5 * one() + 22 * pow2((g - 1) as nat);
            &&& i64::MIN <= whole <= i64::MAX
            &&& whole > i64::MIN ==> 2 * (5 * (whole * one())) <= 2 * exact + lost
            &&& whole < i64::MAX ==> 2 * exact <= 2 * (5 * (whole * one())) + lost
            &&& f10_of(c) == wrap_i64(10 * whole)
        }),
{
    let u = one() as int;
    let y = c.times(9).over(5).plus(32);
    let q = error(g) as int;
    let zero = Real { negative: false, mantissa: 0, exponent: 0 };
    lemma2_to64();
    lemma2_to64_rest();
    lemma_pow2_pos(1074);
    let sum = c.times(9).over(5).units() + 32 * one();
    rounding_is_to_nearest(sum < 0, distance(sum, 0) as nat, 1, zero);
    lemma_fahrenheit_close(c, g);
    lemma_round_is_exact(y);
    lemma_round_close(y);
    let a = y.rounded_magnitude() as int;
    lemma_div_by_multiple(a, u);
    let w: int = if y.negative {
        -a
    } else {
        a
    };
    assert(y.round().truncated() == w);
    assert(w * u == (if y.negative { -(a * u) } else { a * u })) by (nonlinear_arith)
        requires
            w == (if y.negative { -a } else { a }),
    ;
    assert(2 * distance(w * u, y.units()) <= u);
    let whole = whole_fahrenheit(c);
    if whole < w {
        assert(whole * u <= w * u) by (nonlinear_arith)
            requires
                whole <= w,
                u > 0,
        ;
    } else {
        assert(w * u <= whole * u) by (nonlinear_arith)
            requires
                w <= whole,
                u > 0,
        ;
    }
}

/// Halfway between two whole degrees, the one further from zero is taken, on either side of it.
pub proof fn halfway_goes_away_from_zero(c: Real)
    requires
        i64::MIN < whole_fahrenheit(c) < i64::MAX,
    ensures
        ({
            let twice = 2 * c.times(9).over(5).plus(32).units();
            let whole = 2 * (whole_fahrenheit(c) * one());
            &&& twice >= 0 ==> whole - one() <= twice < whole + one()
            &&& twice <= 0 ==> whole - one() < twice <= whole + one()
        }),
{
    let u = one() as int;
    let y = c.times(9).over(5).plus(32);
    let zero = Real { negative: false, mantissa: 0, exponent: 0 };
    lemma2_to64();
    lemma2_to64_rest();
    lemma_pow2_pos(1074);
    let sum = c.times(9).over(5).units() + 32 * one();
    rounding_is_to_nearest(sum < 0, distance(sum, 0) as nat, 1, zero);
    lemma_round_is_exact(y);
    whole_numbers_are_nearest(y, zero);
    let a = y.rounded_magnitude() as int;
    lemma_div_by_multiple(a, u);
    let whole = whole_fahrenheit(c);
    assert(2 * (a * u) <= 2 * y.magnitude() + u < 2 * (a * u) + 2 * u);
    if y.magnitude() == 0 {
        assert(a == 0 && a * u == 0) by (nonlinear_arith)
            requires
                2 * (a * u) <= u,
                a >= 0,
                u > 0,
        ;
    }
    assert(y.round().truncated() == (if y.negative { -a } else { a }));
    assert(whole == (if y.negative { -a } else { a }));
    assert(whole * u == (if y.negative { -(a * u) } else { a * u })) by (nonlinear_arith)
        requires
            whole == (if y.negative { -a } else { a }),
    ;
}

/// The Celsius number of tenths of any size is a whole number of tenths that is the exact one,
/// rounded, but for what the operations lose: for nine times it, twice, at most five hundred times
/// half of the last place of twice the tenths and a thousand.
pub proof fn tenths_are_close_at_any_size(f10: int, g: nat)
    requires
        g >= 1,
        2 * ((distance(f10, 0) + 1000) * one()) <= pow2(53 + g),
    ensures
        ({
            let tenths = tenths_of(f10);
            &&& celsius_of(f10).units() == Real::from_int(tenths).over(10).units()
            &&& 2 * distance(9 * (tenths * one()), 5 * ((f10 - 320) * one())) <= 9 * one() + 500
                * pow2((g - 1) as nat)
        }),
{
    let u = one() as int;
    let q = error(g) as int;
    let x5 = lemma_tenfold_close(f10, g);
    celsius_to_one_decimal(f10);
    lemma_round_close(x5);
    let t = tenths_of(f10);
    let w = x5.rounded_magnitude() as int;
    assert(t * u == (if x5.negative { -(w * u) } else { w * u })) by (nonlinear_arith)
        requires
            t == (if x5.negative { -w } else { w }),
    ;
    assert(2 * distance(t * u, x5.units()) <= u);
}

/// The scale of tenths: how large they are beside the last place.
proof fn lemma_tenths_scale(f10: int, g: nat) -> (size: int)
    requires
        g >= 1,
        2 * ((distance(f10, 0) + 1000) * one()) <= pow2(53 + g),
    ensures
        one() > 0,
        error(g) > 0,
        pow2(53 + g) == 0x40_0000_0000_0000 * error(g),
        2 * size + 2000 * one() <= pow2(53 + g),
        size >= 0,
        f10 * one() == (if f10 < 0 { -size } else { size }),
        distance(Real::from_int(f10).units(), f10 * one()) <= error(g),
{
    let u = one() as int;
    let a = distance(f10, 0) as nat;
    let size = a * u;
    lemma_pow2_pos(1074);
    lemma_pow2_pos((g - 1) as nat);
    lemma2_to64();
    lemma2_to64_rest();
    lemma_pow2_adds(54, (g - 1) as nat);
    lemma_pow2_unfold(g);
    assert((a + 1000) * u == size + 1000 * u) by (nonlinear_arith)
        requires
            size == a * u,
    ;
    assert(f10 * u == (if f10 < 0 { -size } else { size })) by (nonlinear_arith)
        requires
            size == a * u,
            f10 == (if f10 < 0 { -a } else { a as int }),
    ;
    assert(size >= 0) by (nonlinear_arith)
        requires
            size == a * u,
            u > 0,
    ;
    lemma_nearest_close(f10 < 0, a * one(), 1, g);
    size
}

/// What the operations lose before the multiplication.
#[verifier::spinoff_prover]
proof fn lemma_shifted_close(f10: int, g: nat, size: int)
    requires
        g >= 1,
        one() > 0,
        error(g) > 0,
        pow2(53 + g) == 0x40_0000_0000_0000 * error(g),
        2 * size + 2000 * one() <= pow2(53 + g),
        size >= 0,
        f10 * one() == (if f10 < 0 { -size } else { size }),
        distance(Real::from_int(f10).units(), f10 * one()) <= error(g),
    ensures
        distance(
            10 * Real::from_int(f10).over(10).plus(-32).units(),
            f10 * one() - 320 * one(),
        ) <= 21 * error(g),
{
    let x0 = Real::from_int(f10);
    assert(x0.magnitude() <= size + error(g));
    lemma_over_close(x0, 10, g);
    let x1 = x0.over(10);
    assert(distance(10 * x1.units(), 0) <= size + 11 * error(g));
    lemma_plus_close(x1, -32, g);
}

/// What the operations lose before the last rounding.
#[verifier::spinoff_prover]
proof fn lemma_tenfold_close(f10: int, g: nat) -> (x5: Real)
    requires
        g >= 1,
        2 * ((distance(f10, 0) + 1000) * one()) <= pow2(53 + g),
    ensures
        x5 == Real::from_int(f10).over(10).plus(-32).times(5).over(9).times(10),
        distance(9 * x5.units(), 5 * ((f10 - 320) * one())) <= 250 * error(g),
{
    let u = one() as int;
    let q = error(g) as int;
    let size = lemma_tenths_scale(f10, g);
    lemma_shifted_close(f10, g, size);
    let x2 = Real::from_int(f10).over(10).plus(-32);
    assert(10 * distance(x2.units(), 0) <= size + 320 * u + 21 * q);
    let x3 = x2.times(5);
    lemma_times_close(x2, 5, g);
    assert(2 * distance(x3.units(), 0) <= size + 320 * u + 23 * q);
    let x4 = x3.over(9);
    lemma_over_close(x3, 9, g);
    assert(18 * distance(x4.units(), 0) <= size + 320 * u + 41 * q);
    let x5 = x4.times(10);
    lemma_times_close(x4, 10, g);
    assert((f10 - 320) * u == f10 * u - 320 * u) by (nonlinear_arith);
    x5
}

/// More tenths of a degree Fahrenheit never become fewer degrees Celsius.
pub proof fn more_tenths_stay_more(a: int, b: int)
    requires
        a <= b,
    ensures
        celsius_of(a).units() <= celsius_of(b).units(),
{
    let (x, y) = (Real::from_int(a), Real::from_int(b));
    lemma_pow2_pos(1074);
    lemma_from_int_monotone(a, b);
    lemma_over_monotone(x, y, 10);
    let (x, y) = (x.over(10), y.over(10));
    lemma_plus_monotone(x, y, -32);
    let (x, y) = (x.plus(-32), y.plus(-32));
    lemma_times_monotone(x, y, 5);
    let (x, y) = (x.times(5), y.times(5));
    lemma_over_monotone(x, y, 9);
    let (x, y) = (x.over(9), y.over(9));
    lemma_times_monotone(x, y, 10);
    let (x, y) = (x.times(10), y.times(10));
    lemma_round_monotone(x, y);
    lemma_over_monotone(x.round(), y.round(), 10);
}

proof fn lemma_from_int_monotone(a: int, b: int)
    requires
        a <= b,
    ensures
        Real::from_int(a).units() <= Real::from_int(b).units(),
{
    let u = one();
    if a >= 0 {
        lemma_mul_inequality(a, b, u as int);
        lemma_nearest_monotone(false, a as nat * u, b as nat * u, 1);
    } else if b < 0 {
        lemma_mul_inequality(-b, -a, u as int);
        lemma_nearest_monotone(true, (-b) as nat * u, (-a) as nat * u, 1);
    }
}

/// Infinities convert as the numbers past the ends of an `i64` do, what is not a number as zero
/// degrees, and every other double as the number that it is.
pub proof fn every_double_converts(c: Real, negative: bool)
    ensures
        f10_of_any(DoubleView::Finite(c)) == f10_of(c),
        whole_fahrenheit(c) == i64::MIN ==> f10_of_any(DoubleView::Infinite { negative: true })
            == f10_of(c),
        whole_fahrenheit(c) == i64::MAX ==> f10_of_any(DoubleView::Infinite { negative: false })
            == f10_of(c),
        f10_of_any(DoubleView::Infinite { negative }) == (if negative {
            0int
        } else {
            -10
        }),
        f10_of_any(DoubleView::NotANumber) == 0,
{
}

/// Bit patterns count up through the doubles: from zero, each next one is one last place more, up
/// to the infinity, and the top bit is the sign.
pub proof fn patterns_count_up(bits: u64)
    ensures
        decode(0) == Some(Real { negative: false, mantissa: 0, exponent: 0 }),
        bits < 0x7ff0_0000_0000_0000 ==> decode(bits) is Some,
        0x7ff0_0000_0000_0000 <= bits < 0x8000_0000_0000_0000 ==> decode(bits) is None,
        bits < 0x7fef_ffff_ffff_ffff ==> {
            let (x, y) = (decode(bits)->0, decode((bits + 1) as u64)->0);
            &&& !x.negative
            &&& x.is_double()
            &&& y.magnitude() == x.magnitude() + pow2(x.exponent)
        },
        bits < 0x8000_0000_0000_0000 ==> match decode(bits) {
            Some(x) => decode((bits + 0x8000_0000_0000_0000) as u64) == Some(
                Real { negative: true, mantissa: x.mantissa, exponent: x.exponent },
            ),
            None => decode((bits + 0x8000_0000_0000_0000) as u64) is None,
        },
        decode_any(0x7ff0_0000_0000_0000) == (DoubleView::Infinite { negative: false }),
        decode_any(0xfff0_0000_0000_0000) == (DoubleView::Infinite { negative: true }),
        decode(bits) matches Some(x) ==> decode_any(bits) == DoubleView::Finite(x),
        decode(bits) is None && bits != 0x7ff0_0000_0000_0000 && bits != 0xfff0_0000_0000_0000
            ==> decode_any(bits) == DoubleView::NotANumber,
{
    lemma2_to64();
    lemma2_to64_rest();
    if bits < 0x7fef_ffff_ffff_ffff {
        let (x, y) = (decode(bits)->0, decode((bits + 1) as u64)->0);
        let p = pow2(x.exponent);
        if y.exponent == x.exponent {
            assert(y.mantissa == x.mantissa + 1);
            assert((x.mantissa + 1) * p == x.mantissa * p + p) by (nonlinear_arith);
        } else {
            assert(y.exponent == x.exponent + 1);
            assert(x.mantissa == 0x1f_ffff_ffff_ffff && y.mantissa == 0x10_0000_0000_0000);
            lemma_pow2_unfold(y.exponent);
            assert(0x10_0000_0000_0000 * (2 * p) == 0x1f_ffff_ffff_ffff * p + p)
                by (nonlinear_arith);
        }
    }
}

} // verus!
