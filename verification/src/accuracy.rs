//! How far rounding takes the unit conversions from the exact ones: never far enough to show.

use vstd::arithmetic::div_mod::*;
use vstd::arithmetic::mul::*;
use vstd::arithmetic::power2::*;
use vstd::prelude::*;

use crate::binary64::{grain, nearest, nearest_even, one, Real};
use crate::units::{celsius_of, f10_of, whole_fahrenheit};

verus! {

/// A bound on the rounding error of one operation on numbers below `2^53` last places, where
/// the last place is `2^g` units: half of it.
pub(crate) open spec fn error(g: nat) -> nat {
    pow2((g - 1) as nat)
}

/// How far apart two integers are.
pub open spec fn distance(a: int, b: int) -> int {
    if a < b {
        b - a
    } else {
        a - b
    }
}

/// For numbers below `2^30`, the error is below `2^-23`.
proof fn lemma_fine_scale()
    ensures
        one() == 0x100_0000 * error(1051),
        pow2(1104) == 0x4000_0000 * one(),
        error(1051) > 0,
{
    lemma2_to64();
    lemma_pow2_adds(24, 1050);
    lemma_pow2_adds(30, 1074);
    lemma_pow2_pos(1050);
}

/// For numbers below `2^44`, the error is below `2^-9`.
proof fn lemma_coarse_scale()
    ensures
        one() == 0x400 * error(1065),
        pow2(1118) == 0x1000_0000_0000 * one(),
        error(1065) > 0,
{
    lemma2_to64();
    lemma2_to64_rest();
    lemma_pow2_adds(10, 1064);
    lemma_pow2_adds(44, 1074);
    lemma_pow2_pos(1064);
}

proof fn lemma_grain_at_most(num: nat, den: nat, g: nat)
    requires
        den > 0,
        num < den * pow2(53 + g),
    ensures
        grain(num, den) <= g,
    decreases g,
{
    if g == 0 {
    } else if num >= den * pow2(53) {
        lemma_pow2_unfold(53 + g);
        assert(den * pow2(53 + g) == 2 * (den * pow2((52 + g) as nat))) by (nonlinear_arith)
            requires
                pow2(53 + g) == 2 * pow2((52 + g) as nat),
        ;
        lemma_grain_at_most(num / 2, den, (g - 1) as nat);
    }
}

/// Rounding is off by at most half of the last place.
pub(crate) proof fn lemma_nearest_close(negative: bool, num: nat, den: nat, g: nat)
    requires
        den > 0,
        num < den * pow2(53 + g),
    ensures
        nearest(negative, num, den).negative == negative,
        2 * distance(nearest(negative, num, den).magnitude() * den as int, num as int) <= den
            * pow2(g),
{
    let e = grain(num, den);
    let p = pow2(e);
    let d = den * p;
    let m = nearest_even(num, d);
    lemma_grain_at_most(num, den, g);
    lemma_pow2_pos(e);
    lemma_mul_strictly_positive(den as int, p as int);
    lemma_fundamental_div_mod(num as int, d as int);
    lemma_mod_bound(num as int, d as int);
    let q = num / d;
    let r = num % d;
    assert((q + 1) * d == q * d + d) by (nonlinear_arith);
    assert(num == q * d + r) by (nonlinear_arith)
        requires
            num == d * q + r,
    ;
    assert(2 * distance(m * d as int, num as int) <= d);
    let x = nearest(negative, num, den);
    assert(x.magnitude() == m * p) by {
        if m == pow2(53) {
            lemma_pow2_unfold(e + 1);
            lemma_pow2_unfold(53);
            assert(pow2(52) * pow2(e + 1) == m * p) by (nonlinear_arith)
                requires
                    m == 2 * pow2(52),
                    pow2(e + 1) == 2 * p,
            ;
        }
    }
    assert(x.magnitude() * den == m * d) by (nonlinear_arith)
        requires
            x.magnitude() == m * p,
            d == den * p,
    ;
    assert(d <= den * pow2(g)) by {
        if e < g {
            lemma_pow2_strictly_increases(e, g);
        }
        lemma_mul_inequality(p as int, pow2(g) as int, den as int);
        lemma_mul_is_commutative(p as int, den as int);
        lemma_mul_is_commutative(pow2(g) as int, den as int);
    }
}

/// A whole number below `2^53` is a double as it stands.
pub(crate) proof fn lemma_whole_is_exact(negative: bool, n: nat)
    requires
        n < pow2(53),
    ensures
        nearest(negative, n * one(), 1).magnitude() == n * one(),
        nearest(negative, n * one(), 1).negative == negative,
{
    let num = n * one();
    let e = grain(num, 1);
    lemma_pow2_pos(1074);
    lemma_pow2_adds(53, 1074);
    lemma_mul_strict_inequality(n as int, pow2(53) as int, one() as int);
    lemma_grain_at_most(num, 1, 1074);
    let rest = (1074 - e) as nat;
    let p = pow2(e);
    lemma_pow2_pos(e);
    lemma_pow2_adds(rest, e);
    let m = n * pow2(rest);
    lemma_mul_is_associative(n as int, pow2(rest) as int, p as int);
    assert(num == m * p);
    lemma_fundamental_div_mod_converse(num as int, p as int, m as int, 0);
    assert(nearest_even(num, 1 * p) == m);
    if m == pow2(53) {
        lemma_pow2_unfold(e + 1);
        lemma_pow2_unfold(53);
        assert(pow2(52) * pow2(e + 1) == m * p) by (nonlinear_arith)
            requires
                m == 2 * pow2(52),
                pow2(e + 1) == 2 * p,
        ;
    }
}

pub(crate) proof fn lemma_from_int_exact(n: int)
    requires
        -0x20_0000_0000_0000 < n < 0x20_0000_0000_0000,
    ensures
        Real::from_int(n).units() == n * one(),
{
    lemma2_to64();
    lemma2_to64_rest();
    let a = (if n < 0 {
        -n
    } else {
        n
    }) as nat;
    lemma_whole_is_exact(n < 0, a);
    assert(-(a * one()) == (-a) * one()) by (nonlinear_arith);
}

pub(crate) proof fn lemma_times_close(x: Real, k: nat, g: nat)
    requires
        g >= 1,
        x.magnitude() * k < pow2(53 + g),
    ensures
        distance(x.times(k).units(), k * x.units()) <= error(g),
{
    let num = x.magnitude() * k;
    lemma_pow2_unfold(g);
    lemma_nearest_close(x.negative, num, 1, g);
    let r = x.times(k);
    assert(num == k * x.magnitude()) by (nonlinear_arith)
        requires
            num == x.magnitude() * k,
    ;
    assert(k * x.units() == (if x.negative { -(num as int) } else { num as int })) by (nonlinear_arith)
        requires
            num == k * x.magnitude(),
            x.units() == (if x.negative { -(x.magnitude() as int) } else { x.magnitude() as int }),
    ;
}

pub(crate) proof fn lemma_over_close(x: Real, k: nat, g: nat)
    requires
        g >= 1,
        1 <= k <= 10,
        x.magnitude() < k * pow2(53 + g),
    ensures
        distance(k * x.over(k).units(), x.units()) <= k * error(g),
{
    let num = x.magnitude();
    lemma_pow2_unfold(g);
    lemma_nearest_close(x.negative, num, k, g);
    let r = x.over(k);
    assert(k * pow2(g) == 2 * (k * error(g))) by (nonlinear_arith)
        requires
            pow2(g) == 2 * error(g),
    ;
    assert(k * r.units() == (if x.negative { -(r.magnitude() * k) } else { (r.magnitude() * k) as int })) by (nonlinear_arith)
        requires
            r.units() == (if x.negative { -(r.magnitude() as int) } else { r.magnitude() as int }),
    ;
}

pub(crate) proof fn lemma_plus_close(x: Real, n: int, g: nat)
    requires
        g >= 1,
        distance(x.units() + n * one(), 0) < pow2(53 + g),
    ensures
        distance(x.plus(n).units(), x.units() + n * one()) <= error(g),
{
    let sum = x.units() + n * one();
    lemma_pow2_unfold(g);
    lemma_nearest_close(sum < 0, distance(sum, 0) as nat, 1, g);
}

/// Rounding to a whole number is off by at most one half.
pub(crate) proof fn lemma_round_close(x: Real)
    ensures
        2 * distance((x.rounded_magnitude() * one()) as int, x.magnitude() as int) <= one(),
{
    let u = one();
    lemma_pow2_pos(1074);
    let num = 2 * x.magnitude() + u;
    let q = x.rounded_magnitude();
    lemma_fundamental_div_mod(num as int, (2 * u) as int);
    lemma_mod_bound(num as int, (2 * u) as int);
    assert((2 * u) * q == 2 * (q * u)) by (nonlinear_arith);
}

/// The whole number of tenths that a conversion to Celsius rounds to.
pub open spec fn tenths_of(f10: int) -> int {
    let x = Real::from_int(f10).over(10).plus(-32).times(5).over(9).times(10);
    if x.negative {
        -(x.rounded_magnitude() as int)
    } else {
        x.rounded_magnitude() as int
    }
}

proof fn lemma_whole_tenths(f10: int)
    ensures
        celsius_of(f10).units() == Real::from_int(tenths_of(f10)).over(10).units(),
{
    let x5 = Real::from_int(f10).over(10).plus(-32).times(5).over(9).times(10);
    let t = tenths_of(f10);
    if t == 0 {
        lemma2_to64();
        lemma_whole_is_exact(x5.negative, 0);
        lemma_whole_is_exact(false, 0);
        assert(0 * one() == 0);
        lemma_zero_over(x5.round(), 10);
        lemma_zero_over(Real::from_int(t), 10);
    }
}

proof fn lemma_tenths(f10: int)
    requires
        -10_000_000_000_000 <= f10 <= 10_000_000_000_000,
    ensures
        distance(9 * tenths_of(f10), 5 * (f10 - 320)) <= 4,
        distance(10 * celsius_of(f10).units(), tenths_of(f10) * one()) <= 10 * error(1065),
{
    let u = one() as int;
    let q = error(1065) as int;
    lemma_coarse_scale();
    let x0 = Real::from_int(f10);
    let x1 = x0.over(10);
    let x2 = x1.plus(-32);
    let x3 = x2.times(5);
    let x4 = x3.over(9);
    let x5 = x4.times(10);
    let t = tenths_of(f10);
    lemma_from_int_exact(f10);
    assert(distance(f10 * u, 0) <= 10_000_000_000_000 * u) by (nonlinear_arith)
        requires
            -10_000_000_000_000 <= f10 <= 10_000_000_000_000,
            u > 0,
    ;
    lemma_over_close(x0, 10, 1065);
    lemma_plus_close(x1, -32, 1065);
    lemma_times_close(x2, 5, 1065);
    lemma_over_close(x3, 9, 1065);
    lemma_times_close(x4, 10, 1065);
    assert(5 * (f10 - 320) * u == 5 * (f10 * u) - 1600 * u) by (nonlinear_arith);
    assert(distance(9 * x5.units(), 5 * (f10 - 320) * u) <= 214 * q);
    lemma_round_close(x5);
    let a = x5.rounded_magnitude() as int;
    assert(t * u == (if x5.negative { -(a * u) } else { a * u })) by (nonlinear_arith)
        requires
            t == (if x5.negative { -a } else { a }),
    ;
    assert(2 * distance(t * u, x5.units()) <= u);
    assert(9 * t * u == 9 * (t * u)) by (nonlinear_arith);
    assert(distance(9 * t, 5 * (f10 - 320)) <= 4) by {
        let gap = 9 * t - 5 * (f10 - 320);
        assert(gap * u == 9 * t * u - 5 * (f10 - 320) * u) by (nonlinear_arith)
            requires
                gap == 9 * t - 5 * (f10 - 320),
        ;
        assert(-5 < gap < 5) by (nonlinear_arith)
            requires
                -5 * u < gap * u < 5 * u,
                u > 0,
        ;
    }
    assert(distance(t, 0) < 0x20_0000_0000_0000);
    lemma2_to64();
    lemma2_to64_rest();
    lemma_whole_is_exact(x5.negative, a as nat);
    let x6 = x5.round();
    assert(x6.units() == t * u);
    assert(distance(t * u, 0) < 0x20_0000_0000_0000 * u) by (nonlinear_arith)
        requires
            -0x20_0000_0000_0000 < t < 0x20_0000_0000_0000,
            u > 0,
    ;
    lemma_over_close(x6, 10, 1065);
}

proof fn lemma_zero_over(x: Real, k: nat)
    requires
        x.magnitude() == 0,
        k > 0,
    ensures
        x.over(k).units() == 0,
{
    lemma_pow2_pos(53);
    lemma_mul_strictly_positive(k as int, pow2(53) as int);
    lemma2_to64();
    lemma_mul_basics(k as int);
    lemma_small_mod(0, k);
    lemma_div_of0(k as int);
    assert(nearest_even(0, k * pow2(0)) == 0);
    assert(0 * pow2(0) == 0);
}

/// Tenths of a degree Fahrenheit become Celsius to one decimal: a whole number of tenths.
pub proof fn celsius_to_one_decimal(f10: int) -> (tenths: int)
    ensures
        tenths == tenths_of(f10),
        celsius_of(f10).units() == Real::from_int(tenths).over(10).units(),
{
    lemma_whole_tenths(f10);
    tenths_of(f10)
}

/// The number of tenths is the whole number nearest to `5 * (f10 - 320) / 9`.
pub proof fn celsius_is_the_nearest_tenth(f10: int)
    requires
        -10_000_000_000_000 <= f10 <= 10_000_000_000_000,
    ensures
        2 * distance(9 * tenths_of(f10), 5 * (f10 - 320)) < 9,
{
    lemma_tenths(f10);
}

pub(crate) proof fn lemma_fahrenheit_close(c: Real, g: nat)
    requires
        g >= 1,
        10 * c.magnitude() + 100 * one() + 10 * error(g) < pow2(53 + g),
    ensures
        distance(
            5 * c.times(9).over(5).plus(32).units(),
            9 * c.units() + 160 * one(),
        ) <= 11 * error(g),
{
    let y1 = c.times(9);
    let y2 = y1.over(5);
    lemma_times_close(c, 9, g);
    lemma_over_close(y1, 5, g);
    lemma_plus_close(y2, 32, g);
}

/// The whole degrees of a number, before they are multiplied by ten.
pub(crate) proof fn lemma_whole_fahrenheit(c: Real)
    requires
        c.times(9).over(5).plus(32).magnitude() <= 0x8_0000_0000_0000 * one(),
    ensures
        2 * distance(
            whole_fahrenheit(c) * one(),
            c.times(9).over(5).plus(32).units(),
        ) <= one(),
        distance(whole_fahrenheit(c), 0) <= 0x8_0000_0000_0001,
        f10_of(c) == 10 * whole_fahrenheit(c),
{
    let y = c.times(9).over(5).plus(32);
    let u = one() as int;
    let a = y.rounded_magnitude() as int;
    lemma_pow2_pos(1074);
    lemma_round_close(y);
    assert(a <= 0x8_0000_0000_0001) by (nonlinear_arith)
        requires
            a * u <= 0x8_0000_0000_0001 * u,
            u > 0,
    ;
    lemma2_to64();
    lemma2_to64_rest();
    lemma_whole_is_exact(y.negative, a as nat);
    lemma_div_by_multiple(a, u);
    let w = whole_fahrenheit(c);
    assert(w == (if y.negative { -a } else { a }));
    assert(w * u == (if y.negative { -(a * u) } else { a * u })) by (nonlinear_arith)
        requires
            w == (if y.negative { -a } else { a }),
    ;
}

/// Celsius becomes the nearest whole degree Fahrenheit, times ten. Double arithmetic moves the
/// point where it turns from one degree to the next by less than a millionth of a degree.
pub proof fn fahrenheit_to_whole_degrees(c: Real)
    requires
        c.magnitude() <= 10_000_000 * one(),
    ensures
        f10_of(c) == 10 * whole_fahrenheit(c),
        2_000_000 * distance(
            5 * whole_fahrenheit(c) * one(),
            9 * c.units() + 160 * one(),
        ) <= 5_000_010 * one(),
{
    lemma_fine_scale();
    lemma_fahrenheit_close(c, 1051);
    lemma_whole_fahrenheit(c);
    let w = whole_fahrenheit(c);
    let u = one() as int;
    assert(5 * w * u == 5 * (w * u)) by (nonlinear_arith);
}

/// A setpoint in whole degrees Fahrenheit survives the way to Celsius and back.
pub proof fn whole_degrees_come_back(degrees: int)
    requires
        -1_000_000_000_000 <= degrees <= 1_000_000_000_000,
    ensures
        f10_of(celsius_of(10 * degrees)) == 10 * degrees,
{
    let c = celsius_of(10 * degrees);
    let t = tenths_of(10 * degrees);
    let u = one() as int;
    lemma_coarse_scale();
    lemma_tenths(10 * degrees);
    assert(distance(t * u, 0) <= 6_000_000_000_000 * u) by (nonlinear_arith)
        requires
            -6_000_000_000_000 <= t <= 6_000_000_000_000,
            u > 0,
    ;
    lemma_fahrenheit_close(c, 1065);
    lemma_whole_fahrenheit(c);
    let w = whole_fahrenheit(c);
    let y = c.times(9).over(5).plus(32);
    let gap = 9 * t - 5 * (10 * degrees - 320);
    assert(gap * u == 9 * (t * u) - 50 * (degrees * u) + 1600 * u) by (nonlinear_arith)
        requires
            gap == 9 * t - 5 * (10 * degrees - 320),
    ;
    assert(-4 * u <= gap * u <= 4 * u) by (nonlinear_arith)
        requires
            -4 <= gap <= 4,
            u > 0,
    ;
    let off = w - degrees;
    assert(off * u == w * u - degrees * u) by (nonlinear_arith)
        requires
            off == w - degrees,
    ;
    assert(-1 < off < 1) by (nonlinear_arith)
        requires
            -u < off * u < u,
            u > 0,
    ;
}

} // verus!
