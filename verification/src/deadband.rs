//! Ecobee rejects a hold whose setpoints are closer than its deadband. The ones that go out never
//! are.

use vstd::arithmetic::div_mod::*;
use vstd::arithmetic::mul::*;
use vstd::arithmetic::power2::*;
use vstd::prelude::*;

use crate::accuracy::{distance, error, lemma_over_close, lemma_plus_close, lemma_times_close, lemma_whole_fahrenheit, lemma_whole_is_exact};
use crate::binary64::{grain, lemma_nearest_even_scaled, nearest, nearest_even, one, Real};
use crate::grid::{lemma_rounded, lemma_rounded_fifth, lemma_three_degrees_apart, near, rounds, rounds_fifth};
use crate::thermostat::held_apart;
use crate::units::{f10_of, whole_fahrenheit};

verus! {

/// The exponent of a quotient is the least at which it fits in 53 bits.
pub(crate) proof fn lemma_grain_fits(num: nat, den: nat)
    requires
        den > 0,
    ensures
        num < den * pow2(53 + grain(num, den)),
        grain(num, den) > 0 ==> num >= den * pow2((52 + grain(num, den)) as nat),
    decreases num,
{
    if num >= den * pow2(53) {
        lemma_pow2_pos(53);
        lemma_mul_strictly_positive(den as int, pow2(53) as int);
        let e = grain(num / 2, den);
        lemma_grain_fits(num / 2, den);
        lemma_pow2_unfold(54 + e);
        lemma_pow2_unfold((53 + e) as nat);
        assert(den * pow2(54 + e) == 2 * (den * pow2(53 + e))) by (nonlinear_arith)
            requires
                pow2(54 + e) == 2 * pow2(53 + e),
        ;
        assert(den * pow2((53 + e) as nat) == 2 * (den * pow2((52 + e) as nat))) by (nonlinear_arith)
            requires
                pow2((53 + e) as nat) == 2 * pow2((52 + e) as nat),
        ;
    }
}

pub(crate) proof fn lemma_nearest_even_monotone(a: nat, b: nat, d: nat)
    requires
        a <= b,
        d > 0,
    ensures
        nearest_even(a, d) <= nearest_even(b, d),
{
    lemma_fundamental_div_mod(a as int, d as int);
    lemma_fundamental_div_mod(b as int, d as int);
    lemma_mod_bound(a as int, d as int);
    lemma_mod_bound(b as int, d as int);
    lemma_div_is_ordered(a as int, b as int, d as int);
    let p = a / d;
    let q = b / d;
    if p < q {
    } else {
        assert(p == q);
        assert(d * p == d * q);
    }
}

/// What a quotient is rounded to, at its exponent.
pub(crate) proof fn lemma_significand(num: nat, den: nat)
    requires
        den > 0,
    ensures
        ({
            let e = grain(num, den);
            let m = nearest_even(num, den * pow2(e));
            &&& m <= pow2(53)
            &&& e > 0 ==> m >= pow2(52)
            &&& nearest(true, num, den).magnitude() == m * pow2(e)
            &&& nearest(false, num, den).magnitude() == m * pow2(e)
        }),
{
    let e = grain(num, den);
    let p = pow2(e);
    let d = den * p;
    let m = nearest_even(num, d);
    lemma_grain_fits(num, den);
    lemma_pow2_pos(e);
    lemma_mul_strictly_positive(den as int, p as int);
    lemma_pow2_adds(53, e);
    lemma_pow2_adds(52, e);
    lemma_pow2_unfold(53);
    lemma_mul_is_associative(den as int, p as int, pow2(53) as int);
    lemma_mul_is_commutative(pow2(53) as int, p as int);
    lemma_mul_is_associative(den as int, p as int, pow2(52) as int);
    lemma_mul_is_commutative(pow2(52) as int, p as int);
    lemma_fundamental_div_mod((d * pow2(53)) as int, d as int);
    lemma_fundamental_div_mod_converse((d * pow2(53)) as int, d as int, pow2(53) as int, 0);
    lemma_fundamental_div_mod_converse((d * pow2(52)) as int, d as int, pow2(52) as int, 0);
    lemma_nearest_even_monotone(num, d * pow2(53), d);
    if e > 0 {
        lemma_nearest_even_monotone(d * pow2(52), num, d);
    }
    if m == pow2(53) {
        lemma_pow2_unfold(e + 1);
        assert(pow2(52) * pow2(e + 1) == m * p) by (nonlinear_arith)
            requires
                m == 2 * pow2(52),
                pow2(e + 1) == 2 * p,
        ;
    }
}

proof fn lemma_grain_monotone(a: nat, b: nat, den: nat)
    requires
        a <= b,
    ensures
        grain(a, den) <= grain(b, den),
    decreases b,
{
    if den > 0 && a >= den * pow2(53) {
        lemma_pow2_pos(53);
        lemma_mul_strictly_positive(den as int, pow2(53) as int);
        lemma_grain_monotone(a / 2, b / 2, den);
    }
}

/// Rounding keeps the order.
pub(crate) proof fn lemma_nearest_monotone(negative: bool, a: nat, b: nat, den: nat)
    requires
        a <= b,
        den > 0,
    ensures
        nearest(negative, a, den).magnitude() <= nearest(negative, b, den).magnitude(),
{
    let e = grain(a, den);
    let f = grain(b, den);
    lemma_significand(a, den);
    lemma_significand(b, den);
    lemma_grain_monotone(a, b, den);
    lemma_pow2_pos(e);
    lemma_pow2_pos(f);
    let m = nearest_even(a, den * pow2(e));
    let n = nearest_even(b, den * pow2(f));
    if e == f {
        lemma_mul_strictly_positive(den as int, pow2(e) as int);
        lemma_nearest_even_monotone(a, b, den * pow2(e));
        lemma_mul_inequality(m as int, n as int, pow2(e) as int);
    } else {
        let r = (f - e - 1) as nat;
        lemma_pow2_pos(r);
        lemma_pow2_adds(r, e + 1);
        lemma_pow2_unfold(e + 1);
        lemma_pow2_unfold(53);
        lemma_mul_inequality(m as int, pow2(53) as int, pow2(e) as int);
        lemma_mul_inequality(pow2(52) as int, n as int, pow2(f) as int);
        assert(pow2(53) * pow2(e) <= pow2(52) * pow2(f)) by (nonlinear_arith)
            requires
                pow2(53) == 2 * pow2(52),
                pow2(f) == pow2(r) * (2 * pow2(e)),
                pow2(r) >= 1,
        ;
    }
}

pub(crate) proof fn lemma_times_monotone(x: Real, y: Real, k: nat)
    requires
        x.units() <= y.units(),
    ensures
        x.times(k).units() <= y.times(k).units(),
{
    if x.negative == y.negative {
        if x.negative {
            lemma_mul_inequality(y.magnitude() as int, x.magnitude() as int, k as int);
            lemma_nearest_monotone(true, y.magnitude() * k, x.magnitude() * k, 1);
        } else {
            lemma_mul_inequality(x.magnitude() as int, y.magnitude() as int, k as int);
            lemma_nearest_monotone(false, x.magnitude() * k, y.magnitude() * k, 1);
        }
    } else if y.negative {
        lemma_mul_basics(k as int);
        lemma_zero(true, 1);
        lemma_zero(false, 1);
    }
}

proof fn lemma_zero(negative: bool, den: nat)
    requires
        den > 0,
    ensures
        nearest(negative, 0, den).magnitude() == 0,
{
    lemma_pow2_pos(53);
    lemma2_to64();
    lemma_mul_strictly_positive(den as int, pow2(53) as int);
    lemma_mul_basics(den as int);
    lemma_small_mod(0, den);
    lemma_div_of0(den as int);
    assert(nearest_even(0, den * pow2(0)) == 0);
    assert(0 * pow2(0) == 0);
}

pub(crate) proof fn lemma_over_monotone(x: Real, y: Real, k: nat)
    requires
        x.units() <= y.units(),
        k > 0,
    ensures
        x.over(k).units() <= y.over(k).units(),
{
    if x.negative == y.negative {
        if x.negative {
            lemma_nearest_monotone(true, y.magnitude(), x.magnitude(), k);
        } else {
            lemma_nearest_monotone(false, x.magnitude(), y.magnitude(), k);
        }
    } else if y.negative {
        lemma_zero(true, k);
        lemma_zero(false, k);
    }
}

pub(crate) proof fn lemma_plus_monotone(x: Real, y: Real, n: int)
    requires
        x.units() <= y.units(),
    ensures
        x.plus(n).units() <= y.plus(n).units(),
{
    let a = x.units() + n * one();
    let b = y.units() + n * one();
    if b < 0 {
        lemma_nearest_monotone(true, (-b) as nat, (-a) as nat, 1);
    } else if a >= 0 {
        lemma_nearest_monotone(false, a as nat, b as nat, 1);
    }
}

pub(crate) proof fn lemma_round_monotone(x: Real, y: Real)
    requires
        x.units() <= y.units(),
    ensures
        x.round().units() <= y.round().units(),
        x.round().truncated() <= y.round().truncated(),
{
    let u = one();
    let a = x.magnitude();
    let b = y.magnitude();
    lemma_pow2_pos(1074);
    if a <= b {
        lemma_div_is_ordered((2 * a + u) as int, (2 * b + u) as int, (2 * u) as int);
        lemma_mul_inequality(x.rounded_magnitude() as int, y.rounded_magnitude() as int, u as int);
        lemma_nearest_monotone(false, x.rounded_magnitude() * u, y.rounded_magnitude() * u, 1);
    }
    if b <= a {
        lemma_div_is_ordered((2 * b + u) as int, (2 * a + u) as int, (2 * u) as int);
        lemma_mul_inequality(y.rounded_magnitude() as int, x.rounded_magnitude() as int, u as int);
        lemma_nearest_monotone(true, y.rounded_magnitude() * u, x.rounded_magnitude() * u, 1);
    }
    if y.negative && !x.negative {
        lemma_fundamental_div_mod_converse(u as int, (2 * u) as int, 0, u as int);
        assert(0 * u == 0);
        lemma_zero(true, 1);
        lemma_zero(false, 1);
    }
    let p = x.round().magnitude();
    let q = y.round().magnitude();
    if p <= q {
        lemma_div_is_ordered(p as int, q as int, u as int);
    }
    if q <= p {
        lemma_div_is_ordered(q as int, p as int, u as int);
    }
    lemma_div_of0(u as int);
    lemma_div_pos_is_pos(p as int, u as int);
    lemma_div_pos_is_pos(q as int, u as int);
}

/// A warmer number of degrees Celsius never converts to fewer degrees Fahrenheit.
pub proof fn warmer_stays_warmer(x: Real, y: Real)
    requires
        x.units() <= y.units(),
    ensures
        whole_fahrenheit(x) <= whole_fahrenheit(y),
{
    lemma_times_monotone(x, y, 9);
    lemma_over_monotone(x.times(9), y.times(9), 5);
    lemma_plus_monotone(x.times(9).over(5), y.times(9).over(5), 32);
    lemma_round_monotone(x.times(9).over(5).plus(32), y.times(9).over(5).plus(32));
}

/// How far rounding takes the degrees Fahrenheit of a number below `2^49` and a little.
proof fn lemma_small_fahrenheit(c: Real)
    requires
        c.magnitude() <= 0x2_0000_0000_0010 * one(),
    ensures
        8 * distance(
            5 * c.times(9).over(5).plus(32).units(),
            9 * c.units() + 160 * one(),
        ) <= 9 * one(),
        c.times(9).over(5).plus(32).magnitude() <= 0x8_0000_0000_0000 * one(),
{
    let u = one() as int;
    lemma_last_places();
    let y = c.times(9);
    let z = y.over(5);
    lemma_times_close(c, 9, 1074);
    assert(2 * distance(y.units(), 9 * c.units()) <= u);
    lemma_over_close(y, 5, 1071);
    assert(16 * distance(5 * z.units(), y.units()) <= 5 * u);
    assert(distance(z.units(), 0) <= 0x3_f000_0000_0000 * u);
    lemma_plus_close(z, 32, 1071);
}

/// The last places of numbers below `2^50` and `2^53`.
proof fn lemma_last_places()
    ensures
        one() > 0,
        pow2(1127) == 0x20_0000_0000_0000 * one(),
        pow2(1124) == 0x4_0000_0000_0000 * one(),
        2 * error(1074) == one(),
        16 * error(1071) == one(),
{
    lemma_pow2_pos(1074);
    lemma2_to64();
    lemma2_to64_rest();
    lemma_pow2_adds(53, 1074);
    lemma_pow2_adds(50, 1074);
    lemma_pow2_adds(1, 1073);
    lemma_pow2_adds(4, 1070);
}

/// Below `2^49` the errors of all operations together are too small to bring two numbers, two
/// degrees Celsius apart, within less than three degrees Fahrenheit.
proof fn lemma_small_apart(x: Real, y: Real)
    requires
        x.magnitude() <= 0x2_0000_0000_0010 * one(),
        y.magnitude() <= 0x2_0000_0000_0010 * one(),
        16 * (y.units() - x.units()) >= 31 * one(),
    ensures
        whole_fahrenheit(y) >= whole_fahrenheit(x) + 3,
        f10_of(x) == 10 * whole_fahrenheit(x),
        f10_of(y) == 10 * whole_fahrenheit(y),
{
    let u = one() as int;
    lemma_pow2_pos(1074);
    lemma_small_fahrenheit(x);
    lemma_small_fahrenheit(y);
    lemma_whole_fahrenheit(x);
    lemma_whole_fahrenheit(y);
    let gap = whole_fahrenheit(y) - whole_fahrenheit(x);
    assert(gap * u == whole_fahrenheit(y) * u - whole_fahrenheit(x) * u) by (nonlinear_arith)
        requires
            gap == whole_fahrenheit(y) - whole_fahrenheit(x),
    ;
    assert(gap > 2) by (nonlinear_arith)
        requires
            gap * u > 2 * u,
            u > 0,
    ;
}

/// An eighth, counted in units.
spec fn eighth() -> nat {
    pow2(1071)
}

proof fn lemma_eighth()
    ensures
        one() == 8 * eighth(),
        eighth() > 0,
        pow2(52) == 0x10_0000_0000_0000,
        pow2(53) == 0x20_0000_0000_0000,
{
    lemma2_to64();
    lemma2_to64_rest();
    lemma_pow2_adds(3, 1071);
    lemma_pow2_pos(1071);
}

/// The nearest multiple of a last place.
proof fn lemma_near(n: nat, den: nat, step: nat)
    requires
        den > 0,
        step > 0,
        0x10_0000_0000_0000 * (den * step) <= n < 0x20_0000_0000_0000 * (den * step),
    ensures
        near(n as int, den as int, (nearest_even(n, den * step) * step) as int, step as int),
{
    reveal(near);
    let d = den * step;
    let q = n / d;
    let m = nearest_even(n, d);
    let r = m * step;
    lemma_mul_strictly_positive(den as int, step as int);
    lemma_fundamental_div_mod(n as int, d as int);
    lemma_mod_bound(n as int, d as int);
    assert(den * r == d * m) by (nonlinear_arith)
        requires
            r == m * step,
            d == den * step,
    ;
    assert(d * (q + 1) == d * q + d) by (nonlinear_arith);
    lemma_mod_multiples_basic(m as int, step as int);
    if m % 2 == 0 {
        let h = m / 2;
        assert(r == h * (2 * step)) by (nonlinear_arith)
            requires
                r == m * step,
                m == 2 * h,
        ;
        lemma_mod_multiples_basic(h as int, (2 * step) as int);
    }
}

/// A quotient of eighths, rounded, is eighths again.
proof fn lemma_eighths(negative: bool, n: nat, den: nat, limit: nat) -> (r: nat)
    requires
        den > 0,
        0x10_0000_0000_0000 * den <= n,
        n < den * pow2(53 + limit),
        limit <= 6,
    ensures
        nearest(negative, n * eighth(), den).magnitude() == r * eighth(),
        limit == 6 && den == 1 ==> rounds(n as int, r as int),
        limit == 3 && den == 5 ==> rounds_fifth(n as int, r as int),
{
    let u = eighth();
    let num = n * u;
    let e = grain(num, den);
    lemma_eighth();
    lemma_grain_fits(num, den);
    lemma_significand(num, den);
    assert(e >= 1071) by {
        if e < 1071 {
            if 53 + e < 1123 {
                lemma_pow2_strictly_increases(53 + e, 1123);
            }
            lemma_pow2_adds(52, 1071);
            lemma_mul_inequality((0x10_0000_0000_0000 * den) as int, n as int, u as int);
            assert((0x10_0000_0000_0000 * den) * u == den * pow2(1123)) by (nonlinear_arith)
                requires
                    pow2(1123) == 0x10_0000_0000_0000 * u,
            ;
            lemma_mul_inequality(pow2(53 + e) as int, pow2(1123) as int, den as int);
            lemma_mul_is_commutative(pow2(53 + e) as int, den as int);
            lemma_mul_is_commutative(pow2(1123) as int, den as int);
        }
    }
    let k = (e - 1071) as nat;
    assert(k <= limit) by {
        if k > limit {
            lemma_pow2_adds(53 + limit, 1071);
            lemma_mul_strict_inequality(n as int, (den * pow2(53 + limit)) as int, u as int);
            lemma_mul_is_associative(den as int, pow2(53 + limit) as int, u as int);
            if 53 + limit + 1071 < 52 + e {
                lemma_pow2_strictly_increases(53 + limit + 1071, 52 + e);
            }
            lemma_mul_inequality(pow2(53 + limit + 1071) as int, pow2(52 + e) as int, den as int);
            lemma_mul_is_commutative(pow2(53 + limit + 1071) as int, den as int);
            lemma_mul_is_commutative(pow2(52 + e) as int, den as int);
        }
    }
    let step = pow2(k);
    lemma_pow2_pos(k);
    lemma_pow2_adds(k, 1071);
    let d = den * step;
    lemma_mul_strictly_positive(den as int, step as int);
    lemma_mul_is_associative(den as int, step as int, u as int);
    lemma_nearest_even_scaled(n, d, u);
    let m = nearest_even(n, d);
    lemma_mul_is_associative(m as int, step as int, u as int);
    lemma_pow2_adds(53, e);
    lemma_pow2_adds(52, e);
    assert(n < 0x20_0000_0000_0000 * d) by (nonlinear_arith)
        requires
            n * u < den * (0x20_0000_0000_0000 * (step * u)),
            d == den * step,
            u > 0,
    ;
    assert(0x10_0000_0000_0000 * d <= n) by (nonlinear_arith)
        requires
            n * u >= den * (0x10_0000_0000_0000 * (step * u)),
            d == den * step,
            u > 0,
    ;
    lemma_near(n, den, step);
    lemma2_to64();
    assert(k == 0 || k == 1 || k == 2 || k == 3 || k == 4 || k == 5 || k == 6);
    reveal(rounds);
    reveal(rounds_fifth);
    m * step
}

/// The eighths that a large number goes through on its way to Fahrenheit.
struct Way {
    ninefold: int,
    fifth: int,
    degrees: int,
}

/// What 32 degrees are to the magnitude of a number, in eighths.
spec fn shift(negative: bool) -> int {
    if negative {
        -256
    } else {
        256
    }
}

spec fn is_way(negative: bool, n: int, way: Way) -> bool {
    &&& rounds(9 * n, way.ninefold)
    &&& rounds_fifth(way.ninefold, way.fifth)
    &&& rounds(way.fifth + shift(negative), way.degrees)
}

/// The way of a number of at least `2^49`, while its degrees Fahrenheit are below `2^53`.
proof fn lemma_way(x: Real, n: nat) -> (way: Way)
    requires
        x.magnitude() == n * eighth(),
        0x10_0000_0000_0000 <= n,
        9 * n + 1410 <= 0x500_0000_0000_0000,
    ensures
        is_way(x.negative, n as int, way),
        whole_fahrenheit(x) == (if x.negative {
            -((way.degrees + 4) / 8)
        } else {
            (way.degrees + 4) / 8
        }),
        f10_of(x) == 10 * whole_fahrenheit(x),
        -0x20_0000_0000_0000 < whole_fahrenheit(x) < 0x20_0000_0000_0000,
{
    let u = eighth();
    lemma_eighth();
    lemma2_to64();
    lemma2_to64_rest();
    let y1 = x.times(9);
    let y2 = y1.over(5);
    let y3 = y2.plus(32);
    assert(n * u * 9 == (9 * n) * u) by (nonlinear_arith);
    let a = lemma_eighths(x.negative, 9 * n, 1, 6);
    lemma_rounded((9 * n) as int, a as int);
    lemma_pow2_adds(53, 3);
    let c = lemma_eighths(x.negative, a, 5, 3);
    lemma_rounded_fifth(a as int, c as int);
    let k = (c + shift(x.negative)) as nat;
    assert(k * u == c * u + shift(x.negative) * u) by (nonlinear_arith)
        requires
            k == c + shift(x.negative),
    ;
    assert(k * u > 0) by (nonlinear_arith)
        requires
            k > 0,
            u > 0,
    ;
    let e = lemma_eighths(x.negative, k, 1, 6);
    lemma_rounded(k as int, e as int);
    assert(y3.magnitude() == e * u);
    assert(y3.negative == x.negative);
    let w = ((e + 4) / 8) as nat;
    assert(2 * (e * u) + 8 * u == (2 * e + 8) * u) by (nonlinear_arith);
    assert(y3.rounded_magnitude() == w) by {
        let rest = (e + 4) % 8;
        assert(2 * (e * u) + 8 * u == w * (16 * u) + (2 * rest) * u) by (nonlinear_arith)
            requires
                e + 4 == 8 * w + rest,
        ;
        assert(0 <= (2 * rest) * u < 16 * u) by (nonlinear_arith)
            requires
                0 <= rest < 8,
                u > 0,
        ;
        lemma_fundamental_div_mod_converse(
            (2 * (e * u) + 8 * u) as int,
            (16 * u) as int,
            w as int,
            ((2 * rest) * u) as int,
        );
    }
    lemma_whole_is_exact(y3.negative, w);
    lemma_div_by_multiple(w as int, one() as int);
    Way { ninefold: a as int, fifth: c as int, degrees: e as int }
}

/// A large double, in eighths.
proof fn lemma_large(c: Real) -> (n: nat)
    requires
        c.is_double(),
        c.magnitude() >= 0x2_0000_0000_0004 * one(),
        9 * c.magnitude() + 200 * one() <= 0xa0_0000_0000_0000 * one(),
    ensures
        c.magnitude() == n * eighth(),
        0x10_0000_0000_0020 <= n,
        9 * n + 1600 <= 0x500_0000_0000_0000,
        rounds(n as int, n as int),
{
    let u = eighth();
    lemma_eighth();
    lemma2_to64();
    assert(c.exponent >= 1071) by {
        if c.exponent < 1071 {
            lemma_pow2_adds(53, c.exponent);
            lemma_pow2_pos(c.exponent);
            lemma_mul_strict_inequality(c.mantissa as int, pow2(53) as int, pow2(c.exponent) as int);
            if 53 + c.exponent < 1123 {
                lemma_pow2_strictly_increases(53 + c.exponent, 1123);
            }
            lemma_pow2_adds(52, 1071);
        }
    }
    let k = (c.exponent - 1071) as nat;
    let step = pow2(k);
    lemma_pow2_adds(k, 1071);
    lemma_pow2_pos(k);
    let n = c.mantissa * step;
    lemma_mul_is_associative(c.mantissa as int, step as int, u as int);
    assert(n * u == c.magnitude());
    assert(0x10_0000_0000_0020 <= n) by (nonlinear_arith)
        requires
            n * u >= 0x10_0000_0000_0020 * u,
            u > 0,
    ;
    assert(9 * n + 1600 <= 0x500_0000_0000_0000) by (nonlinear_arith)
        requires
            9 * (n * u) + 1600 * u <= 0x500_0000_0000_0000 * u,
            u > 0,
    ;
    assert(k <= 3) by {
        if k > 3 {
            if k > 4 {
                lemma_pow2_strictly_increases(4, k);
            }
            assert(n >= 0x10_0000_0000_0000 * 16) by (nonlinear_arith)
                requires
                    n == c.mantissa * step,
                    c.mantissa >= 0x10_0000_0000_0000,
                    step >= 16,
            ;
        }
    }
    assert(near(n as int, 1, n as int, step as int)) by {
        reveal(near);
        lemma_mod_multiples_basic(c.mantissa as int, step as int);
        assert(0x10_0000_0000_0000 * step <= n < 0x20_0000_0000_0000 * step) by (nonlinear_arith)
            requires
                n == c.mantissa * step,
                0x10_0000_0000_0000 <= c.mantissa < 0x20_0000_0000_0000,
                step > 0,
        ;
    }
    assert(k == 0 || k == 1 || k == 2 || k == 3);
    reveal(rounds);
    n
}

/// The degrees Fahrenheit of a large number and of two degrees Celsius more or less.
proof fn lemma_large_apart(c: Real, up: bool)
    requires
        c.is_double(),
        c.magnitude() >= 0x2_0000_0000_0004 * one(),
        9 * c.magnitude() + 200 * one() <= 0xa0_0000_0000_0000 * one(),
    ensures
        ({
            let o = c.plus(if up { 2 } else { -2 });
            &&& up ==> whole_fahrenheit(o) >= whole_fahrenheit(c) + 3
            &&& !up ==> whole_fahrenheit(c) >= whole_fahrenheit(o) + 3
            &&& f10_of(o) == 10 * whole_fahrenheit(o)
            &&& f10_of(c) == 10 * whole_fahrenheit(c)
        }),
{
    let u = eighth();
    let step: int = if up {
        2
    } else {
        -2
    };
    let o = c.plus(step);
    lemma_eighth();
    lemma2_to64();
    lemma2_to64_rest();
    lemma_pow2_adds(53, 6);
    let n = lemma_large(c);
    // Away from zero or towards it.
    let away = up != c.negative;
    let two: int = if away {
        16
    } else {
        -16
    };
    let k = (n + two) as nat;
    assert(k * u == n * u + two * u) by (nonlinear_arith)
        requires
            k == n + two,
    ;
    assert(k * u > 0) by (nonlinear_arith)
        requires
            k > 0,
            u > 0,
    ;
    let m = lemma_eighths(c.negative, k, 1, 6);
    lemma_rounded(k as int, m as int);
    assert(c.units() + step * one() == (if c.negative { -(k * u) } else { (k * u) as int })) by {
        assert(two * u == (if away { 16 * u as int } else { -16 * u }));
        assert(step * one() == (if up { 16 * u as int } else { -16 * u })) by (nonlinear_arith)
            requires
                one() == 8 * u,
                step == (if up { 2int } else { -2 }),
        ;
    }
    assert(o.magnitude() == m * u && o.negative == c.negative);
    let v = lemma_way(c, n);
    let w = lemma_way(o, m);
    if away {
        lemma_three_degrees_apart(
            n as int,
            m as int,
            v.ninefold,
            w.ninefold,
            v.fifth,
            w.fifth,
            shift(c.negative),
            v.degrees,
            w.degrees,
        );
    } else {
        lemma_three_degrees_apart(
            m as int,
            n as int,
            w.ninefold,
            v.ninefold,
            w.fifth,
            v.fifth,
            shift(c.negative),
            w.degrees,
            v.degrees,
        );
    }
}

/// Two degrees Celsius are at least three whole degrees Fahrenheit, as long as those are below
/// `2^53`, where doubles no longer hold every whole number.
proof fn lemma_apart(c: Real, up: bool)
    requires
        c.is_double(),
        9 * c.magnitude() + 200 * one() <= 0xa0_0000_0000_0000 * one(),
    ensures
        ({
            let o = c.plus(if up { 2 } else { -2 });
            &&& up ==> whole_fahrenheit(o) >= whole_fahrenheit(c) + 3
            &&& !up ==> whole_fahrenheit(c) >= whole_fahrenheit(o) + 3
            &&& f10_of(o) == 10 * whole_fahrenheit(o)
            &&& f10_of(c) == 10 * whole_fahrenheit(c)
        }),
{
    if c.magnitude() >= 0x2_0000_0000_0004 * one() {
        lemma_large_apart(c, up);
    } else {
        lemma_last_places();
        if up {
            lemma_plus_close(c, 2, 1071);
            lemma_small_apart(c, c.plus(2));
        } else {
            lemma_plus_close(c, -2, 1071);
            lemma_small_apart(c.plus(-2), c);
        }
    }
}

/// Whichever setpoint is set, the two that go out are at least three whole degrees Fahrenheit
/// apart, so that none is rejected for being too close to the other, whatever setpoints were
/// known. The one that is carried over must not be so far out that an `i64` cannot hold its tenths:
/// too warm a cooling setpoint, or too cold a heating one. One that is too close is never carried
/// over. The one that is set has to stay below `2^53` degrees Fahrenheit, past which doubles skip
/// whole degrees.
pub proof fn setpoints_go_out_apart(heating: bool, c: Real, heat: Real, cool: Real)
    requires
        c.is_double(),
        9 * c.magnitude() + 200 * one() <= 0xa0_0000_0000_0000 * one(),
        heating ==> 10 * whole_fahrenheit(cool) <= i64::MAX,
        !heating ==> 10 * whole_fahrenheit(heat) >= i64::MIN,
    ensures
        ({
            let (h, k) = held_apart(heating, c, heat, cool);
            f10_of(k) >= f10_of(h) + 30
        }),
{
    let (h, k) = held_apart(heating, c, heat, cool);
    lemma_apart(c, heating);
    if heating {
        warmer_stays_warmer(c.plus(2), k);
    } else {
        warmer_stays_warmer(h, c.plus(-2));
    }
}

} // verus!
