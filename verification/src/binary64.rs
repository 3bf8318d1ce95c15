//! Double-precision numbers, computed on their bit patterns.
//!
//! Every finite double is a whole multiple of `2^-1074`. A number is therefore modelled by an
//! integer count of that unit, and each operation by the exact quotient of two such integers,
//! rounded once to the nearest 53-bit significand with ties to even.

use vstd::arithmetic::div_mod::*;
use vstd::arithmetic::mul::*;
use vstd::arithmetic::power2::*;
use vstd::prelude::*;

verus! {

/// The largest exponent a finite double has, in this model.
pub const MAX_EXPONENT: u32 = 2045;

/// A sign, a significand and an exponent: the number `mantissa * 2^(exponent - 1074)`.
pub struct Real {
    pub negative: bool,
    pub mantissa: nat,
    pub exponent: nat,
}

/// The number one, counted in units of `2^-1074`.
pub open spec fn one() -> nat {
    pow2(1074)
}

/// The whole number nearest to `num / den`, the even one of two that are equally near.
pub open spec fn nearest_even(num: nat, den: nat) -> nat {
    let quotient = num / den;
    let rest = num % den;
    if 2 * rest < den {
        quotient
    } else if 2 * rest > den {
        quotient + 1
    } else {
        quotient + quotient % 2
    }
}

/// The exponent at which `num / den` fits in 53 bits: how often it has to be halved before it
/// is below `2^53`.
pub open spec fn grain(num: nat, den: nat) -> nat
    decreases num,
{
    if den == 0 || num < den * pow2(53) {
        0
    } else {
        proof {
            lemma_pow2_pos(53);
            lemma_mul_strictly_positive(den as int, pow2(53) as int);
        }
        1 + grain(num / 2, den)
    }
}

/// The number nearest to `num / den` units among those with a 53-bit significand.
pub open spec fn nearest(negative: bool, num: nat, den: nat) -> Real {
    let exponent = grain(num, den);
    let mantissa = nearest_even(num, den * pow2(exponent));
    if mantissa == pow2(53) {
        Real { negative, mantissa: pow2(52), exponent: exponent + 1 }
    } else {
        Real { negative, mantissa, exponent }
    }
}

impl Real {
    /// A significand below `2^53`, with its top bit set unless the exponent is the least one.
    pub open spec fn is_rounded(self) -> bool {
        &&& self.mantissa < pow2(53)
        &&& self.exponent > 0 ==> self.mantissa >= pow2(52)
    }

    /// A finite double.
    pub open spec fn is_double(self) -> bool {
        self.is_rounded() && self.exponent <= MAX_EXPONENT
    }

    /// The absolute value, in units.
    pub open spec fn magnitude(self) -> nat {
        self.mantissa * pow2(self.exponent)
    }

    /// The value, in units.
    pub open spec fn units(self) -> int {
        if self.negative {
            -(self.magnitude() as int)
        } else {
            self.magnitude() as int
        }
    }

    /// The number nearest to a whole number.
    pub open spec fn from_int(n: int) -> Real {
        nearest(n < 0, (if n < 0 { -n } else { n }) as nat * one(), 1)
    }

    /// The product with a whole number.
    pub open spec fn times(self, k: nat) -> Real {
        nearest(self.negative, self.magnitude() * k, 1)
    }

    /// The quotient by a whole number.
    pub open spec fn over(self, k: nat) -> Real {
        nearest(self.negative, self.magnitude(), k)
    }

    /// The sum with a whole number other than zero.
    pub open spec fn plus(self, n: int) -> Real {
        let sum = self.units() + n * one();
        nearest(sum < 0, (if sum < 0 { -sum } else { sum }) as nat, 1)
    }

    /// The absolute value rounded to a whole number, halves away from zero.
    pub open spec fn rounded_magnitude(self) -> nat {
        (2 * self.magnitude() + one()) / (2 * one())
    }

    /// The value rounded to a whole number, halves away from zero.
    pub open spec fn round(self) -> Real {
        nearest(self.negative, self.rounded_magnitude() * one(), 1)
    }

    /// The whole part of the value.
    pub open spec fn truncated(self) -> int {
        let whole = (self.magnitude() / one()) as int;
        if self.negative {
            -whole
        } else {
            whole
        }
    }
}

proof fn lemma_grain_double(num: nat, den: nat)
    requires
        den > 0,
        num >= den * pow2(53),
    ensures
        grain(num * 2, den) == 1 + grain(num, den),
{
    assert(num * 2 / 2 == num);
}

proof fn lemma_grain_scaled(num: nat, den: nat, e: nat)
    requires
        den > 0,
        e == 0 || num >= den * pow2(53),
    ensures
        grain(num * pow2(e), den) == e + grain(num, den),
    decreases e,
{
    if e == 0 {
        lemma2_to64();
    } else {
        let f = (e - 1) as nat;
        lemma_grain_scaled(num, den, f);
        lemma_pow2_unfold(e);
        lemma_pow2_pos(f);
        assert(num * pow2(e) == num * pow2(f) * 2) by (nonlinear_arith)
            requires
                pow2(e) == 2 * pow2(f),
        ;
        assert(num * pow2(f) >= num) by (nonlinear_arith)
            requires
                pow2(f) >= 1,
        ;
        lemma_grain_double(num * pow2(f), den);
    }
}

pub(crate) proof fn lemma_nearest_even_scaled(num: nat, den: nat, k: nat)
    requires
        den > 0,
        k > 0,
    ensures
        nearest_even(num * k, den * k) == nearest_even(num, den),
{
    let q = num / den;
    let r = num % den;
    lemma_fundamental_div_mod(num as int, den as int);
    lemma_mod_bound(num as int, den as int);
    lemma_mul_strictly_positive(den as int, k as int);
    assert(num * k == q * (den * k) + r * k) by (nonlinear_arith)
        requires
            num == den * q + r,
    ;
    assert(0 <= r * k < den * k) by (nonlinear_arith)
        requires
            0 <= r < den,
            k > 0,
    ;
    lemma_fundamental_div_mod_converse((num * k) as int, (den * k) as int, q as int, (r * k) as int);
    assert(2 * r < den <==> 2 * (r * k) < den * k) by (nonlinear_arith)
        requires
            k > 0,
    ;
    assert(2 * r > den <==> 2 * (r * k) > den * k) by (nonlinear_arith)
        requires
            k > 0,
    ;
}

/// The exponent of a number is the only one at which it fits in 53 bits and not in 52.
proof fn lemma_grain_is(num: nat, e: nat)
    requires
        num < pow2(53 + e),
        e == 0 || num >= pow2(52 + e),
    ensures
        grain(num, 1) == e,
    decreases e,
{
    if e > 0 {
        lemma_pow2_unfold(53 + e);
        lemma_pow2_unfold(52 + e);
        if e > 1 {
            assert((52 + e - 1) as nat == (51 + e) as nat);
        }
        assert(pow2(52 + e) >= pow2(53)) by {
            if e > 1 {
                lemma_pow2_strictly_increases(53, 52 + e);
            }
        }
        assert(num / 2 < pow2((52 + e) as nat));
        assert(num / 2 >= pow2((51 + e) as nat));
        lemma_grain_is(num / 2, (e - 1) as nat);
    }
}

/// A number rounded to 53 bits, with no ceiling on its exponent.
pub(crate) struct Rounded {
    negative: bool,
    mantissa: u64,
    exponent: u32,
}

impl View for Rounded {
    type V = Real;

    closed spec fn view(&self) -> Real {
        Real {
            negative: self.negative,
            mantissa: self.mantissa as nat,
            exponent: self.exponent as nat,
        }
    }
}

/// A power of two.
fn power(k: u32) -> (p: u128)
    requires
        k <= 126,
    ensures
        p == pow2(k as nat),
        0 < p <= 0x4000_0000_0000_0000_0000_0000_0000_0000,
{
    let mut p: u128 = 1;
    let mut i: u32 = 0;
    proof {
        lemma2_to64();
        lemma_pow2_126();
    }
    while i < k
        invariant
            i <= k <= 126,
            p == pow2(i as nat),
            pow2(126) == 0x4000_0000_0000_0000_0000_0000_0000_0000,
        decreases k - i,
    {
        proof {
            lemma_pow2_unfold((i + 1) as nat);
            lemma_pow2_strictly_increases(i as nat, 126);
        }
        p = p * 2;
        i = i + 1;
    }
    proof {
        lemma_pow2_pos(k as nat);
        if k < 126 {
            lemma_pow2_strictly_increases(k as nat, 126);
        }
    }
    p
}

proof fn lemma_pow2_126()
    ensures
        pow2(126) == 0x4000_0000_0000_0000_0000_0000_0000_0000,
        pow2(52) == 0x10_0000_0000_0000,
        pow2(53) == 0x20_0000_0000_0000,
        pow2(60) == 0x1000_0000_0000_0000,
{
    lemma2_to64_rest();
    lemma_pow2_adds(63, 63);
}

/// Rounds `n * 2^e / d` units.
fn round_ratio(negative: bool, n: u128, d: u128, e: u32) -> (r: Rounded)
    requires
        n < 0x400_0000_0000_0000_0000_0000_0000_0000,
        1 <= d <= 10,
        e <= 100000,
    ensures
        r@ == nearest(negative, n as nat * pow2(e as nat), d as nat),
        r@.is_rounded(),
        r@.exponent <= e + 70,
{
    proof {
        lemma_pow2_126();
        lemma2_to64();
    }
    if n == 0 {
        proof {
            assert(0 * pow2(e as nat) == 0);
            assert(d as nat * pow2(53) > 0) by (nonlinear_arith)
                requires
                    d >= 1,
                    pow2(53) > 0,
            ;
            assert(grain(0, d as nat) == 0);
            lemma_mul_basics(d as int);
            lemma_small_mod(0, d as nat);
            lemma_div_of0(d as int);
        }
        return Rounded { negative, mantissa: 0, exponent: 0 };
    }
    let up: u32 = if n >= 0x1000_0000_0000_0000 {
        0
    } else if e < 60 {
        e
    } else {
        60
    };
    let scale: u128 = power(up);
    proof {
        if n < 0x1000_0000_0000_0000 {
            assert(scale <= 0x1000_0000_0000_0000) by {
                if up < 60 {
                    lemma_pow2_strictly_increases(up as nat, 60);
                }
            }
            assert(n * scale <= 0x1000_0000_0000_0000 * 0x1000_0000_0000_0000) by (nonlinear_arith)
                requires
                    0 <= n <= 0x1000_0000_0000_0000,
                    0 <= scale <= 0x1000_0000_0000_0000,
            ;
        } else {
            lemma_mul_basics(n as int);
        }
        assert(n * scale >= scale) by (nonlinear_arith)
            requires
                n >= 1,
                scale >= 0,
        ;
    }
    let scaled: u128 = n * scale;
    let low: u32 = e - up;
    let limit: u128 = d * 0x20_0000_0000_0000;
    let mut t: u128 = scaled;
    let mut s: u32 = 0;
    let mut p: u128 = 1;
    proof {
        assert(low > 0 ==> scaled >= 0x1000_0000_0000_0000);
        lemma_div_basics(scaled as int);
    }
    while t >= limit
        invariant
            limit == d * 0x20_0000_0000_0000,
            1 <= d <= 10,
            scaled < 0x400_0000_0000_0000_0000_0000_0000_0000,
            pow2(53) == 0x20_0000_0000_0000,
            p == pow2(s as nat),
            s <= 69,
            0 < p,
            t * p <= scaled,
            scaled < (t + 1) * p,
            s > 0 ==> t >= d * 0x10_0000_0000_0000,
            grain(scaled as nat, d as nat) == s + grain(t as nat, d as nat),
        decreases t,
    {
        proof {
            lemma_pow2_unfold((s + 1) as nat);
            assert(0x20_0000_0000_0000 * p <= scaled) by (nonlinear_arith)
                requires
                    t >= 0x20_0000_0000_0000,
                    t * p <= scaled,
                    p > 0,
            ;
            if s == 69 {
                lemma_pow2_69();
            }
            let h: int = (t / 2) as int;
            assert(h * (2 * p) <= scaled && scaled < (h + 1) * (2 * p)) by (nonlinear_arith)
                requires
                    t * p <= scaled,
                    scaled < (t + 1) * p,
                    2 * h <= t <= 2 * h + 1,
                    p > 0,
            ;
        }
        t = t / 2;
        s = s + 1;
        p = p * 2;
    }
    proof {
        lemma_pow2_69();
        if s < 69 {
            lemma_pow2_strictly_increases(s as nat, 69);
        }
        assert(0 < d * p <= 10 * 0x20_0000_0000_0000_0000) by (nonlinear_arith)
            requires
                1 <= d <= 10,
                0 < p <= 0x20_0000_0000_0000_0000,
        ;
    }
    let unit: u128 = d * p;
    let quotient: u128 = scaled / unit;
    let rest: u128 = scaled % unit;
    proof {
        assert(unit > 0 && scaled < 0x20_0000_0000_0000 * unit) by (nonlinear_arith)
            requires
                scaled < (t + 1) * p,
                t + 1 <= d * 0x20_0000_0000_0000,
                unit == d * p,
                d >= 1,
                p > 0,
        ;
        lemma_fundamental_div_mod(scaled as int, unit as int);
        lemma_mod_bound(scaled as int, unit as int);
        assert(quotient < 0x20_0000_0000_0000) by (nonlinear_arith)
            requires
                scaled < 0x20_0000_0000_0000 * unit,
                scaled == unit * quotient + rest,
                rest >= 0,
                unit > 0,
        ;
        if s > 0 {
            assert(quotient >= 0x10_0000_0000_0000) by (nonlinear_arith)
                requires
                    t >= d * 0x10_0000_0000_0000,
                    t * p <= scaled,
                    unit == d * p,
                    scaled == unit * quotient + rest,
                    rest < unit,
                    unit > 0,
                    p > 0,
            ;
        }
        assert(n as nat * pow2(e as nat) == scaled as nat * pow2(low as nat)) by {
            lemma_pow2_adds(up as nat, low as nat);
            lemma_mul_is_associative(n as int, pow2(up as nat) as int, pow2(low as nat) as int);
        }
        lemma_grain_scaled(scaled as nat, d as nat, low as nat);
        assert(d as nat * pow2((low + s) as nat) == unit as nat * pow2(low as nat)) by {
            lemma_pow2_adds(s as nat, low as nat);
            lemma_mul_is_associative(d as int, pow2(s as nat) as int, pow2(low as nat) as int);
        }
        lemma_pow2_pos(low as nat);
        lemma_nearest_even_scaled(scaled as nat, unit as nat, pow2(low as nat));
    }
    let mantissa: u128 = if 2 * rest < unit {
        quotient
    } else if 2 * rest > unit {
        quotient + 1
    } else {
        quotient + quotient % 2
    };
    if mantissa == 0x20_0000_0000_0000 {
        Rounded { negative, mantissa: 0x10_0000_0000_0000, exponent: low + s + 1 }
    } else {
        Rounded { negative, mantissa: mantissa as u64, exponent: low + s }
    }
}

proof fn lemma_pow2_69()
    ensures
        pow2(69) == 0x20_0000_0000_0000_0000,
{
    lemma2_to64();
    lemma2_to64_rest();
    lemma_pow2_adds(64, 5);
}

/// Adding or taking away less than a quarter of the last place changes nothing.
proof fn lemma_absorbs(negative: bool, m: nat, e: nat, delta: nat)
    requires
        pow2(52) <= m < pow2(53),
        e >= 2,
        4 * delta < pow2(e),
    ensures
        nearest(negative, m * pow2(e) + delta, 1) == (Real { negative, mantissa: m, exponent: e }),
        nearest(negative, (m * pow2(e) - delta) as nat, 1) == (Real {
            negative,
            mantissa: m,
            exponent: e,
        }),
{
    let p = pow2(e);
    let half = pow2((e - 1) as nat);
    lemma_pow2_126();
    lemma_pow2_unfold(e);
    lemma_pow2_adds(53, e);
    lemma_pow2_adds(52, e);
    lemma_pow2_adds(53, (e - 1) as nat);
    lemma_pow2_adds(52, (e - 1) as nat);
    assert(m * p + delta < pow2(53) * p && m * p + delta >= pow2(52) * p) by (nonlinear_arith)
        requires
            pow2(52) <= m,
            m + 1 <= pow2(53),
            0 <= delta,
            4 * delta < p,
            p > 0,
    ;
    lemma_grain_is(m * p + delta, e);
    lemma_fundamental_div_mod_converse((m * p + delta) as int, p as int, m as int, delta as int);
    if delta == 0 {
    } else if m > pow2(52) {
        let num = (m * p - delta) as nat;
        assert(num < pow2(53) * p && num >= pow2(52) * p) by (nonlinear_arith)
            requires
                num == m * p - delta,
                pow2(52) + 1 <= m,
                m + 1 <= pow2(53),
                0 <= delta,
                4 * delta < p,
                p > 0,
        ;
        lemma_grain_is(num, e);
        assert(num == (m - 1) * p + (p - delta)) by (nonlinear_arith)
            requires
                num == m * p - delta,
        ;
        lemma_fundamental_div_mod_converse(num as int, p as int, m - 1, p - delta);
    } else {
        let num = (m * p - delta) as nat;
        assert(m * p == pow2(53) * half) by (nonlinear_arith)
            requires
                m == 0x10_0000_0000_0000,
                pow2(53) == 0x20_0000_0000_0000,
                p == 2 * half,
        ;
        assert(num < pow2(53) * half && num >= pow2(52) * half) by (nonlinear_arith)
            requires
                num == pow2(53) * half - delta,
                pow2(52) == 0x10_0000_0000_0000,
                pow2(53) == 0x20_0000_0000_0000,
                0 < delta,
                2 * delta < half,
        ;
        lemma_grain_is(num, (e - 1) as nat);
        assert(num == (pow2(53) - 1) * half + (half - delta)) by (nonlinear_arith)
            requires
                num == pow2(53) * half - delta,
        ;
        lemma_fundamental_div_mod_converse(num as int, half as int, pow2(53) - 1, half - delta);
    }
}

impl Rounded {
    /// The number nearest to a whole number.
    pub(crate) fn from_whole(negative: bool, n: u64) -> (r: Rounded)
        ensures
            r@ == nearest(negative, n as nat * one(), 1),
            r@.is_rounded(),
            r@.exponent <= 1144,
    {
        round_ratio(negative, n as u128, 1, 1074)
    }

    /// The number nearest to an integer.
    pub(crate) fn from_i64(n: i64) -> (r: Rounded)
        ensures
            r@ == Real::from_int(n as int),
            r@.is_rounded(),
            r@.exponent <= 1144,
    {
        if n < 0 {
            Rounded::from_whole(true, (-(n as i128)) as u64)
        } else {
            Rounded::from_whole(false, n as u64)
        }
    }

    /// The product with a small whole number.
    pub(crate) fn times(&self, k: u64) -> (r: Rounded)
        requires
            self@.is_rounded(),
            self@.exponent <= 10000,
            k <= 10,
        ensures
            r@ == self@.times(k as nat),
            r@.is_rounded(),
            r@.exponent <= self@.exponent + 70,
    {
        proof {
            lemma_pow2_126();
            assert(self.mantissa * k <= 0x20_0000_0000_0000 * 10) by (nonlinear_arith)
                requires
                    0 <= self.mantissa <= 0x20_0000_0000_0000,
                    0 <= k <= 10,
            ;
            assert((self.mantissa * k) as nat * pow2(self.exponent as nat) == self@.magnitude()
                * k as nat) by (nonlinear_arith)
                requires
                    self@.magnitude() == self.mantissa as nat * pow2(self.exponent as nat),
            ;
        }
        round_ratio(self.negative, (self.mantissa * k) as u128, 1, self.exponent)
    }

    /// The quotient by a small whole number.
    pub(crate) fn over(&self, k: u64) -> (r: Rounded)
        requires
            self@.is_rounded(),
            self@.exponent <= 10000,
            1 <= k <= 10,
        ensures
            r@ == self@.over(k as nat),
            r@.is_rounded(),
            r@.exponent <= self@.exponent + 70,
    {
        proof {
            lemma_pow2_126();
        }
        round_ratio(self.negative, self.mantissa as u128, k as u128, self.exponent)
    }

    /// The sum with `2^j`, or the difference where `minus` is set.
    pub(crate) fn plus(&self, minus: bool, j: u32) -> (r: Rounded)
        requires
            self@.is_rounded(),
            self@.exponent <= 10000,
            j <= 5,
        ensures
            r@ == self@.plus(if minus { -(pow2(j as nat) as int) } else { pow2(j as nat) as int }),
            r@.is_rounded(),
            r@.exponent <= self@.exponent || r@.exponent <= 1214,
    {
        let ghost k: int = if minus { -(pow2(j as nat) as int) } else { pow2(j as nat) as int };
        let ghost sum: int = self@.units() + k * one();
        let ghost far: nat = pow2((j + 1074) as nat);
        proof {
            lemma_pow2_126();
            lemma_pow2_adds(j as nat, 1074);
            lemma_pow2_pos(self.exponent as nat);
            lemma_pow2_pos(j as nat);
            lemma_pow2_pos(1074);
            assert(k * one() == (if minus { -(far as int) } else { far as int })) by (nonlinear_arith)
                requires
                    k == (if minus { -(pow2(j as nat) as int) } else { pow2(j as nat) as int }),
                    far == pow2(j as nat) * one(),
            ;
        }
        if self.exponent < 960 {
            proof {
                // The addend is far larger: the number is less than a quarter of its last place.
                let e: nat = (1022 + j) as nat;
                lemma_pow2_adds(52, e);
                lemma_pow2_adds(53, self.exponent as nat);
                lemma_mul_strict_inequality(self.mantissa as int, pow2(53) as int, pow2(self.exponent as nat) as int);
                lemma_pow2_adds(2, (53 + self.exponent) as nat);
                lemma2_to64();
                lemma_pow2_strictly_increases((55 + self.exponent) as nat, e);
                lemma_absorbs(minus, pow2(52), e, self@.magnitude());
            }
            return Rounded { negative: minus, mantissa: 0x10_0000_0000_0000, exponent: 1022 + j };
        }
        if self.exponent > 1134 {
            proof {
                // The number is far larger: the addend is less than a quarter of its last place.
                lemma_pow2_adds(2, (j + 1074) as nat);
                lemma2_to64();
                lemma_pow2_strictly_increases((j + 1076) as nat, self.exponent as nat);
                lemma_absorbs(self.negative, self.mantissa as nat, self.exponent as nat, far);
                assert(self@.magnitude() >= pow2(self.exponent as nat)) by (nonlinear_arith)
                    requires
                        self@.magnitude() == self.mantissa as nat * pow2(self.exponent as nat),
                        self.mantissa >= 1,
                ;
            }
            return Rounded {
                negative: self.negative,
                mantissa: self.mantissa,
                exponent: self.exponent,
            };
        }
        let base: u32 = if self.exponent <= 1074 {
            self.exponent
        } else {
            1074
        };
        let p: u128 = power(self.exponent - base);
        let q: u128 = power(1074 - base + j);
        proof {
            lemma_pow2_bound((self.exponent - base) as nat, 60);
            lemma_pow2_bound((1074 - base + j) as nat, 119);
            assert(self.mantissa * p <= 0x20_0000_0000_0000 * 0x1000_0000_0000_0000) by (nonlinear_arith)
                requires
                    0 <= self.mantissa <= 0x20_0000_0000_0000,
                    0 <= p <= 0x1000_0000_0000_0000,
            ;
        }
        let a: i128 = (self.mantissa as u128 * p) as i128;
        let b: i128 = q as i128;
        let x: i128 = if self.negative {
            -a
        } else {
            a
        };
        let y: i128 = if minus {
            -b
        } else {
            b
        };
        let total: i128 = x + y;
        let n: u128 = if total < 0 {
            (-total) as u128
        } else {
            total as u128
        };
        proof {
            let u = pow2(base as nat);
            lemma_pow2_pos(base as nat);
            lemma_pow2_adds((self.exponent - base) as nat, base as nat);
            lemma_pow2_adds((1074 - base + j) as nat, base as nat);
            assert(a * u == self@.magnitude()) by (nonlinear_arith)
                requires
                    a == self.mantissa * p,
                    self@.magnitude() == self.mantissa * (p * u),
            ;
            assert(b * u == far);
            assert(x * u == self@.units()) by (nonlinear_arith)
                requires
                    x == (if self.negative { -a } else { a as int }),
                    self@.units() == (if self.negative { -(a * u) } else { a * u }),
            ;
            assert(y * u == k * one()) by (nonlinear_arith)
                requires
                    y == (if minus { -b } else { b as int }),
                    k * one() == (if minus { -(b * u) } else { b * u }),
            ;
            assert(total * u == sum) by (nonlinear_arith)
                requires
                    total == x + y,
                    x * u + y * u == sum,
            ;
            assert(total < 0 <==> sum < 0) by (nonlinear_arith)
                requires
                    total * u == sum,
                    u > 0,
            ;
            assert(n * u == (if sum < 0 { -sum } else { sum })) by (nonlinear_arith)
                requires
                    total * u == sum,
                    n == (if total < 0 { -total } else { total as int }),
                    total < 0 <==> sum < 0,
            ;
        }
        round_ratio(total < 0, n, 1, base)
    }

    /// The nearest whole number, halves away from zero.
    pub(crate) fn round(&self) -> (r: Rounded)
        requires
            self@.is_rounded(),
            self@.exponent <= 10000,
        ensures
            r@ == self@.round(),
            r@.is_rounded(),
            r@.exponent <= self@.exponent || r@.exponent <= 1144,
    {
        let ghost mag: nat = self@.magnitude();
        proof {
            lemma_pow2_126();
            lemma2_to64();
            lemma_pow2_pos(1074);
        }
        if self.exponent >= 1074 {
            proof {
                let d: nat = (self.exponent - 1074) as nat;
                let whole: nat = self.mantissa as nat * pow2(d);
                lemma_pow2_adds(d, 1074);
                lemma_mul_is_associative(self.mantissa as int, pow2(d) as int, one() as int);
                assert(2 * mag + one() == whole * (2 * one()) + one()) by (nonlinear_arith)
                    requires
                        mag == whole * one(),
                ;
                lemma_fundamental_div_mod_converse(
                    (2 * mag + one()) as int,
                    (2 * one()) as int,
                    whole as int,
                    one() as int,
                );
                lemma_pow2_bound_below(self.exponent as nat);
                lemma_absorbs(self.negative, self.mantissa as nat, self.exponent as nat, 0);
            }
            return Rounded {
                negative: self.negative,
                mantissa: self.mantissa,
                exponent: self.exponent,
            };
        }
        let d: u32 = 1074 - self.exponent;
        let q: u128 = if d > 60 {
            0
        } else {
            let p: u128 = power(d);
            proof {
                lemma_pow2_bound(d as nat, 60);
            }
            (2 * self.mantissa as u128 + p) / (2 * p)
        };
        proof {
            let p = pow2(d as nat);
            let u = pow2(self.exponent as nat);
            lemma_pow2_pos(d as nat);
            lemma_pow2_pos(self.exponent as nat);
            lemma_pow2_adds(d as nat, self.exponent as nat);
            assert(2 * mag + one() == (2 * self.mantissa + p) * u) by (nonlinear_arith)
                requires
                    mag == self.mantissa * u,
                    one() == p * u,
            ;
            assert(2 * one() == (2 * p) * u) by (nonlinear_arith)
                requires
                    one() == p * u,
            ;
            lemma_quotient_scaled((2 * self.mantissa + p) as nat, 2 * p, u);
            if d > 60 {
                lemma_pow2_strictly_increases(60, d as nat);
                lemma_fundamental_div_mod_converse(
                    2 * self.mantissa + p,
                    (2 * p) as int,
                    0,
                    2 * self.mantissa + p,
                );
            }
        }
        round_ratio(self.negative, q, 1, 1074)
    }

    /// The whole part, held within the range of an `i64`.
    pub(crate) fn to_i64(&self) -> (n: i64)
        requires
            self@.is_rounded(),
        ensures
            n == clamp_i64(self@.truncated()),
    {
        proof {
            lemma_pow2_126();
            lemma2_to64();
            lemma_pow2_pos(1074);
            lemma_pow2_pos(self.exponent as nat);
        }
        let whole: u128 = if self.exponent >= 1074 {
            let d: u32 = self.exponent - 1074;
            proof {
                lemma_pow2_adds(d as nat, 1074);
                lemma_mul_is_associative(self.mantissa as int, pow2(d as nat) as int, one() as int);
                lemma_div_by_multiple((self.mantissa * pow2(d as nat)) as int, one() as int);
            }
            if d > 11 {
                proof {
                    lemma_pow2_strictly_increases(11, d as nat);
                    assert(self.mantissa * pow2(d as nat) >= 0x10_0000_0000_0000 * 0x800) by (nonlinear_arith)
                        requires
                            self.mantissa >= 0x10_0000_0000_0000,
                            pow2(d as nat) >= 0x800,
                    ;
                }
                0x8000_0000_0000_0000
            } else {
                let p: u128 = power(d);
                proof {
                    lemma_pow2_bound(d as nat, 60);
                    assert(self.mantissa * p <= 0x20_0000_0000_0000 * 0x1000_0000_0000_0000) by (nonlinear_arith)
                        requires
                            0 <= self.mantissa <= 0x20_0000_0000_0000,
                            0 <= p <= 0x1000_0000_0000_0000,
                    ;
                }
                self.mantissa as u128 * p
            }
        } else {
            let d: u32 = 1074 - self.exponent;
            proof {
                lemma_pow2_pos(d as nat);
                lemma_pow2_adds(d as nat, self.exponent as nat);
                lemma_quotient_scaled(self.mantissa as nat, pow2(d as nat), pow2(self.exponent as nat));
            }
            if d > 60 {
                proof {
                    lemma_pow2_strictly_increases(60, d as nat);
                    lemma_basic_div(self.mantissa as int, pow2(d as nat) as int);
                }
                0
            } else {
                let p: u128 = power(d);
                self.mantissa as u128 / p
            }
        };
        if self.negative {
            if whole >= 0x8000_0000_0000_0000 {
                i64::MIN
            } else {
                -(whole as i64)
            }
        } else {
            if whole >= 0x8000_0000_0000_0000 {
                i64::MAX
            } else {
                whole as i64
            }
        }
    }
}

/// The nearest value that an `i64` can hold.
pub open spec fn clamp_i64(n: int) -> int {
    if n < i64::MIN {
        i64::MIN as int
    } else if n > i64::MAX {
        i64::MAX as int
    } else {
        n
    }
}

proof fn lemma_pow2_bound(k: nat, limit: nat)
    requires
        k <= limit,
        limit == 60 || limit == 119,
    ensures
        0 < pow2(k) <= pow2(limit),
        pow2(60) == 0x1000_0000_0000_0000,
        pow2(119) == 0x80_0000_0000_0000_0000_0000_0000_0000,
{
    lemma_pow2_pos(k);
    if k < limit {
        lemma_pow2_strictly_increases(k, limit);
    }
    lemma2_to64_rest();
    lemma_pow2_adds(60, 59);
}

proof fn lemma_pow2_bound_below(k: nat)
    requires
        k >= 2,
    ensures
        pow2(k) >= 4,
{
    lemma2_to64();
    if k > 2 {
        lemma_pow2_strictly_increases(2, k);
    }
}

proof fn lemma_quotient_scaled(num: nat, den: nat, k: nat)
    requires
        den > 0,
        k > 0,
    ensures
        (num * k) / (den * k) == num / den,
{
    let q = num / den;
    let r = num % den;
    lemma_fundamental_div_mod(num as int, den as int);
    lemma_mod_bound(num as int, den as int);
    assert(num * k == q * (den * k) + r * k) by (nonlinear_arith)
        requires
            num == den * q + r,
    ;
    assert(0 <= r * k < den * k) by (nonlinear_arith)
        requires
            0 <= r < den,
            k > 0,
    ;
    lemma_fundamental_div_mod_converse((num * k) as int, (den * k) as int, q as int, (r * k) as int);
}

/// The number that a bit pattern stands for: one sign bit, eleven exponent bits, fifty-two
/// fraction bits. The patterns of infinities and of what is not a number stand for none.
pub open spec fn decode(bits: u64) -> Option<Real> {
    let field = (bits % 0x8000_0000_0000_0000) / 0x10_0000_0000_0000;
    let fraction = bits % 0x10_0000_0000_0000;
    if field == 0x7ff {
        None
    } else if field == 0 {
        Some(
            Real { negative: bits >= 0x8000_0000_0000_0000, mantissa: fraction as nat, exponent: 0 },
        )
    } else {
        Some(
            Real {
                negative: bits >= 0x8000_0000_0000_0000,
                mantissa: (fraction + 0x10_0000_0000_0000) as nat,
                exponent: (field - 1) as nat,
            },
        )
    }
}

/// A finite double.
pub struct Binary64 {
    inner: Rounded,
}

impl View for Binary64 {
    type V = Real;

    closed spec fn view(&self) -> Real {
        self.inner@
    }
}

impl Binary64 {
    #[verifier::type_invariant]
    spec fn is_finite(self) -> bool {
        self@.is_double()
    }

    /// Reads a bit pattern.
    pub fn from_bits(bits: u64) -> (r: Option<Binary64>)
        ensures
            r is Some <==> decode(bits) is Some,
            r matches Some(x) ==> decode(bits) == Some(x@),
    {
        proof {
            lemma_pow2_126();
        }
        let negative: bool = bits >= 0x8000_0000_0000_0000;
        let field: u64 = (bits % 0x8000_0000_0000_0000) / 0x10_0000_0000_0000;
        let fraction: u64 = bits % 0x10_0000_0000_0000;
        if field == 0x7ff {
            None
        } else if field == 0 {
            Some(Binary64 { inner: Rounded { negative, mantissa: fraction, exponent: 0 } })
        } else {
            Some(
                Binary64 {
                    inner: Rounded {
                        negative,
                        mantissa: fraction + 0x10_0000_0000_0000,
                        exponent: (field - 1) as u32,
                    },
                },
            )
        }
    }

    /// Writes the bit pattern.
    pub fn to_bits(&self) -> (bits: u64)
        ensures
            decode(bits) == Some(self@),
    {
        proof {
            use_type_invariant(self);
            lemma_pow2_126();
        }
        let sign: u64 = if self.inner.negative {
            0x8000_0000_0000_0000
        } else {
            0
        };
        if self.inner.mantissa < 0x10_0000_0000_0000 {
            sign + self.inner.mantissa
        } else {
            let fraction: u64 = self.inner.mantissa - 0x10_0000_0000_0000;
            let field: u64 = self.inner.exponent as u64 + 1;
            sign + field * 0x10_0000_0000_0000 + fraction
        }
    }

    /// The double nearest to an integer.
    pub fn from_i64(n: i64) -> (r: Binary64)
        ensures
            r@ == Real::from_int(n as int),
    {
        Binary64 { inner: Rounded::from_i64(n) }
    }

    /// The double nearest to an unsigned integer.
    pub fn from_u64(n: u64) -> (r: Binary64)
        ensures
            r@ == Real::from_int(n as int),
    {
        Binary64 { inner: Rounded::from_whole(false, n) }
    }

    /// The sum with two.
    pub fn plus_two(&self) -> (r: Binary64)
        ensures
            r@ == self@.plus(2),
    {
        proof {
            use_type_invariant(self);
            lemma2_to64();
        }
        Binary64 { inner: self.inner.plus(false, 1) }
    }

    /// The difference with two.
    pub fn minus_two(&self) -> (r: Binary64)
        ensures
            r@ == self@.plus(-2),
    {
        proof {
            use_type_invariant(self);
            lemma2_to64();
        }
        Binary64 { inner: self.inner.plus(true, 1) }
    }

    /// Whether one number is below another.
    pub fn less_than(&self, other: &Binary64) -> (b: bool)
        ensures
            b == (self@.units() < other@.units()),
    {
        proof {
            use_type_invariant(self);
            use_type_invariant(other);
            lemma_magnitude_order(self@, other@);
            lemma_magnitude_order(other@, self@);
        }
        let x = &self.inner;
        let y = &other.inner;
        if x.negative && y.negative {
            y.exponent < x.exponent || (y.exponent == x.exponent && y.mantissa < x.mantissa)
        } else if x.negative {
            x.mantissa > 0 || y.mantissa > 0
        } else if y.negative {
            false
        } else {
            x.exponent < y.exponent || (x.exponent == y.exponent && x.mantissa < y.mantissa)
        }
    }

    /// The same number again.
    pub fn copy(&self) -> (r: Binary64)
        ensures
            r@ == self@,
    {
        Binary64::from_rounded(self.rounded())
    }

    /// The number, free to grow past the largest double.
    pub(crate) fn rounded(&self) -> (r: Rounded)
        ensures
            r@ == self@,
            r@.is_double(),
    {
        proof {
            use_type_invariant(self);
        }
        Rounded {
            negative: self.inner.negative,
            mantissa: self.inner.mantissa,
            exponent: self.inner.exponent,
        }
    }

    /// A number that is known to be a double.
    pub(crate) fn from_rounded(inner: Rounded) -> (r: Binary64)
        requires
            inner@.is_double(),
        ensures
            r@ == inner@,
    {
        Binary64 { inner }
    }
}

/// Any double: a finite one, an infinity, or what is not a number.
pub enum Double {
    Finite(Binary64),
    Infinite { negative: bool },
    NotANumber,
}

pub enum DoubleView {
    Finite(Real),
    Infinite { negative: bool },
    NotANumber,
}

impl View for Double {
    type V = DoubleView;

    open spec fn view(&self) -> DoubleView {
        match self {
            Double::Finite(x) => DoubleView::Finite(x@),
            Double::Infinite { negative } => DoubleView::Infinite { negative: *negative },
            Double::NotANumber => DoubleView::NotANumber,
        }
    }
}

/// What a bit pattern stands for. With the largest exponent, the pattern without a fraction is
/// an infinity, and the others are not a number.
pub open spec fn decode_any(bits: u64) -> DoubleView {
    match decode(bits) {
        Some(x) => DoubleView::Finite(x),
        None => if bits % 0x10_0000_0000_0000 == 0 {
            DoubleView::Infinite { negative: bits >= 0x8000_0000_0000_0000 }
        } else {
            DoubleView::NotANumber
        },
    }
}

impl Double {
    /// Reads a bit pattern.
    pub fn from_bits(bits: u64) -> (r: Double)
        ensures
            r@ == decode_any(bits),
    {
        match Binary64::from_bits(bits) {
            Some(x) => Double::Finite(x),
            None => if bits % 0x10_0000_0000_0000 == 0 {
                Double::Infinite { negative: bits >= 0x8000_0000_0000_0000 }
            } else {
                Double::NotANumber
            },
        }
    }
}

/// Rounded numbers are ordered by exponent first and by significand next.
proof fn lemma_magnitude_order(x: Real, y: Real)
    requires
        x.is_rounded(),
        y.is_rounded(),
    ensures
        x.exponent < y.exponent ==> x.magnitude() < y.magnitude(),
        x.exponent == y.exponent ==> (x.mantissa < y.mantissa <==> x.magnitude() < y.magnitude()),
        x.magnitude() == 0 <==> x.mantissa == 0,
{
    lemma_pow2_126();
    lemma_pow2_pos(x.exponent);
    lemma_pow2_pos(y.exponent);
    assert(x.magnitude() == 0 <==> x.mantissa == 0) by (nonlinear_arith)
        requires
            x.magnitude() == x.mantissa * pow2(x.exponent),
            pow2(x.exponent) > 0,
    ;
    if x.exponent < y.exponent {
        let d = (y.exponent - x.exponent) as nat;
        lemma_pow2_adds(d, x.exponent);
        lemma_pow2_unfold(d);
        lemma_pow2_pos((d - 1) as nat);
        assert(x.magnitude() < y.magnitude()) by (nonlinear_arith)
            requires
                x.magnitude() == x.mantissa * pow2(x.exponent),
                y.magnitude() == y.mantissa * (pow2(d) * pow2(x.exponent)),
                x.mantissa < 0x20_0000_0000_0000,
                y.mantissa >= 0x10_0000_0000_0000,
                pow2(d) >= 2,
                pow2(x.exponent) > 0,
        ;
    } else if x.exponent == y.exponent {
        assert(x.mantissa < y.mantissa <==> x.magnitude() < y.magnitude()) by (nonlinear_arith)
            requires
                x.magnitude() == x.mantissa * pow2(x.exponent),
                y.magnitude() == y.mantissa * pow2(x.exponent),
                pow2(x.exponent) > 0,
        ;
    }
}

} // verus!
