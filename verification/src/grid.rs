//! Large numbers, counted in eighths: what rounding does to two of them that are two degrees apart.

use vstd::prelude::*;

verus! {

/// `r` is `num / den` rounded to a multiple of `step`, the even one of two that are equally near;
/// `step` is the last place of numbers of that size.
#[verifier::opaque]
pub open spec fn near(num: int, den: int, r: int, step: int) -> bool {
    &&& 0x10_0000_0000_0000 * (den * step) <= num < 0x20_0000_0000_0000 * (den * step)
    &&& r % step == 0
    &&& -(den * step) <= 2 * (den * r - num) <= den * step
    &&& 2 * (den * r - num) == den * step ==> r % (2 * step) == 0
    &&& 2 * (den * r - num) == -(den * step) ==> r % (2 * step) == 0
}

/// `r` is the double nearest to `num`.
#[verifier::opaque]
pub open spec fn rounds(num: int, r: int) -> bool {
    ||| near(num, 1, r, 1)
    ||| near(num, 1, r, 2)
    ||| near(num, 1, r, 4)
    ||| near(num, 1, r, 8)
    ||| near(num, 1, r, 16)
    ||| near(num, 1, r, 32)
    ||| near(num, 1, r, 64)
}

/// `r` is the double nearest to a fifth of `num`.
#[verifier::opaque]
pub open spec fn rounds_fifth(num: int, r: int) -> bool {
    ||| near(num, 5, r, 1)
    ||| near(num, 5, r, 2)
    ||| near(num, 5, r, 4)
    ||| near(num, 5, r, 8)
}

/// The last place of a number, by its size.
proof fn lemma_size(num: int, r: int)
    requires
        rounds(num, r),
    ensures
        num < 0x20_0000_0000_0000 ==> near(num, 1, r, 1),
        0x20_0000_0000_0000 <= num < 0x40_0000_0000_0000 ==> near(num, 1, r, 2),
        0x40_0000_0000_0000 <= num < 0x80_0000_0000_0000 ==> near(num, 1, r, 4),
        0x80_0000_0000_0000 <= num < 0x100_0000_0000_0000 ==> near(num, 1, r, 8),
        0x100_0000_0000_0000 <= num < 0x200_0000_0000_0000 ==> near(num, 1, r, 16),
        0x200_0000_0000_0000 <= num < 0x400_0000_0000_0000 ==> near(num, 1, r, 32),
        0x400_0000_0000_0000 <= num ==> near(num, 1, r, 64),
        0x10_0000_0000_0000 <= num < 0x800_0000_0000_0000,
{
    reveal(rounds);
    reveal(near);
}

/// The last place of a fifth, by the size of the number.
proof fn lemma_size_of_fifth(num: int, r: int)
    requires
        rounds_fifth(num, r),
    ensures
        num < 0xa0_0000_0000_0000 ==> near(num, 5, r, 1),
        0xa0_0000_0000_0000 <= num < 0x140_0000_0000_0000 ==> near(num, 5, r, 2),
        0x140_0000_0000_0000 <= num < 0x280_0000_0000_0000 ==> near(num, 5, r, 4),
        0x280_0000_0000_0000 <= num ==> near(num, 5, r, 8),
        0x50_0000_0000_0000 <= num < 0x500_0000_0000_0000,
{
    reveal(rounds_fifth);
    reveal(near);
}

/// The two could only come closer if both were halfway between two doubles, and then both would
/// have gone to even ones.
#[verifier::spinoff_prover]
proof fn lemma_sixteen_across(x: int, y: int, a: int, b: int)
    requires
        y - x >= 144,
        near(x, 1, a, 32),
        near(y, 1, b, 64),
    ensures
        b - a >= 128,
{
    reveal(near);
    assert(b - a >= 96);
    assert((b - a) % 32 == 0);
    if b - a < 128 {
        assert(b - a == 96);
        assert(a % 64 == 0);
        assert(b % 128 == 0);
    }
}

/// Numbers that are eighteen apart, each with its own last place, stay sixteen apart.
#[verifier::spinoff_prover]
proof fn lemma_sixteen_by_size(x: int, y: int, a: int, b: int)
    requires
        y - x >= 144,
    ensures
        near(x, 1, a, 8) && near(y, 1, b, 8) ==> b - a >= 128,
        near(x, 1, a, 8) && near(y, 1, b, 16) ==> b - a >= 128,
        near(x, 1, a, 16) && near(y, 1, b, 16) ==> b - a >= 128,
        near(x, 1, a, 16) && near(y, 1, b, 32) ==> b - a >= 128,
        near(x, 1, a, 32) && near(y, 1, b, 32) ==> b - a >= 128,
        near(x, 1, a, 32) && near(y, 1, b, 64) ==> b - a >= 128,
        near(x, 1, a, 64) && near(y, 1, b, 64) ==> b - a >= 128,
{
    assert(near(x, 1, a, 8) && near(y, 1, b, 8) ==> b - a >= 128) by {
        reveal(near);
    }
    assert(near(x, 1, a, 8) && near(y, 1, b, 16) ==> b - a >= 128) by {
        reveal(near);
    }
    assert(near(x, 1, a, 16) && near(y, 1, b, 16) ==> b - a >= 128) by {
        reveal(near);
    }
    assert(near(x, 1, a, 16) && near(y, 1, b, 32) ==> b - a >= 128) by {
        reveal(near);
    }
    assert(near(x, 1, a, 32) && near(y, 1, b, 32) ==> b - a >= 128) by {
        reveal(near);
    }
    assert(near(x, 1, a, 32) && near(y, 1, b, 64) ==> b - a >= 128) by {
        if near(x, 1, a, 32) && near(y, 1, b, 64) {
            lemma_sixteen_across(x, y, a, b);
        }
    }
    assert(near(x, 1, a, 64) && near(y, 1, b, 64) ==> b - a >= 128) by {
        reveal(near);
    }
}

/// Numbers that are eighteen apart, and large enough, stay sixteen apart.
proof fn lemma_sixteen_apart(x: int, y: int, a: int, b: int)
    requires
        0x80_0000_0000_0000 <= x,
        144 <= y - x <= 600,
        rounds(x, a),
        rounds(y, b),
    ensures
        b - a >= 128,
{
    lemma_size(x, a);
    lemma_size(y, b);
    lemma_sixteen_by_size(x, y, a, b);
}

/// Where two degrees more take a number to the next size, rounding may bring it closer. Nine
/// times as much stays sixteen apart all the same.
#[verifier::spinoff_prover]
proof fn lemma_next_size_2(p: int, q: int, a: int, b: int)
    requires
        p < 0x20_0000_0000_0000 <= p + 16,
        near(p, 1, p, 1),
        near(p + 16, 1, q, 2),
        near(9 * p, 1, a, 16),
        near(9 * q, 1, b, 16),
    ensures
        b - a >= 128,
{
    reveal(near);
    assert(q - p >= 15);
    assert(b - a >= 119);
    assert((b - a) % 16 == 0);
}

#[verifier::spinoff_prover]
proof fn lemma_next_size_4(p: int, q: int, a: int, b: int)
    requires
        p < 0x40_0000_0000_0000 <= p + 16,
        near(p, 1, p, 2),
        near(p + 16, 1, q, 4),
        near(9 * p, 1, a, 32),
        near(9 * q, 1, b, 32),
    ensures
        b - a >= 128,
{
    reveal(near);
    let size: int = 0x40_0000_0000_0000;
    let down = size - p;
    let up = q - size;
    let low = 9 * size - a;
    let high = b - 9 * size;
    assert(down % 2 == 0 && 0 < down <= 16);
    assert(up % 4 == 0);
    assert(up - (16 - down) == 2 || up - (16 - down) == -2 ==> up % 8 == 0);
    assert(low % 32 == 0 && high % 32 == 0);
    if down == 2 {
        assert(up == 16 && low == 32 && high == 128);
    } else if down == 4 {
        assert(up == 12 && low == 32 && high == 96);
    } else if down == 6 {
        assert(up == 8 && low == 64 && high == 64);
    } else if down == 8 {
        assert(up == 8 && low == 64 && high == 64);
    } else if down == 10 {
        assert(up == 8 && low == 96 && high == 64);
    } else if down == 12 {
        assert(up == 4 && low == 96 && high == 32);
    } else if down == 14 {
        assert(up == 0 && low == 128 && high == 0);
    } else if down == 16 {
        assert(up == 0 && low == 128 && high == 0);
    }
}

#[verifier::spinoff_prover]
proof fn lemma_next_size_8(p: int, q: int, a: int, b: int)
    requires
        p < 0x80_0000_0000_0000 <= p + 16,
        near(p, 1, p, 4),
        near(p + 16, 1, q, 8),
        near(9 * p, 1, a, 64),
        near(9 * q, 1, b, 64),
    ensures
        b - a >= 128,
{
    reveal(near);
    let size: int = 0x80_0000_0000_0000;
    let down = size - p;
    let up = q - size;
    let low = 9 * size - a;
    let high = b - 9 * size;
    assert(down % 4 == 0 && 0 < down <= 16);
    assert(up % 8 == 0);
    assert(up - (16 - down) == 4 || up - (16 - down) == -4 ==> up % 16 == 0);
    assert(low % 64 == 0 && high % 64 == 0);
    if down == 4 {
        assert(up == 16 && low == 64 && high == 128);
    } else if down == 8 {
        assert(up == 8 && low == 64 && high == 64);
    } else if down == 12 {
        assert(up == 0 && low == 128 && high == 0);
    } else if down == 16 {
        assert(up == 0 && low == 128 && high == 0);
    }
}

/// The two could only come closer if the larger one were almost halfway between two doubles, which
/// no fifth of a multiple of 32 is.
#[verifier::spinoff_prover]
proof fn lemma_three_across(a: int, b: int, c: int, d: int)
    requires
        b - a >= 128,
        a % 32 == 0,
        b % 32 == 0,
        near(a, 5, c, 4),
        near(b, 5, d, 8),
    ensures
        d - c >= 24,
{
    reveal(near);
    assert(-10 <= a - 5 * c <= 10);
    assert(-20 <= b - 5 * d <= 20);
    let (m, n, k) = (b / 8, d / 8, c / 4);
    assert(b == 8 * m && d == 8 * n && c == 4 * k);
    assert(m - 5 * n <= 2);
    assert(d - c == 4 * (2 * n - k));
}

/// A fifth of numbers that are sixteen apart, each with its own last place, is three apart.
#[verifier::spinoff_prover]
proof fn lemma_three_by_size(a: int, b: int, c: int, d: int)
    requires
        b - a >= 128,
    ensures
        near(a, 5, c, 1) && near(b, 5, d, 1) ==> d - c >= 25,
        near(a, 5, c, 1) && near(b, 5, d, 2) ==> d - c >= 25,
        near(a, 5, c, 2) && near(b, 5, d, 2) ==> d - c >= 24,
        near(a, 5, c, 2) && near(b, 5, d, 4) ==> d - c >= 24,
        near(a, 5, c, 4) && near(b, 5, d, 4) ==> d - c >= 24,
        a % 32 == 0 && b % 32 == 0 && near(a, 5, c, 4) && near(b, 5, d, 8) ==> d - c >= 24,
        near(a, 5, c, 8) && near(b, 5, d, 8) ==> d - c >= 24,
{
    assert(near(a, 5, c, 1) && near(b, 5, d, 1) ==> d - c >= 25) by {
        reveal(near);
    }
    assert(near(a, 5, c, 1) && near(b, 5, d, 2) ==> d - c >= 25) by {
        reveal(near);
    }
    assert(near(a, 5, c, 2) && near(b, 5, d, 2) ==> d - c >= 24) by {
        reveal(near);
    }
    assert(near(a, 5, c, 2) && near(b, 5, d, 4) ==> d - c >= 24) by {
        reveal(near);
    }
    assert(near(a, 5, c, 4) && near(b, 5, d, 4) ==> d - c >= 24) by {
        reveal(near);
    }
    assert(a % 32 == 0 && b % 32 == 0 && near(a, 5, c, 4) && near(b, 5, d, 8) ==> d - c >= 24) by {
        if a % 32 == 0 && b % 32 == 0 && near(a, 5, c, 4) && near(b, 5, d, 8) {
            lemma_three_across(a, b, c, d);
        }
    }
    assert(near(a, 5, c, 8) && near(b, 5, d, 8) ==> d - c >= 24) by {
        reveal(near);
    }
}

/// Thirty-two more takes the warmer number to the next size, and the cooler one not.
#[verifier::spinoff_prover]
proof fn lemma_one_crosses_4(a: int, b: int, c: int, d: int, f: int)
    requires
        b - a >= 128,
        a % 16 == 0,
        b % 16 == 0,
        near(a, 5, c, 2),
        near(b, 5, d, 2),
        near(d + 256, 1, f, 4),
        c + 256 < 0x40_0000_0000_0000,
    ensures
        f - (c + 256) >= 24,
{
    reveal(near);
    let size: int = 0x40_0000_0000_0000;
    let gap = f - (c + 256);
    assert(-5 <= 5 * c - a <= 5 && -5 <= 5 * d - b <= 5);
    assert(gap % 2 == 0 && gap >= 22);
    if gap < 24 {
        assert(d - c == 24);
        assert(f == d + 254 && f % 8 == 0);
        assert(f == size || f == size + 8 || f == size + 16);
        assert((5 * size) % 16 == 0);
    }
}

#[verifier::spinoff_prover]
proof fn lemma_both_cross_4(c: int, d: int, e: int, f: int)
    requires
        d - c >= 24,
        near(c + 256, 1, e, 4),
        near(d + 256, 1, f, 4),
        c % 2 == 0,
        d % 2 == 0,
    ensures
        f - e >= 24,
{
    reveal(near);
    assert((f - e) % 4 == 0);
    assert(f - e >= 20);
    if f - e < 24 {
        assert(f - e == 20);
        assert(e == c + 258 && e % 8 == 0);
        assert(f == d + 254 && f % 8 == 0);
    }
}

/// A fifth of a multiple of 32, counted down from a size: five steps down take it 32 down.
#[verifier::spinoff_prover]
proof fn lemma_fifth_at(num: int, r: int, k: int, j: int)
    requires
        0 <= j < 5,
        num == 0x280_0000_0000_0000 - 160 * k - 32 * j,
        near(num, 5, r, 4),
    ensures
        r == 0x80_0000_0000_0000 - 32 * k - (if j == 0 {
            0int
        } else if j == 1 {
            8
        } else if j == 2 {
            12
        } else if j == 3 {
            20
        } else {
            24
        }),
{
    reveal(near);
    let m = 0x80_0000_0000_0000 - 32 * k - r;
    assert(m % 4 == 0);
    assert(-10 <= 5 * m - 32 * j <= 10);
}

/// What such a number, less some, is rounded to.
#[verifier::spinoff_prover]
proof fn lemma_eight_at(t: int, less: int, r: int)
    requires
        t % 16 == 0,
        less == 0 || less == 8 || less == 12 || less == 20 || less == 24,
        near(t - less, 1, r, 8),
    ensures
        r == t - (if less == 12 {
            16
        } else if less == 20 {
            16
        } else {
            less
        }),
{
    reveal(near);
    let m = t - r;
    assert(m % 8 == 0);
    assert(-4 <= m - less <= 4);
    assert(m - less == 4 || m - less == -4 ==> m % 16 == 0);
}

#[verifier::spinoff_prover]
proof fn lemma_cross_8(a: int, b: int, c: int, d: int, e: int, f: int)
    requires
        b - a >= 128,
        a % 32 == 0,
        b % 32 == 0,
        near(a, 5, c, 4),
        near(b, 5, d, 4),
        e == c + 256 || near(c + 256, 1, e, 8),
        near(d + 256, 1, f, 8),
    ensures
        f - e >= 24,
{
    let n = (0x280_0000_0000_0000 - b) / 32;
    let m = (0x280_0000_0000_0000 - a) / 32;
    let (k, j) = (n / 5, n % 5);
    let (l, i) = (m / 5, m % 5);
    lemma_fifth_at(b, d, k, j);
    lemma_fifth_at(a, c, l, i);
    let t: int = 0x80_0000_0000_0100;
    lemma_eight_at(t - 32 * k, t - 32 * k - (d + 256), f);
    if e != c + 256 {
        lemma_eight_at(t - 32 * l, t - 32 * l - (c + 256), e);
    }
    let lower = l - k;
    assert(5 * lower + i - j >= 4);
    let high = t - 32 * k - f;
    let low = t - 32 * l - e;
    assert(f - e == 32 * lower + low - high);
    assert(0 <= high <= 24 && 0 <= low <= 24);
    if lower < 2 {
        assert(lower == 0 ==> j == 0 && i == 4);
        assert(lower == 1 ==> i >= j - 1);
    }
}

/// A number that stands on a last place is not moved by rounding to it.
proof fn lemma_exact(x: int, r: int)
    ensures
        near(x, 1, r, 1) ==> r == x,
        near(x, 1, r, 2) && x % 2 == 0 ==> r == x,
        near(x, 1, r, 4) && x % 4 == 0 ==> r == x,
        near(x, 1, r, 8) && x % 8 == 0 ==> r == x,
{
    reveal(near);
}

/// What is rounded stands on its own last place.
pub(crate) proof fn lemma_rounded(num: int, r: int)
    requires
        rounds(num, r),
    ensures
        num < 0x780_0000_0000_0000 ==> rounds(r, r),
        num < 0x100_0000_0000_0000 ==> -4 <= r - num <= 4,
        -32 <= r - num <= 32,
{
    reveal(rounds);
    reveal(near);
}

/// What a fifth that is rounded stands on.
pub(crate) proof fn lemma_rounded_fifth(num: int, r: int)
    requires
        rounds_fifth(num, r),
    ensures
        near(num, 5, r, 2) ==> r % 2 == 0,
        near(num, 5, r, 4) ==> r % 4 == 0,
        near(num, 5, r, 8) ==> r % 8 == 0,
        -20 <= 5 * r - num <= 20,
{
    reveal(rounds_fifth);
    reveal(near);
}

/// Nine times two numbers that are two degrees apart.
proof fn lemma_ninefold(p: int, q: int, a: int, b: int)
    requires
        rounds(p, p),
        rounds(q, q),
        rounds(p + 16, q) || rounds(q - 16, p),
        9 * p + 1600 <= 0x500_0000_0000_0000,
        rounds(9 * p, a),
        rounds(9 * q, b),
    ensures
        128 <= b - a <= 600,
{
    lemma_rounded(9 * p, a);
    lemma_rounded(9 * q, b);
    lemma_size(p, p);
    if rounds(p + 16, q) {
        lemma_rounded(p + 16, q);
        lemma_size(p + 16, q);
        lemma_exact(p + 16, q);
        lemma_size(9 * p, a);
        lemma_size(9 * q, b);
        if p < 0x20_0000_0000_0000 <= p + 16 {
            lemma_next_size_2(p, q, a, b);
        } else if p < 0x40_0000_0000_0000 <= p + 16 {
            lemma_next_size_4(p, q, a, b);
        } else if p < 0x80_0000_0000_0000 <= p + 16 {
            lemma_next_size_8(p, q, a, b);
        } else {
            lemma_stands(p);
            assert(q == p + 16);
            lemma_sixteen_apart(9 * p, 9 * q, a, b);
        }
    } else {
        lemma_rounded(q - 16, p);
        lemma_size(q, q);
        lemma_stands(q);
        lemma_size(q - 16, p);
        lemma_exact(q - 16, p);
        assert(p == q - 16);
        lemma_sixteen_apart(9 * p, 9 * q, a, b);
    }
}

/// A double is a multiple of its last place.
proof fn lemma_stands(x: int)
    ensures
        near(x, 1, x, 2) ==> x % 2 == 0,
        near(x, 1, x, 4) ==> x % 4 == 0,
        near(x, 1, x, 8) ==> x % 8 == 0,
        near(x, 1, x, 16) ==> x % 16 == 0,
        near(x, 1, x, 32) ==> x % 32 == 0,
{
    reveal(near);
}

/// A fifth of numbers that are sixteen apart is three apart.
proof fn lemma_three_apart(a: int, b: int, c: int, d: int)
    requires
        128 <= b - a <= 600,
        rounds(a, a),
        rounds(b, b),
        rounds_fifth(a, c),
        rounds_fifth(b, d),
    ensures
        24 <= d - c <= 140,
        a < 0xa0_0000_0000_0000 ==> d - c >= 25,
{
    lemma_size(a, a);
    lemma_size(b, b);
    lemma_stands(a);
    lemma_stands(b);
    lemma_size_of_fifth(a, c);
    lemma_size_of_fifth(b, d);
    lemma_rounded_fifth(a, c);
    lemma_rounded_fifth(b, d);
    lemma_three_by_size(a, b, c, d);
}

/// Thirty-two degrees less take no number off its last place.
proof fn lemma_down(num: int, c: int, e: int)
    requires
        rounds_fifth(num, c),
        rounds(c - 256, e),
        num < 0x500_0000_0000_0000,
    ensures
        e == c - 256,
{
    lemma_size_of_fifth(num, c);
    lemma_rounded_fifth(num, c);
    lemma_size(c - 256, e);
    lemma_exact(c - 256, e);
}

/// Numbers of two sizes: thirty-two degrees more make them numbers of one.
#[verifier::spinoff_prover]
proof fn lemma_up_mixed(c: int, d: int, e: int, f: int)
    requires
        d - c >= 24,
    ensures
        d - c >= 25 && near(c + 256, 1, e, 2) && f == d + 256 ==> f - e >= 24,
        near(c + 256, 1, e, 4) && f == d + 256 && d % 4 == 0 ==> f - e >= 24,
        near(c + 256, 1, e, 8) && f == d + 256 && d % 8 == 0 ==> f - e >= 24,
        d - c >= 25 && e == c + 256 && near(d + 256, 1, f, 2) ==> f - e >= 24,
        d - c >= 25 && near(c + 256, 1, e, 2) && near(d + 256, 1, f, 2) ==> f - e >= 24,
{
    reveal(near);
}

/// Thirty-two degrees more leave numbers three apart.
#[verifier::spinoff_prover]
proof fn lemma_up(a: int, b: int, c: int, d: int, e: int, f: int)
    requires
        128 <= b - a <= 600,
        b + 1380 <= 0x500_0000_0000_0000,
        rounds(a, a),
        rounds(b, b),
        rounds_fifth(a, c),
        rounds_fifth(b, d),
        rounds(c + 256, e),
        rounds(d + 256, f),
    ensures
        f - e >= 24,
{
    lemma_three_apart(a, b, c, d);
    lemma_size_of_fifth(a, c);
    lemma_size_of_fifth(b, d);
    lemma_rounded_fifth(a, c);
    lemma_rounded_fifth(b, d);
    lemma_size(c + 256, e);
    lemma_size(d + 256, f);
    lemma_exact(c + 256, e);
    lemma_exact(d + 256, f);
    lemma_up_mixed(c, d, e, f);
    lemma_size(a, a);
    lemma_size(b, b);
    lemma_stands(a);
    lemma_stands(b);
    if b < 0xa0_0000_0000_0000 {
    } else if a < 0xa0_0000_0000_0000 {
    } else if b < 0x140_0000_0000_0000 {
        if d + 256 < 0x40_0000_0000_0000 {
        } else if c + 256 < 0x40_0000_0000_0000 {
            lemma_one_crosses_4(a, b, c, d, f);
        } else {
            lemma_both_cross_4(c, d, e, f);
        }
    } else if a < 0x140_0000_0000_0000 {
    } else if b < 0x280_0000_0000_0000 {
        if d + 256 >= 0x80_0000_0000_0000 {
            lemma_cross_8(a, b, c, d, e, f);
        }
    } else if a < 0x280_0000_0000_0000 {
    } else {
    }
}

/// Two numbers of at least `2^49`, two degrees Celsius apart, have degrees Fahrenheit that are
/// three apart, as long as those are below `2^53`.
pub(crate) proof fn lemma_three_degrees_apart(
    p: int,
    q: int,
    a: int,
    b: int,
    c: int,
    d: int,
    off: int,
    e: int,
    f: int,
)
    requires
        rounds(p, p),
        rounds(q, q),
        rounds(p + 16, q) || rounds(q - 16, p),
        9 * p + 1600 <= 0x500_0000_0000_0000,
        rounds(9 * p, a),
        rounds(9 * q, b),
        rounds_fifth(a, c),
        rounds_fifth(b, d),
        off == 256 || off == -256,
        rounds(c + off, e),
        rounds(d + off, f),
    ensures
        f - e >= 24,
{
    lemma_ninefold(p, q, a, b);
    lemma_rounded(9 * p, a);
    lemma_rounded(9 * q, b);
    if rounds(p + 16, q) {
        lemma_rounded(p + 16, q);
    } else {
        lemma_rounded(q - 16, p);
    }
    lemma_three_apart(a, b, c, d);
    if off == 256 {
        lemma_up(a, b, c, d, e, f);
    } else {
        lemma_down(a, c, e);
        lemma_down(b, d, f);
    }
}

} // verus!
