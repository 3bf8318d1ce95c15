//! Comparing, joining and reading text.

use vstd::prelude::*;

verus! {

/// Whether two texts are the same.
pub fn same(a: &str, b: &str) -> (r: bool)
    ensures
        r == (a@ == b@),
{
    let mut x = a.chars();
    let mut y = b.chars();
    let ghost mut n: int = 0;
    loop
        invariant
            0 <= n <= a@.len(),
            n <= b@.len(),
            a@.take(n) == b@.take(n),
            vstd::std_specs::iter::IteratorSpec::remaining(&x) == a@.skip(n),
            vstd::std_specs::iter::IteratorSpec::remaining(&y) == b@.skip(n),
        decreases a@.len() - n,
    {
        let c = x.next();
        let d = y.next();
        match (c, d) {
            (None, None) => {
                assert(a@.take(n) == a@);
                assert(b@.take(n) == b@);
                return true;
            },
            (Some(c), Some(d)) => {
                assert(c == a@[n] && d == b@[n]);
                if c != d {
                    return false;
                }
                proof {
                    assert(a@.take(n + 1) == a@.take(n).push(c));
                    assert(b@.take(n + 1) == b@.take(n).push(d));
                    assert(a@.skip(n).drop_first() == a@.skip(n + 1));
                    assert(b@.skip(n).drop_first() == b@.skip(n + 1));
                    n = n + 1;
                }
            },
            _ => {
                return false;
            },
        }
    }
}

/// One text after another.
pub fn join(a: &str, b: &str) -> (r: String)
    ensures
        r@ == a@ + b@,
{
    let mut joined = a.to_owned();
    joined.append(b);
    joined
}

/// Whether a character is a decimal digit.
pub open spec fn is_digit(c: char) -> bool {
    '0' <= c <= '9'
}

/// Whether a text is made of decimal digits, and has at least one.
pub open spec fn is_digits(s: Seq<char>) -> bool {
    s.len() > 0 && forall|i: int| 0 <= i < s.len() ==> is_digit(#[trigger] s[i])
}

/// The number that decimal digits write.
pub open spec fn digits_value(s: Seq<char>) -> nat
    decreases s.len(),
{
    if s.len() == 0 {
        0
    } else {
        digits_value(s.drop_last()) * 10 + (s.last() as nat - '0' as nat) as nat
    }
}

/// What follows a leading sign, if there is one.
pub open spec fn unsigned_part(s: Seq<char>) -> Seq<char> {
    if s.len() > 0 && (s[0] == '-' || s[0] == '+') {
        s.skip(1)
    } else {
        s
    }
}

/// The integer that a text writes: an optional sign and then digits, within the range of an
/// `i64`. Any other text writes none.
pub open spec fn integer_of(s: Seq<char>) -> Option<i64> {
    let digits = unsigned_part(s);
    let magnitude = digits_value(digits) as int;
    let value = if s.len() > 0 && s[0] == '-' {
        -magnitude
    } else {
        magnitude
    };
    if is_digits(digits) && i64::MIN <= value <= i64::MAX {
        Some(value as i64)
    } else {
        None
    }
}

/// A longer run of digits never writes a smaller number.
proof fn lemma_digits_grow(s: Seq<char>, n: int)
    requires
        0 <= n <= s.len(),
    ensures
        digits_value(s.take(n)) <= digits_value(s),
    decreases s.len(),
{
    if n == s.len() {
        assert(s.take(n) == s);
    } else {
        lemma_digits_grow(s.drop_last(), n);
        assert(s.drop_last().take(n) == s.take(n));
    }
}

/// Reads an integer.
pub fn parse_i64(s: &str) -> (r: Option<i64>)
    ensures
        r == integer_of(s@),
{
    let ghost digits = unsigned_part(s@);
    let mut rest = s.chars();
    let mut negative: bool = false;
    let mut next = rest.next();
    match next {
        Some(c) => {
            assert(s@.drop_first() == s@.skip(1));
            if c == '-' || c == '+' {
                negative = c == '-';
                next = rest.next();
                assert(s@.len() > 1 ==> s@.skip(1).drop_first() == s@.skip(2));
            }
        },
        None => {},
    }
    if next.is_none() {
        return None;
    }
    let mut magnitude: u64 = 0;
    let ghost mut n: int = 0;
    assert(digits.take(0) == Seq::<char>::empty());
    while next.is_some()
        invariant
            digits == unsigned_part(s@),
            negative == (s@.len() > 0 && s@[0] == '-'),
            digits.len() > 0,
            0 <= n <= digits.len(),
            next is Some <==> n < digits.len(),
            next matches Some(c) ==> c == digits[n],
            n < digits.len() ==> vstd::std_specs::iter::IteratorSpec::remaining(&rest)
                == digits.skip(n + 1),
            forall|i: int| 0 <= i < n ==> is_digit(#[trigger] digits[i]),
            magnitude == digits_value(digits.take(n)),
            magnitude <= 0x8000_0000_0000_0000,
        decreases digits.len() - n,
    {
        let c: char = next.unwrap();
        if c < '0' || c > '9' {
            return None;
        }
        proof {
            assert(digits.take(n + 1).drop_last() == digits.take(n));
            lemma_digits_grow(digits, n + 1);
        }
        let digit: u64 = c as u64 - '0' as u64;
        if magnitude > (0x8000_0000_0000_0000 - digit) / 10 {
            return None;
        }
        magnitude = magnitude * 10 + digit;
        next = rest.next();
        proof {
            assert(n + 1 < digits.len() ==> digits.skip(n + 1).drop_first() == digits.skip(n + 2));
            n = n + 1;
        }
    }
    proof {
        assert(digits.take(n) == digits);
    }
    if negative {
        Some((-(magnitude as i128)) as i64)
    } else if magnitude < 0x8000_0000_0000_0000 {
        Some(magnitude as i64)
    } else {
        None
    }
}

} // verus!
