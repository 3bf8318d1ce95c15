//! What reading a value, a list or a text gives.

use vstd::arithmetic::div_mod::*;
use vstd::prelude::*;

use crate::binary64::Real;
use crate::json::{at, first_with, member, JsonView, NumberView};
use crate::text::{digits_value, integer_of, is_digit, is_digits, unsigned_part};
use crate::units::wrap_i64;

verus! {

/// A member reads as it was written, and writing or dropping it leaves every other one alone.
pub proof fn members_are_read_by_name(
    o: Map<Seq<char>, JsonView>,
    name: Seq<char>,
    other: Seq<char>,
    v: JsonView,
)
    ensures
        at(o.insert(name, v), name) == v,
        at(o.remove(name), name) == JsonView::Null,
        other != name ==> at(o.insert(name, v), other) == at(o, other),
        other != name ==> at(o.remove(name), other) == at(o, other),
        o.contains_key(name) ==> at(o, name) == o[name] && member(o, name) == Some(o[name]),
        !o.contains_key(name) ==> at(o, name) == JsonView::Null && member(o, name) is None,
        JsonView::Object(o).at(name) == at(o, name),
        v !is Object ==> v.at(name) == JsonView::Null,
{
}

/// A value reads as what it is, and as nothing else.
pub proof fn values_are_read_by_kind(
    v: JsonView,
    s: Seq<char>,
    b: bool,
    n: i64,
    x: Real,
    items: Seq<JsonView>,
    o: Map<Seq<char>, JsonView>,
)
    ensures
        v.as_str() == Some(s) <==> v == JsonView::Str(s),
        v.as_bool() == Some(b) <==> v == JsonView::Bool(b),
        v.as_array() == Some(items) <==> v == JsonView::Array(items),
        v.as_object() == Some(o) <==> v == JsonView::Object(o),
        v.as_i64() == Some(n) <==> v == JsonView::Number(NumberView::NegInt(n)) || (n >= 0 && v
            == JsonView::Number(NumberView::PosInt(n as u64))),
        v.as_double() == Some(x) <==> {
            ||| v == JsonView::Number(NumberView::Float(x))
            ||| exists|k: u64|
                v == JsonView::Number(NumberView::PosInt(k)) && x == #[trigger] Real::from_int(k as int)
            ||| exists|k: i64|
                v == JsonView::Number(NumberView::NegInt(k)) && x == #[trigger] Real::from_int(k as int)
        },
        JsonView::integer(n).as_i64() == Some(n),
        n < 0 <==> JsonView::integer(n) == JsonView::Number(NumberView::NegInt(n)),
        JsonView::double(x).as_double() == Some(x),
        JsonView::double(x) == JsonView::Number(NumberView::Float(x)),
{
}

/// What is found in a list is its first item that matches, and something is found wherever one
/// does.
pub proof fn first_match_is_found(items: Seq<JsonView>, name: Seq<char>, text: Seq<char>)
    ensures
        match first_with(items, name, text) {
            Some(v) => exists|i: int|
                {
                    &&& 0 <= i < items.len()
                    &&& #[trigger] items[i] == v
                    &&& v.at(name) == JsonView::Str(text)
                    &&& forall|j: int|
                        0 <= j < i ==> (#[trigger] items[j]).at(name) != JsonView::Str(text)
                },
            None => forall|j: int|
                0 <= j < items.len() ==> (#[trigger] items[j]).at(name) != JsonView::Str(text),
        },
    decreases items.len(),
{
    if items.len() > 0 && items[0].at(name) != JsonView::Str(text) {
        let rest = items.skip(1);
        first_match_is_found(rest, name, text);
        assert forall|j: int| 1 <= j < items.len() implies #[trigger] items[j] == rest[j - 1] by {}
        match first_with(items, name, text) {
            Some(v) => {
                let k = choose|k: int|
                    {
                        &&& 0 <= k < rest.len()
                        &&& #[trigger] rest[k] == v
                        &&& v.at(name) == JsonView::Str(text)
                        &&& forall|j: int|
                            0 <= j < k ==> (#[trigger] rest[j]).at(name) != JsonView::Str(text)
                    };
                assert(items[k + 1] == v);
            },
            None => {},
        }
    }
}

/// One digit reads as its value, and no other single character reads as an integer.
pub proof fn one_digit_is_read(c: char)
    ensures
        integer_of(Seq::empty()) is None,
        '0' <= c <= '9' ==> integer_of(seq![c]) == Some((c as int - '0' as int) as i64),
        !('0' <= c <= '9') ==> integer_of(seq![c]) is None,
{
    let s = seq![c];
    assert(s.drop_last() =~= Seq::empty());
    assert(digits_value(s.drop_last()) == 0);
    assert(s.skip(1) =~= Seq::empty());
    if '0' <= c <= '9' {
        assert(is_digits(s));
    } else {
        assert(!is_digit(s[0]));
    }
}

/// One more digit makes ten times as much and that digit, away from zero on either side of it,
/// as long as an `i64` holds it. Anything else after an integer is no integer, and what is none
/// becomes none, but for a sign that gets its first digit.
pub proof fn next_digit_is_read(s: Seq<char>, c: char)
    requires
        s.len() > 0,
    ensures
        !('0' <= c <= '9') ==> integer_of(s.push(c)) is None,
        '0' <= c <= '9' ==> {
            let digit = c as int - '0' as int;
            match integer_of(s) {
                Some(v) => {
                    let next = if s[0] == '-' {
                        10 * v - digit
                    } else {
                        10 * v + digit
                    };
                    integer_of(s.push(c)) == (if i64::MIN <= next <= i64::MAX {
                        Some(next as i64)
                    } else {
                        None
                    })
                },
                None => {
                    &&& s == seq!['-'] ==> integer_of(s.push(c)) == Some((-digit) as i64)
                    &&& s == seq!['+'] ==> integer_of(s.push(c)) == Some(digit as i64)
                    &&& s != seq!['-'] && s != seq!['+'] ==> integer_of(s.push(c)) is None
                },
            }
        },
{
    let t = s.push(c);
    let d = unsigned_part(s);
    assert(unsigned_part(t) =~= d.push(c));
    let e = d.push(c);
    assert(e.drop_last() =~= d);
    assert(e.last() == c);
    assert(t[0] == s[0]);
    assert(is_digit(c) == ('0' <= c <= '9'));
    if is_digits(e) && d.len() > 0 {
        assert forall|i: int| 0 <= i < d.len() implies is_digit(#[trigger] d[i]) by {
            assert(e[i] == d[i]);
        }
    }
    if is_digits(d) && is_digit(c) {
        assert forall|i: int| 0 <= i < e.len() implies is_digit(#[trigger] e[i]) by {
            if i < d.len() {
                assert(e[i] == d[i]);
            }
        }
    }
    if !is_digit(c) {
        assert(!is_digit(e[d.len() as int]));
    }
    if d.len() == 0 {
        assert(s.len() == 1);
        assert(s =~= seq![s[0]]);
        assert(digits_value(d) == 0);
        assert(e =~= seq![c]);
    }
}

/// What does not fit in an `i64` is reduced to what differs from it by a multiple of `2^64`.
pub proof fn overflow_wraps(n: int)
    ensures
        i64::MIN <= wrap_i64(n) <= i64::MAX,
        (wrap_i64(n) - n) % 0x1_0000_0000_0000_0000 == 0,
        i64::MIN <= n <= i64::MAX ==> wrap_i64(n) == n,
{
    let m = n + 0x8000_0000_0000_0000;
    lemma_fundamental_div_mod(m, 0x1_0000_0000_0000_0000);
    lemma_mod_multiples_basic(-(m / 0x1_0000_0000_0000_0000), 0x1_0000_0000_0000_0000);
}

} // verus!
