use ecobee::binary64::{Binary64, Double};
use ecobee::{c_to_f10, f10_to_c};

fn number(x: f64) -> Binary64 {
    Binary64::from_bits(x.to_bits()).unwrap()
}

fn double(x: f64) -> Double {
    Double::from_bits(x.to_bits())
}

fn value(x: &Binary64) -> f64 {
    f64::from_bits(x.to_bits())
}

/// The conversion in hardware arithmetic.
fn hardware_c_to_f10(c: f64) -> i64 {
    ((c * 9.0 / 5.0 + 32.0).round() as i64).wrapping_mul(10)
}

fn hardware_f10_to_c(f10: i64) -> f64 {
    let c = (f10 as f64 / 10.0 - 32.0) * 5.0 / 9.0;
    (c * 10.0).round() / 10.0
}

/// A fixed stream of bit patterns.
fn patterns(count: usize) -> Vec<u64> {
    let mut out = Vec::new();
    let mut x: u64 = 0x9e37_79b9_7f4a_7c15;
    for _ in 0..count {
        x ^= x << 13;
        x ^= x >> 7;
        x ^= x << 17;
        out.push(x);
    }
    out
}

#[test]
fn celsius_matches_hardware_on_any_bit_pattern() {
    for bits in patterns(20000) {
        let c = f64::from_bits(bits);
        assert_eq!(c_to_f10(&double(c)), hardware_c_to_f10(c), "{}", c);
    }
}

#[test]
fn celsius_matches_hardware_near_room_temperature() {
    for bits in patterns(20000) {
        let c = (bits % 200_000_000) as f64 / 1_000_000.0 - 80.0;
        assert_eq!(c_to_f10(&double(c)), hardware_c_to_f10(c), "{}", c);
        let x = number(c);
        assert_eq!(value(&x.plus_two()), c + 2.0);
        assert_eq!(value(&x.minus_two()), c - 2.0);
    }
}

#[test]
fn sums_with_two_match_hardware_on_any_bit_pattern() {
    for bits in patterns(20000) {
        for shifted in [bits, 0x3000_0000_0000_0000 + bits % 0x2000_0000_0000_0000] {
            let c = f64::from_bits(shifted);
            if c.is_finite() {
                assert_eq!(value(&number(c).plus_two()).to_bits(), (c + 2.0).to_bits());
                assert_eq!(value(&number(c).minus_two()).to_bits(), (c - 2.0).to_bits());
                assert_eq!(value(&number(-c).plus_two()).to_bits(), (-c + 2.0).to_bits());
            }
        }
    }
}

#[test]
fn fahrenheit_matches_hardware() {
    for f10 in -20000i64..20000 {
        assert_eq!(value(&f10_to_c(f10)).to_bits(), hardware_f10_to_c(f10).to_bits(), "{}", f10);
    }
    for bits in patterns(20000) {
        let f10 = bits as i64 >> (bits % 60);
        assert_eq!(value(&f10_to_c(f10)).to_bits(), hardware_f10_to_c(f10).to_bits(), "{}", f10);
    }
}

#[test]
fn known_temperatures() {
    assert_eq!(c_to_f10(&double(20.0)), 680);
    assert_eq!(c_to_f10(&double(24.0)), 750);
    assert_eq!(c_to_f10(&double(21.0)), 700);
    assert_eq!(c_to_f10(&double(2.5)), 370);
    assert_eq!(c_to_f10(&double(-40.0)), -400);
    assert_eq!(value(&f10_to_c(680)), 20.0);
    assert_eq!(value(&f10_to_c(725)), 22.5);
    assert_eq!(value(&f10_to_c(701)), 21.2);
    assert_eq!(value(&f10_to_c(320)), 0.0);
    assert_eq!(value(&f10_to_c(319)), -0.1);
    assert_eq!(value(&f10_to_c(-400)), -40.0);
}

#[test]
fn degrees_past_an_i64_wrap_when_multiplied() {
    assert_eq!(c_to_f10(&double(1e300)), -10);
    assert_eq!(c_to_f10(&double(-1e300)), 0);
    assert_eq!(c_to_f10(&double(f64::MAX)), -10);
}

#[test]
fn whole_degrees_survive_the_round_trip() {
    for degrees in -2000i64..2000 {
        assert_eq!(c_to_f10(&Double::Finite(f10_to_c(10 * degrees))), 10 * degrees);
    }
    assert_eq!(c_to_f10(&Double::Finite(f10_to_c(10_000_000_000_000))), 10_000_000_000_000);
}

#[test]
fn doubles_that_are_not_finite_convert_too() {
    assert_eq!(c_to_f10(&double(f64::INFINITY)), -10);
    assert_eq!(c_to_f10(&double(f64::NEG_INFINITY)), 0);
    assert_eq!(c_to_f10(&double(f64::NAN)), 0);
    assert_eq!(c_to_f10(&double(-f64::NAN)), 0);
    for c in [f64::INFINITY, f64::NEG_INFINITY, f64::NAN] {
        assert_eq!(c_to_f10(&double(c)), hardware_c_to_f10(c));
    }
}
