use std::cmp::Ordering;
use std::f64::consts;
use unsigned_f64::{Binary64, PositiveF64};

fn raw(x: f64) -> Binary64 {
    Binary64::from_bits(x.to_bits())
}

fn float(x: Binary64) -> f64 {
    f64::from_bits(x.to_bits())
}

fn positive(x: f64) -> PositiveF64 {
    PositiveF64::new(raw(x)).unwrap()
}

fn bits(x: PositiveF64) -> u64 {
    Binary64::from(x).to_bits()
}

#[test]
fn positive_accepts_and_refuses() {
    for x in [0.0, -0.0, 5e-324, 1.0, 2.0, f64::MAX, f64::INFINITY] {
        assert_eq!(bits(PositiveF64::new(raw(x)).unwrap()), x.to_bits(), "{x:?}");
        assert_eq!(bits(PositiveF64::try_from(raw(x)).unwrap()), x.to_bits(), "{x:?}");
        assert_eq!(bits(PositiveF64::from_f64_unchecked(raw(x))), x.to_bits(), "{x:?}");
    }
    for x in [-5e-324, -1.0, -2.0, f64::NEG_INFINITY, f64::NAN, -f64::NAN] {
        assert_eq!(PositiveF64::new(raw(x)), None, "{x:?}");
        assert_eq!(PositiveF64::try_from(raw(x)), Err(()), "{x:?}");
    }
}

#[test]
fn absolute_value_and_square_of_raw_values() {
    assert_eq!(bits(PositiveF64::abs(raw(-2.0))), 2.0f64.to_bits());
    assert_eq!(bits(PositiveF64::abs(raw(2.0))), 2.0f64.to_bits());
    assert_eq!(bits(PositiveF64::abs(raw(-0.0))), 0);
    assert_eq!(bits(PositiveF64::abs(raw(f64::NEG_INFINITY))), f64::INFINITY.to_bits());
    assert_eq!(bits(PositiveF64::square(raw(-2.0))), 4.0f64.to_bits());
    assert_eq!(bits(PositiveF64::square(raw(1.5))), 2.25f64.to_bits());
    assert_eq!(bits(PositiveF64::square(raw(-0.0))), 0);
    let nan = Binary64::from(PositiveF64::abs(raw(f64::NAN)));
    assert!(nan.is_nan());
    assert!(Binary64::from(PositiveF64::square(raw(f64::NAN))).is_nan());
}

#[test]
fn positive_arithmetic() {
    let two = positive(2.0);
    let three = positive(3.0);
    assert_eq!(bits(two + three), 5.0f64.to_bits());
    assert_eq!(bits(two * three), 6.0f64.to_bits());
    assert_eq!(bits(two / three), (2.0f64 / 3.0).to_bits());
    assert_eq!(float(two - three), -1.0);
    assert_eq!(float(-two), -2.0);
    assert_eq!(float(two + raw(-3.0)), -1.0);
    assert_eq!(float(two - raw(3.0)), -1.0);
    assert_eq!(float(two * raw(-3.0)), -6.0);
    assert_eq!(float(two / raw(-4.0)), -0.5);
    let mut v = two;
    v += three;
    assert_eq!(bits(v), 5.0f64.to_bits());
    v *= two;
    assert_eq!(bits(v), 10.0f64.to_bits());
    v /= positive(4.0);
    assert_eq!(bits(v), 2.5f64.to_bits());
}

#[test]
fn positive_comparisons() {
    assert!(positive(2.0) < positive(3.0));
    assert!(positive(0.0) == positive(-0.0));
    assert!(positive(2.0) == raw(2.0));
    assert!(positive(2.0) > raw(-1.0));
    assert_eq!(positive(2.0).partial_cmp(&raw(f64::NAN)), None);
    assert_eq!(positive(2.0).partial_cmp(&positive(2.0)), Some(Ordering::Equal));
    let two = positive(2.0);
    let r: &Binary64 = two.as_ref();
    assert_eq!(r.to_bits(), 2.0f64.to_bits());
}

#[test]
fn positive_constants_are_those_of_the_format() {
    assert_eq!(bits(PositiveF64::pi()), consts::PI.to_bits());
    assert_eq!(bits(PositiveF64::e()), consts::E.to_bits());
    assert_eq!(bits(PositiveF64::frac_1_pi()), consts::FRAC_1_PI.to_bits());
    assert_eq!(bits(PositiveF64::frac_1_sqrt_2()), consts::FRAC_1_SQRT_2.to_bits());
    assert_eq!(bits(PositiveF64::frac_2_pi()), consts::FRAC_2_PI.to_bits());
    assert_eq!(bits(PositiveF64::frac_2_sqrt_pi()), consts::FRAC_2_SQRT_PI.to_bits());
    assert_eq!(bits(PositiveF64::frac_pi_2()), consts::FRAC_PI_2.to_bits());
    assert_eq!(bits(PositiveF64::frac_pi_3()), consts::FRAC_PI_3.to_bits());
    assert_eq!(bits(PositiveF64::frac_pi_4()), consts::FRAC_PI_4.to_bits());
    assert_eq!(bits(PositiveF64::frac_pi_6()), consts::FRAC_PI_6.to_bits());
    assert_eq!(bits(PositiveF64::frac_pi_8()), consts::FRAC_PI_8.to_bits());
    assert_eq!(bits(PositiveF64::ln_10()), consts::LN_10.to_bits());
    assert_eq!(bits(PositiveF64::ln_2()), consts::LN_2.to_bits());
    assert_eq!(bits(PositiveF64::log10_e()), consts::LOG10_E.to_bits());
    assert_eq!(bits(PositiveF64::log2_e()), consts::LOG2_E.to_bits());
    assert_eq!(bits(PositiveF64::sqrt_2()), consts::SQRT_2.to_bits());
    assert_eq!(bits(PositiveF64::tau()), consts::TAU.to_bits());
    assert_eq!(bits(PositiveF64::epsilon()), f64::EPSILON.to_bits());
    assert_eq!(bits(PositiveF64::infinity()), f64::INFINITY.to_bits());
    assert_eq!(bits(PositiveF64::zero()), 0.0f64.to_bits());
    assert_eq!(bits(PositiveF64::one()), 1.0f64.to_bits());
}
