use std::cmp::Ordering;
use std::f64::consts;
use std::num::FpCategory;
use unsigned_f64::{Binary64, UnsignedF64};

fn raw(x: f64) -> Binary64 {
    Binary64::from_bits(x.to_bits())
}

fn float(x: Binary64) -> f64 {
    f64::from_bits(x.to_bits())
}

fn value(x: f64) -> UnsignedF64 {
    UnsignedF64::new(raw(x)).unwrap()
}

fn bits(x: UnsignedF64) -> u64 {
    Binary64::from(x).to_bits()
}

fn accepted() -> Vec<f64> {
    vec![
        0.0,
        -0.0,
        5e-324,
        f64::MIN_POSITIVE,
        0.1,
        0.5,
        1.0,
        1.5,
        2.0,
        2.5,
        3.0,
        1.0e10,
        4503599627370496.5,
        1.0e300,
        f64::MAX,
        f64::INFINITY,
    ]
}

fn refused() -> Vec<f64> {
    vec![
        -5e-324,
        -f64::MIN_POSITIVE,
        -0.1,
        -1.0,
        -2.0,
        -1.0e300,
        f64::MIN,
        f64::NEG_INFINITY,
        f64::NAN,
        -f64::NAN,
        f64::from_bits(0x7FF0_0000_0000_0001),
        f64::from_bits(0xFFFF_FFFF_FFFF_FFFF),
    ]
}

#[test]
fn it_works() {
    let r = UnsignedF64::new(raw(2.0));
    assert!(r.is_some());
    assert!(float(Binary64::from(r.unwrap())) == 2.0);

    let n = UnsignedF64::new(raw(-2.0));
    assert_eq!(n, None);
}

#[test]
fn try_from() {
    let r = UnsignedF64::try_from(raw(2.0));
    assert!(r.is_ok());
    assert!(float(Binary64::from(r.unwrap())) == 2.0);

    let n = UnsignedF64::try_from(raw(-2.0));
    assert!(n.is_err());
}

#[test]
fn add() {
    let r = UnsignedF64::new(raw(2.0));
    assert!(r.is_some());
    let r = r.unwrap();

    let n = UnsignedF64::new(raw(3.0));
    assert!(n.is_some());
    let n = n.unwrap();

    let s = r + n;
    assert!(float(Binary64::from(s)) == 5.0);

    let s = r + raw(3.0);
    assert!(s == raw(5.0));
}

#[test]
fn sub() {
    let r = UnsignedF64::new(raw(2.0));
    assert!(r.is_some());
    let r = r.unwrap();

    let n = UnsignedF64::new(raw(3.0));
    assert!(n.is_some());
    let n = n.unwrap();

    let s = r - n;
    assert!(s == raw(-1.0));

    let s = r - raw(3.0);
    assert!(s == raw(-1.0));
}

#[test]
fn negate() {
    let r = UnsignedF64::new(raw(2.0));
    assert!(r.is_some());
    let r = r.unwrap();

    let n = -r;
    assert!(float(n) == -2.0);
}

#[test]
fn divide() {
    let r = UnsignedF64::new(raw(2.0));
    assert!(r.is_some());
    let r = r.unwrap();

    let n = UnsignedF64::new(raw(3.0));
    assert!(n.is_some());
    let n = n.unwrap();

    let s = r / n;
    assert!(float(Binary64::from(s)) == 2.0 / 3.0);

    let s = r / raw(3.0);
    assert!(s == raw(2.0 / 3.0));
}

#[test]
fn test_square() {
    let r = -2.;
    let n = UnsignedF64::square(raw(r));
    assert!(float(Binary64::from(n)) == 4.0);
}

#[test]
fn accepts_every_value_that_is_not_below_zero() {
    for x in accepted() {
        let made = UnsignedF64::new(raw(x));
        assert!(made.is_some(), "{x:?}");
        assert_eq!(bits(made.unwrap()), x.to_bits(), "{x:?}");
        let tried = UnsignedF64::try_from(raw(x));
        assert!(tried.is_ok(), "{x:?}");
        assert_eq!(bits(tried.unwrap()), x.to_bits(), "{x:?}");
    }
}

#[test]
fn refuses_negative_values_and_nan() {
    for x in refused() {
        assert!(UnsignedF64::new(raw(x)).is_none(), "{x:?}");
        assert_eq!(UnsignedF64::try_from(raw(x)), Err(()), "{x:?}");
    }
}

#[test]
fn constructors_agree_with_the_native_comparison() {
    let mut state: u64 = 0x5DEE_CE66_D1CE_4E5B;
    for _ in 0..50000 {
        state = state.wrapping_mul(6364136223846793005).wrapping_add(1442695040888963407);
        let pattern = state ^ (state >> 33);
        let x = f64::from_bits(pattern);
        assert_eq!(UnsignedF64::new(raw(x)).is_some(), x >= 0.0, "{x:?}");
        assert_eq!(UnsignedF64::try_from(raw(x)).is_ok(), x >= 0.0, "{x:?}");
    }
}

#[test]
fn negative_zero_is_kept_with_its_sign_bit() {
    let z = value(-0.0);
    assert_eq!(bits(z), 0x8000_0000_0000_0000);
    assert!(z.is_sign_negative());
    assert!(!z.is_sign_positive());
    assert_eq!(float(z.signum()), -1.0);
    assert_eq!(float(value(0.0).signum()), 1.0);
    assert_eq!(float(value(3.0).signum()), 1.0);
    assert!(z == value(0.0));
    assert_eq!(z.total_cmp(&value(0.0)), Ordering::Less);
    assert_eq!(bits(z.abs()), 0);
}

#[test]
fn unchecked_constructor_keeps_the_value() {
    for x in accepted() {
        assert_eq!(bits(UnsignedF64::from_f64_unchecked(raw(x))), x.to_bits());
    }
}

#[test]
fn raw_value_is_read_by_reference() {
    let v = value(2.5);
    let r: &Binary64 = v.as_ref();
    assert_eq!(r.to_bits(), 2.5f64.to_bits());
}

#[test]
fn copysign_takes_the_sign_of_a_raw_value() {
    assert_eq!(float(value(2.0).copysign(raw(-0.0))), -2.0);
    assert_eq!(float(value(2.0).copysign(raw(7.0))), 2.0);
    assert_eq!(value(-0.0).copysign(raw(1.0)).to_bits(), 0);
}

#[test]
fn sum_product_and_quotient_stay_positive_or_zero() {
    for x in accepted() {
        for y in accepted() {
            let (a, b) = (value(x), value(y));
            let s = float(Binary64::from(a + b));
            assert_eq!(s.to_bits(), (x + y).to_bits(), "{x:?} + {y:?}");
            assert!(s >= 0.0, "{x:?} + {y:?}");
            let p = float(Binary64::from(a * b));
            if (x == 0.0 && y.is_infinite()) || (x.is_infinite() && y == 0.0) {
                assert!(p.is_nan(), "{x:?} * {y:?}");
            } else {
                assert_eq!(p.to_bits(), (x * y).to_bits(), "{x:?} * {y:?}");
                assert!(p >= 0.0, "{x:?} * {y:?}");
            }
            let q = float(Binary64::from(a / b));
            if (x == 0.0 && y == 0.0) || (x.is_infinite() && y.is_infinite()) {
                assert!(q.is_nan(), "{x:?} / {y:?}");
            } else {
                assert_eq!(q.to_bits(), (x / y).to_bits(), "{x:?} / {y:?}");
                if y.to_bits() == (-0.0f64).to_bits() && x != 0.0 {
                    assert_eq!(q, f64::NEG_INFINITY, "{x:?} / {y:?}");
                } else {
                    assert!(q >= 0.0, "{x:?} / {y:?}");
                }
            }
        }
    }
}

#[test]
fn difference_is_the_native_one_and_may_be_negative() {
    for x in accepted() {
        for y in accepted() {
            let d = float(value(x) - value(y));
            if x.is_infinite() && y.is_infinite() {
                assert!(d.is_nan());
            } else {
                assert_eq!(d.to_bits(), (x - y).to_bits(), "{x:?} - {y:?}");
                assert_eq!(d < 0.0, x < y, "{x:?} - {y:?}");
            }
            let e = float(value(x) - raw(-y));
            if !(x.is_infinite() && y.is_infinite()) {
                assert_eq!(e.to_bits(), (x - -y).to_bits(), "{x:?} - -{y:?}");
            }
        }
    }
}

#[test]
fn two_and_three() {
    let two = value(2.0);
    let three = value(3.0);
    assert!(two + three == value(5.0));
    assert!(two - three == raw(-1.0));
    assert!(two / three == value(2.0 / 3.0));
    assert_eq!(bits(two / three), 0x3FE5_5555_5555_5555);
    assert!(-two == raw(-2.0));
    assert!(two * three == value(6.0));
}

#[test]
fn quotient_by_negative_zero_is_negative_infinity() {
    let one = value(1.0);
    let neg_zero = value(-0.0);
    let q = one / neg_zero;
    assert_eq!(bits(q), f64::NEG_INFINITY.to_bits());
    assert!(q.is_infinite());
    assert!(q.is_sign_negative());
    assert!(q < raw(0.0));
    assert_eq!(bits(one.recip()), 1.0f64.to_bits());
    assert_eq!(bits(neg_zero.recip()), f64::NEG_INFINITY.to_bits());
    assert_eq!(bits(value(4.0).recip()), 0.25f64.to_bits());
}

#[test]
fn zero_by_zero_is_nan_in_the_type() {
    let q = value(0.0) / value(0.0);
    assert!(q.is_nan());
    assert_eq!(q.classify(), FpCategory::Nan);
    assert!(q != q);
    assert!((value(f64::INFINITY) / value(f64::INFINITY)).is_nan());
    assert!((value(0.0) * value(f64::INFINITY)).is_nan());
}

#[test]
fn compound_assignment_replaces_the_value() {
    let mut v = value(2.0);
    v += value(3.0);
    assert_eq!(bits(v), 5.0f64.to_bits());
    v *= value(4.0);
    assert_eq!(bits(v), 20.0f64.to_bits());
    v /= value(8.0);
    assert_eq!(bits(v), 2.5f64.to_bits());
}

#[test]
fn mixed_arithmetic_gives_raw_values() {
    let v = value(2.0);
    assert_eq!(float(v + raw(-5.0)), -3.0);
    assert_eq!(float(v - raw(5.0)), -3.0);
    assert_eq!(float(v * raw(-5.0)), -10.0);
    assert_eq!(float(v / raw(-4.0)), -0.5);
}

#[test]
fn square_root_is_never_nan() {
    for x in accepted() {
        let r = value(x).sqrt();
        assert!(!r.is_nan(), "{x:?}");
        assert_eq!(bits(r), x.sqrt().to_bits(), "{x:?}");
    }
    assert_eq!(bits(value(-0.0).sqrt()), (-0.0f64).to_bits());
    assert_eq!(bits(value(2.0).sqrt()), consts::SQRT_2.to_bits());
    assert_eq!(bits(value(9.0).sqrt()), 3.0f64.to_bits());
}

#[test]
fn distance_between_two_points() {
    let (start, end) = ((3.0f64, 4.0f64), (5.0f64, 12.0f64));
    let x = raw(start.0) - raw(end.0);
    let y = raw(start.1) - raw(end.1);
    let d = (UnsignedF64::square(x) + UnsignedF64::square(y)).sqrt();
    assert_eq!(bits(d), 68.0f64.sqrt().to_bits());
}

#[test]
fn rounding_to_whole_numbers() {
    let v = value(2.5);
    assert_eq!(bits(v.floor()), 2.0f64.to_bits());
    assert_eq!(bits(v.ceil()), 3.0f64.to_bits());
    assert_eq!(bits(v.round()), 3.0f64.to_bits());
    assert_eq!(bits(v.trunc()), 2.0f64.to_bits());
    assert_eq!(bits(v.fract()), 0.5f64.to_bits());
    assert_eq!(bits(value(0.4).round()), 0);
    assert_eq!(bits(value(0.5).round()), 1.0f64.to_bits());
    assert_eq!(bits(value(-0.0).floor()), (-0.0f64).to_bits());
    assert_eq!(bits(value(-0.0).fract()), 0);
    assert!(value(f64::INFINITY).fract().is_nan());
    for x in accepted() {
        let v = value(x);
        assert_eq!(bits(v.floor()), x.floor().to_bits(), "{x:?}");
        assert_eq!(bits(v.ceil()), x.ceil().to_bits(), "{x:?}");
        assert_eq!(bits(v.round()), x.round().to_bits(), "{x:?}");
        assert_eq!(bits(v.trunc()), x.trunc().to_bits(), "{x:?}");
        if x.is_finite() {
            assert_eq!(bits(v.fract()), x.fract().to_bits(), "{x:?}");
        }
    }
}

#[test]
fn classification() {
    assert_eq!(value(0.0).classify(), FpCategory::Zero);
    assert_eq!(value(-0.0).classify(), FpCategory::Zero);
    assert_eq!(value(5e-324).classify(), FpCategory::Subnormal);
    assert_eq!(value(1.0).classify(), FpCategory::Normal);
    assert_eq!(value(f64::INFINITY).classify(), FpCategory::Infinite);
    for x in accepted() {
        let v = value(x);
        assert!(!v.is_nan());
        assert_eq!(v.is_infinite(), x.is_infinite());
        assert_eq!(v.is_finite(), x.is_finite());
        assert_eq!(v.is_subnormal(), x.is_subnormal());
        assert_eq!(v.is_normal(), x.is_normal());
        assert_eq!(v.classify(), x.classify());
        assert_eq!(v.is_sign_positive(), x.is_sign_positive());
        assert_eq!(v.is_sign_negative(), x.is_sign_negative());
    }
}

#[test]
fn largest_smallest_and_clamped() {
    assert_eq!(bits(value(2.0).max(value(3.0))), 3.0f64.to_bits());
    assert_eq!(bits(value(2.0).min(value(3.0))), 2.0f64.to_bits());
    assert_eq!(bits(value(5.0).clamp(value(1.0), value(3.0))), 3.0f64.to_bits());
    assert_eq!(bits(value(0.5).clamp(value(1.0), value(3.0))), 1.0f64.to_bits());
    assert_eq!(bits(value(2.0).clamp(value(1.0), value(3.0))), 2.0f64.to_bits());
    let nan = value(0.0) / value(0.0);
    assert_eq!(bits(nan.max(value(3.0))), 3.0f64.to_bits());
    assert_eq!(bits(value(3.0).min(nan)), 3.0f64.to_bits());
    assert!(nan.clamp(value(1.0), value(3.0)).is_nan());
}

#[test]
fn comparisons_with_values_and_raw_values() {
    assert!(value(2.0) < value(3.0));
    assert!(value(3.0) >= value(3.0));
    assert!(value(2.0) != value(3.0));
    assert!(value(2.0) == raw(2.0));
    assert!(value(2.0) > raw(-7.0));
    assert!(value(2.0) >= raw(0.0));
    assert_eq!(value(2.0).partial_cmp(&raw(f64::NAN)), None);
    assert_eq!(value(2.0).partial_cmp(&raw(2.0)), Some(Ordering::Equal));
    assert_eq!(value(2.0).partial_cmp(&value(1.0)), Some(Ordering::Greater));
    assert_eq!(value(2.0).total_cmp(&value(3.0)), Ordering::Less);
}

#[test]
fn fused_product_and_sum() {
    let r = value(2.0).mul_add(value(3.0), value(4.0));
    assert_eq!(bits(r), 10.0f64.to_bits());
    let x = 1.0 + f64::EPSILON;
    let r = value(x).mul_add(value(x), value(0.0));
    assert_eq!(bits(r), x.mul_add(x, 0.0).to_bits());
    assert!(value(0.0).mul_add(value(f64::INFINITY), value(1.0)).is_nan());
}

#[test]
fn remainder_that_is_not_below_zero() {
    assert_eq!(bits(value(7.0).rem_euclid(value(4.0))), 3.0f64.to_bits());
    assert_eq!(bits(value(7.5).rem_euclid(value(0.5))), 0);
    assert_eq!(bits(value(1.0e300).rem_euclid(value(3.0))), 1.0e300f64.rem_euclid(3.0).to_bits());
    assert!(value(7.0).rem_euclid(value(0.0)).is_nan());
    assert!(value(f64::INFINITY).rem_euclid(value(2.0)).is_nan());
    assert_eq!(bits(value(7.0).rem_euclid(value(f64::INFINITY))), 7.0f64.to_bits());
}

#[test]
fn degrees_and_radians() {
    assert_eq!(bits(UnsignedF64::pi().to_degrees()), 180.0f64.to_bits());
    assert_eq!(bits(value(180.0).to_radians()), consts::PI.to_bits());
    for x in accepted() {
        assert_eq!(bits(value(x).to_degrees()), x.to_degrees().to_bits(), "{x:?}");
        assert_eq!(bits(value(x).to_radians()), x.to_radians().to_bits(), "{x:?}");
    }
}

#[test]
fn constants_are_those_of_the_format() {
    assert_eq!(bits(UnsignedF64::pi()), consts::PI.to_bits());
    assert_eq!(bits(UnsignedF64::e()), consts::E.to_bits());
    assert_eq!(bits(UnsignedF64::frac_1_pi()), consts::FRAC_1_PI.to_bits());
    assert_eq!(bits(UnsignedF64::frac_1_sqrt_2()), consts::FRAC_1_SQRT_2.to_bits());
    assert_eq!(bits(UnsignedF64::frac_2_pi()), consts::FRAC_2_PI.to_bits());
    assert_eq!(bits(UnsignedF64::frac_2_sqrt_pi()), consts::FRAC_2_SQRT_PI.to_bits());
    assert_eq!(bits(UnsignedF64::frac_pi_2()), consts::FRAC_PI_2.to_bits());
    assert_eq!(bits(UnsignedF64::frac_pi_3()), consts::FRAC_PI_3.to_bits());
    assert_eq!(bits(UnsignedF64::frac_pi_4()), consts::FRAC_PI_4.to_bits());
    assert_eq!(bits(UnsignedF64::frac_pi_6()), consts::FRAC_PI_6.to_bits());
    assert_eq!(bits(UnsignedF64::frac_pi_8()), consts::FRAC_PI_8.to_bits());
    assert_eq!(bits(UnsignedF64::ln_10()), consts::LN_10.to_bits());
    assert_eq!(bits(UnsignedF64::ln_2()), consts::LN_2.to_bits());
    assert_eq!(bits(UnsignedF64::log10_e()), consts::LOG10_E.to_bits());
    assert_eq!(bits(UnsignedF64::log2_e()), consts::LOG2_E.to_bits());
    assert_eq!(bits(UnsignedF64::sqrt_2()), consts::SQRT_2.to_bits());
    assert_eq!(bits(UnsignedF64::tau()), consts::TAU.to_bits());
    assert_eq!(bits(UnsignedF64::epsilon()), f64::EPSILON.to_bits());
    assert_eq!(bits(UnsignedF64::infinity()), f64::INFINITY.to_bits());
    assert_eq!(bits(UnsignedF64::zero()), 0.0f64.to_bits());
    assert_eq!(bits(UnsignedF64::one()), 1.0f64.to_bits());
}
