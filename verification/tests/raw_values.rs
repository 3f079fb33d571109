use std::cmp::Ordering;
use unsigned_f64::Binary64;

fn raw(x: f64) -> Binary64 {
    Binary64::from_bits(x.to_bits())
}

fn float(x: Binary64) -> f64 {
    f64::from_bits(x.to_bits())
}

fn samples() -> Vec<f64> {
    let mut v = vec![
        0.0,
        -0.0,
        5e-324,
        -5e-324,
        f64::MIN_POSITIVE,
        -f64::MIN_POSITIVE,
        2.2250738585072009e-308,
        0.1,
        0.25,
        0.49999999999999994,
        0.5,
        -0.5,
        0.75,
        0.9999999999999999,
        1.0,
        -1.0,
        1.0000000000000002,
        1.5,
        -1.5,
        2.0,
        2.5,
        -2.5,
        3.0,
        3.5,
        3.7,
        -3.7,
        1023.9999999999999,
        1.0e15,
        2251799813685247.5,
        2251799813685248.5,
        4503599627370495.5,
        -4503599627370495.5,
        4503599627370496.0,
        4503599627370497.0,
        9007199254740992.0,
        1.0e300,
        -1.0e300,
        f64::MAX,
        f64::MIN,
        f64::INFINITY,
        f64::NEG_INFINITY,
        f64::NAN,
        -f64::NAN,
        f64::from_bits(0x7FF0_0000_0000_0001),
        f64::from_bits(0xFFF0_0000_0000_0001),
        f64::from_bits(0x7FFF_FFFF_FFFF_FFFF),
    ];
    let mut state: u64 = 0x9E37_79B9_7F4A_7C15;
    for i in 0..4000u64 {
        state = state.wrapping_mul(6364136223846793005).wrapping_add(1442695040888963407);
        let mut bits = state ^ (state >> 29);
        if i % 2 == 0 {
            // keep the exponent near that of one, where whole and fractional parts meet
            let exponent = 1000 + (state >> 52) % 100;
            bits = (bits & 0x800F_FFFF_FFFF_FFFF) | (exponent << 52);
        }
        v.push(f64::from_bits(bits));
    }
    v
}

fn same_value(a: f64, b: f64) -> bool {
    if a.is_nan() || b.is_nan() {
        a.is_nan() && b.is_nan()
    } else {
        a.to_bits() == b.to_bits()
    }
}

#[test]
fn classification_matches_native() {
    for x in samples() {
        let r = raw(x);
        assert_eq!(r.is_nan(), x.is_nan(), "{x:?}");
        assert_eq!(r.is_infinite(), x.is_infinite(), "{x:?}");
        assert_eq!(r.is_finite(), x.is_finite(), "{x:?}");
        assert_eq!(r.is_subnormal(), x.is_subnormal(), "{x:?}");
        assert_eq!(r.is_normal(), x.is_normal(), "{x:?}");
        assert_eq!(r.classify(), x.classify(), "{x:?}");
        assert_eq!(r.is_sign_positive(), x.is_sign_positive(), "{x:?}");
        assert_eq!(r.is_sign_negative(), x.is_sign_negative(), "{x:?}");
        assert_eq!(r.is_non_negative(), x >= 0.0, "{x:?}");
    }
}

#[test]
fn sign_operations_match_native() {
    for x in samples() {
        let r = raw(x);
        assert_eq!(r.abs().to_bits(), x.abs().to_bits(), "{x:?}");
        assert_eq!((-r).to_bits(), (-x).to_bits(), "{x:?}");
        assert!(same_value(float(r.signum()), x.signum()), "{x:?}");
        for s in [1.0, -1.0, 0.0, -0.0, f64::NAN, -f64::NAN, f64::NEG_INFINITY] {
            assert_eq!(r.copysign(raw(s)).to_bits(), x.copysign(s).to_bits(), "{x:?} {s:?}");
        }
    }
}

#[test]
fn rounding_matches_native() {
    for x in samples() {
        let r = raw(x);
        assert!(same_value(float(r.floor()), x.floor()), "floor {x:?}");
        assert!(same_value(float(r.ceil()), x.ceil()), "ceil {x:?}");
        assert!(same_value(float(r.round()), x.round()), "round {x:?}");
        assert!(same_value(float(r.trunc()), x.trunc()), "trunc {x:?}");
        assert!(same_value(float(r.fract()), x.fract()), "fract {x:?} {:?}", float(r.fract()));
    }
}

#[test]
fn comparisons_match_native() {
    let v = samples();
    let few: Vec<f64> = v.iter().copied().take(120).collect();
    for &x in &few {
        for &y in &few {
            let (a, b) = (raw(x), raw(y));
            assert_eq!(a == b, x == y, "{x:?} {y:?}");
            assert_eq!(a != b, x != y, "{x:?} {y:?}");
            assert_eq!(a < b, x < y, "{x:?} {y:?}");
            assert_eq!(a <= b, x <= y, "{x:?} {y:?}");
            assert_eq!(a > b, x > y, "{x:?} {y:?}");
            assert_eq!(a >= b, x >= y, "{x:?} {y:?}");
            assert_eq!(a.partial_cmp(&b), x.partial_cmp(&y), "{x:?} {y:?}");
            assert_eq!(a.total_cmp(&b), x.total_cmp(&y), "{x:?} {y:?}");
        }
    }
}

#[test]
fn max_min_match_native() {
    let v = samples();
    let few: Vec<f64> = v.iter().copied().take(120).collect();
    for &x in &few {
        for &y in &few {
            let (a, b) = (raw(x), raw(y));
            let (hi, lo) = (float(a.max(b)), float(a.min(b)));
            if x.is_nan() || y.is_nan() || x != y {
                assert!(same_value(hi, x.max(y)), "max {x:?} {y:?}");
                assert!(same_value(lo, x.min(y)), "min {x:?} {y:?}");
            } else {
                // equal numbers: either may come back, here it is the first
                assert_eq!(hi.to_bits(), x.to_bits());
                assert_eq!(lo.to_bits(), x.to_bits());
            }
        }
    }
}

#[test]
fn clamp_matches_native() {
    let v = samples();
    let few: Vec<f64> = v.iter().copied().take(60).collect();
    for &x in &few {
        for &lo in &few {
            for &hi in &few {
                if lo <= hi {
                    let r = raw(x).clamp(raw(lo), raw(hi));
                    assert!(same_value(float(r), x.clamp(lo, hi)), "{x:?} {lo:?} {hi:?}");
                }
            }
        }
    }
}

#[test]
fn total_order_tells_zeros_and_nans_apart() {
    assert_eq!(raw(-0.0).total_cmp(&raw(0.0)), Ordering::Less);
    assert_eq!(raw(0.0).total_cmp(&raw(0.0)), Ordering::Equal);
    assert_eq!(raw(f64::INFINITY).total_cmp(&raw(f64::NAN)), Ordering::Less);
    assert_eq!(raw(-f64::NAN).total_cmp(&raw(f64::NEG_INFINITY)), Ordering::Less);
    assert_eq!(raw(1.0).total_cmp(&raw(-1.0)), Ordering::Greater);
}

fn pairs() -> Vec<(f64, f64)> {
    let v = samples();
    let few: Vec<f64> = v.iter().copied().take(80).collect();
    let mut out = Vec::new();
    for &x in &few {
        for &y in &few {
            out.push((x, y));
        }
    }
    // random pairs, and pairs whose exponents are near each other or near the ends
    let mut state: u64 = 0x0123_4567_89AB_CDEF;
    let mut next = move || {
        state = state.wrapping_mul(6364136223846793005).wrapping_add(1442695040888963407);
        state ^ (state >> 31)
    };
    for i in 0..60000u64 {
        let a = next();
        let mut b = next();
        match i % 6 {
            0 => {}
            1 => {
                // exponents close together
                let ea = (a >> 52) & 0x7FF;
                let delta = next() % 120;
                let eb = (ea + 2047 + 60 - delta) % 2047;
                b = (b & 0x800F_FFFF_FFFF_FFFF) | (eb << 52);
            }
            2 => {
                // products and quotients near the subnormal range
                let ea = (a >> 52) & 0x7FF;
                let eb = (2046 + 1023 - 1060 - ea + (next() % 80)) % 2047;
                b = (b & 0x800F_FFFF_FFFF_FFFF) | (eb << 52);
            }
            3 => {
                // products near overflow
                let ea = (a >> 52) & 0x7FF;
                let eb = (2046 + 1023 + 1010 - ea + (next() % 30)) % 2047;
                b = (b & 0x800F_FFFF_FFFF_FFFF) | (eb << 52);
            }
            4 => {
                // few significant bits: many exact results and ties
                b = (b & 0xFFF0_0000_0000_0000) | ((next() % 8) << 49);
                let a2 = (a & 0xFFF0_0000_0000_0000) | ((next() % 16) << 48);
                out.push((f64::from_bits(a2), f64::from_bits(b)));
                continue;
            }
            _ => {
                // subnormal operands
                b &= 0x800F_FFFF_FFFF_FFFF;
            }
        }
        out.push((f64::from_bits(a), f64::from_bits(b)));
    }
    out
}

#[test]
fn multiplication_matches_native() {
    for (x, y) in pairs() {
        let r = float(raw(x) * raw(y));
        assert!(same_value(r, x * y), "{x:?} * {y:?} = {:?}, not {r:?}", x * y);
    }
}

#[test]
fn addition_matches_native() {
    for (x, y) in pairs() {
        let r = float(raw(x) + raw(y));
        assert!(same_value(r, x + y), "{x:?} + {y:?} = {:?}, not {r:?}", x + y);
    }
}

#[test]
fn subtraction_matches_native() {
    for (x, y) in pairs() {
        let r = float(raw(x) - raw(y));
        assert!(same_value(r, x - y), "{x:?} - {y:?} = {:?}, not {r:?}", x - y);
    }
}

#[test]
fn division_matches_native() {
    for (x, y) in pairs() {
        let r = float(raw(x) / raw(y));
        assert!(same_value(r, x / y), "{x:?} / {y:?} = {:?}, not {r:?}", x / y);
    }
}

#[test]
fn square_root_matches_native() {
    let mut all = samples();
    for (x, y) in pairs() {
        all.push(x);
        all.push(y);
    }
    // perfect squares and their neighbours
    for i in 0..3000u64 {
        let r = (i * 7919 + 1) as f64;
        let sq = r * r;
        all.push(sq);
        all.push(f64::from_bits(sq.to_bits() + 1));
        all.push(f64::from_bits(sq.to_bits() - 1));
    }
    for x in all {
        let r = float(raw(x).sqrt());
        assert!(same_value(r, x.sqrt()), "sqrt {x:?} = {:?}, not {r:?}", x.sqrt());
    }
}

#[test]
fn remainder_matches_native() {
    for (x, y) in pairs() {
        let r = float(raw(x) % raw(y));
        assert!(same_value(r, x % y), "{x:?} % {y:?} = {:?}, not {r:?}", x % y);
        let e = float(raw(x).rem_euclid(raw(y)));
        assert!(
            same_value(e, x.rem_euclid(y)),
            "{x:?} rem_euclid {y:?} = {:?}, not {e:?}",
            x.rem_euclid(y)
        );
    }
}

#[test]
fn reciprocal_and_angles_match_native() {
    let mut all = samples();
    for (x, _) in pairs() {
        all.push(x);
    }
    for x in all {
        let r = raw(x);
        assert!(same_value(float(r.recip()), x.recip()), "recip {x:?}");
        assert!(same_value(float(r.to_degrees()), x.to_degrees()), "to_degrees {x:?}");
        assert!(same_value(float(r.to_radians()), x.to_radians()), "to_radians {x:?}");
    }
}

#[test]
fn fused_multiply_add_matches_native() {
    let ps = pairs();
    let n = ps.len();
    for (i, &(x, y)) in ps.iter().enumerate() {
        // third operands: unrelated ones, and ones that nearly cancel the product
        let (u, v) = ps[(i * 7 + 13) % n];
        let near = f64::from_bits((-(x * y)).to_bits() ^ 1);
        let candidates = [u, v, -(x * y), near, x, -y, 1.0, -0.0];
        for z in candidates {
            let r = float(raw(x).mul_add(raw(y), raw(z)));
            let native = x.mul_add(y, z);
            assert!(same_value(r, native), "{x:?} * {y:?} + {z:?} = {native:?}, not {r:?}");
        }
    }
}
