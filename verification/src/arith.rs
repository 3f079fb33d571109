//! The arithmetic of the format on raw values: each result is the exact
//! result rounded to the nearest value, ties to even.
use vstd::prelude::*;
use vstd::arithmetic::power2::lemma_pow2_adds;
use vstd::arithmetic::power2::lemma_pow2_pos;
use vstd::arithmetic::power2::lemma_pow2_strictly_increases;
use vstd::arithmetic::power2::pow2;
use vstd::std_specs::ops::AddSpecImpl;
use vstd::std_specs::ops::DivSpecImpl;
use vstd::std_specs::ops::MulSpecImpl;
use vstd::std_specs::ops::SubSpecImpl;
use crate::binary64::Binary64;
use crate::consts;
use crate::ieee;
use crate::ieee::abs_units;
use crate::ieee::HIDDEN_BIT;
use crate::ieee::INFINITY_BITS;
use crate::ieee::is_finite;
use crate::ieee::is_infinite;
use crate::ieee::is_nan;
use crate::ieee::is_zero;
use crate::ieee::magnitude;
use crate::ieee::ONE_BITS;
use crate::ieee::QUIET_NAN_BITS;
use crate::ieee::scale;
use crate::ieee::SIGN_BIT;
use crate::ieee::sign_negative;
use crate::ieee::significand;
use crate::ieee::units;
use crate::ieee::with_sign;
use crate::integral::one;
use crate::rounding::bit_length;
use crate::wide::rounded_sum_of_parts;
use crate::wide::signed_units;
use crate::rounding::lemma_powers;
use crate::rounding::lemma_round_to_nearest;
use crate::rounding::power_of_two;
use crate::rounding::round_pack;
use crate::rounding::round_to_nearest;

verus! {

/// The product of two patterns. It is NaN where either is NaN and for zero
/// times infinity. Else its sign bit is set exactly when the sign bits of the
/// two differ, and its magnitude is that of infinity where either is
/// infinite, and else the exact product of the two sizes, rounded.
pub open spec fn product(a: u64, b: u64) -> u64 {
    let negative = sign_negative(a) != sign_negative(b);
    if is_nan(a) || is_nan(b) {
        QUIET_NAN_BITS
    } else if (is_infinite(a) && is_zero(b)) || (is_zero(a) && is_infinite(b)) {
        QUIET_NAN_BITS
    } else if is_infinite(a) || is_infinite(b) {
        with_sign(INFINITY_BITS, negative)
    } else {
        with_sign(round_to_nearest((abs_units(a) * abs_units(b)) as int, one()), negative)
    }
}

/// The sum of two patterns. It is NaN where either is NaN and for the sum of
/// the two infinities, and an infinity where one of the two is that infinity.
/// Else it is the exact sum of the two values, rounded; an exact sum of zero
/// has its sign bit set only where both patterns have.
pub open spec fn sum(a: u64, b: u64) -> u64 {
    if is_nan(a) || is_nan(b) {
        QUIET_NAN_BITS
    } else if is_infinite(a) && is_infinite(b) && sign_negative(a) != sign_negative(b) {
        QUIET_NAN_BITS
    } else if is_infinite(a) {
        a
    } else if is_infinite(b) {
        b
    } else {
        rounded_sum(units(a), sign_negative(a), units(b), sign_negative(b))
    }
}

/// The difference of two patterns: the sum of the first and the second with
/// its sign bit flipped.
pub open spec fn difference(a: u64, b: u64) -> u64 {
    sum(a, with_sign(b, !sign_negative(b)))
}

/// The pattern of the sum of two finite values which are given in units,
/// each with its sign bit.
pub open spec fn rounded_sum(x: int, x_negative: bool, y: int, y_negative: bool) -> u64 {
    let s = x + y;
    if s == 0 {
        if x_negative && y_negative {
            SIGN_BIT
        } else {
            0
        }
    } else if s > 0 {
        round_to_nearest(s, 1)
    } else {
        with_sign(round_to_nearest(-s, 1), true)
    }
}

/// The quotient of two patterns. It is NaN where either is NaN, for infinity
/// by infinity and for zero by zero. Else its sign bit is set exactly when
/// the sign bits of the two differ, and its magnitude is that of infinity
/// where the first is infinite or the second zero, zero where the second is
/// infinite, and else the exact quotient of the two sizes, rounded.
pub open spec fn quotient(a: u64, b: u64) -> u64 {
    let negative = sign_negative(a) != sign_negative(b);
    if is_nan(a) || is_nan(b) {
        QUIET_NAN_BITS
    } else if (is_infinite(a) && is_infinite(b)) || (is_zero(a) && is_zero(b)) {
        QUIET_NAN_BITS
    } else if is_infinite(a) || is_zero(b) {
        with_sign(INFINITY_BITS, negative)
    } else if is_infinite(b) {
        with_sign(0, negative)
    } else {
        with_sign(round_to_nearest(abs_units(a) * one(), abs_units(b) as int), negative)
    }
}

/// The pattern of `180.0`.
pub const ONE_EIGHTY_BITS: u64 = 0x4066_8000_0000_0000;

/// The reciprocal of a pattern: one, divided by it.
pub open spec fn reciprocal(a: u64) -> u64 {
    quotient(ONE_BITS, a)
}

/// An angle in degrees for a pattern in radians: the pattern times the
/// quotient of 180 and pi, both operations rounded.
pub open spec fn degrees(a: u64) -> u64 {
    product(a, quotient(ONE_EIGHTY_BITS, consts::PI))
}

/// An angle in radians for a pattern in degrees: the pattern times the
/// quotient of pi and 180, both operations rounded.
pub open spec fn radians(a: u64) -> u64 {
    product(a, quotient(consts::PI, ONE_EIGHTY_BITS))
}

/// The sum of two finite patterns is the same whether the two are counted in
/// units or in parts.
proof fn lemma_sum_in_parts(a: u64, b: u64)
    requires
        is_finite(a),
        is_finite(b),
    ensures
        rounded_sum(units(a), sign_negative(a), units(b), sign_negative(b))
            == rounded_sum_of_parts(
            signed_units(significand(a) as int, scale(a) + 1074, sign_negative(a)),
            sign_negative(a),
            signed_units(significand(b) as int, scale(b) + 1074, sign_negative(b)),
            sign_negative(b),
        ),
{
    let p = one();
    let s = units(a) + units(b);
    let x = signed_units(significand(a) as int, scale(a) + 1074, sign_negative(a));
    let y = signed_units(significand(b) as int, scale(b) + 1074, sign_negative(b));
    lemma_pow2_pos(1074);
    lemma_pow2_adds(scale(a), 1074);
    lemma_pow2_adds(scale(b), 1074);
    lemma_units_in_parts(a);
    lemma_units_in_parts(b);
    assert(x + y == s * p) by (nonlinear_arith)
        requires
            x == units(a) * p,
            y == units(b) * p,
            s == units(a) + units(b),
    ;
    assert(s > 0 <==> s * p > 0) by (nonlinear_arith)
        requires
            p > 0,
    ;
    assert(s == 0 <==> s * p == 0) by (nonlinear_arith)
        requires
            p > 0,
    ;
    if s > 0 {
        lemma_same_in_parts(s);
    }
    if s < 0 {
        lemma_same_in_parts(-s);
        assert(-(s * p) == (-s) * p) by (nonlinear_arith);
    }
}

/// The value of a finite pattern in parts.
proof fn lemma_units_in_parts(a: u64)
    ensures
        signed_units(significand(a) as int, scale(a) + 1074, sign_negative(a)) == units(a) * one(),
{
    let sg = significand(a) as int;
    let pa = pow2(scale(a)) as int;
    let p = one();
    lemma_pow2_adds(scale(a), 1074);
    assert(sg * (pa * p) == (sg * pa) * p) by (nonlinear_arith);
    assert((-(sg * pa)) * p == -((sg * pa) * p)) by (nonlinear_arith);
}

/// A whole number of units rounds alike when it is counted in parts.
proof fn lemma_same_in_parts(s: int)
    requires
        s >= 0,
    ensures
        round_to_nearest(s * one(), one()) == round_to_nearest(s, 1),
{
    lemma_pow2_pos(1074);
    crate::rounding::lemma_rounding_exists(s, 1);
    let m = round_to_nearest(s, 1);
    assert(s * one() == (s * one()) * 1);
    crate::rounding::lemma_nearest_even_same_ratio(m, s, 1, s * one(), one());
    lemma_round_to_nearest(m, s * one(), one());
}

impl Binary64 {
    /// The magnitude of the quotient of two finite sizes, of which the second
    /// is not zero, given by their significands and scales.
    fn divide_finite(sa: u64, ea: i64, sb: u64, eb: i64) -> (m: u64)
        requires
            0 <= ea <= 2045,
            0 <= eb <= 2045,
            sa < 2 * HIDDEN_BIT,
            0 < sb < 2 * HIDDEN_BIT,
        ensures
            m <= INFINITY_BITS,
            m == round_to_nearest((sa * pow2(ea as nat)) * one(), sb * pow2(eb as nat)),
    {
        let ghost ua = sa * pow2(ea as nat);
        let ghost ub = sb * pow2(eb as nat);
        let ghost num = ua * one();
        let ghost den = ub as int;
        let ghost b = pow2(6000) as int;
        proof {
            lemma_powers();
            lemma_pow2_pos(ea as nat);
            lemma_pow2_pos(eb as nat);
            lemma_pow2_pos(1074);
            lemma_pow2_pos(6000);
            assert(den > 0) by (nonlinear_arith)
                requires
                    den == sb * pow2(eb as nat),
                    sb > 0,
                    pow2(eb as nat) > 0,
            ;
        }
        if sa == 0 {
            proof {
                assert(ua == 0) by (nonlinear_arith)
                    requires
                        ua == sa * pow2(ea as nat),
                        sa == 0,
                ;
                assert(num == 0);
                assert(den * (0 * pow2(6000)) == 0) by (nonlinear_arith);
            }
            let m: u64 = round_pack(0, 0, Ghost(num), Ghost(den));
            proof {
                lemma_round_to_nearest(m, num, den);
            }
            return m;
        }
        // the dividend with its leading bit at 2^52, and then 57 places more
        let len: u32 = bit_length(sa as u128);
        proof {
            if len > 53 {
                lemma_pow2_strictly_increases(53, (len - 1) as nat);
            }
            assert(1 <= len <= 53);
        }
        let k1: u32 = 53 - len;
        let k: u128 = power_of_two(k1 + 57);
        proof {
            lemma_pow2_adds(len as nat, (k1 + 57) as nat);
            lemma_pow2_adds((len - 1) as nat, (k1 + 57) as nat);
            lemma_pow2_adds(64, 46);
            lemma_pow2_adds(64, 45);
            vstd::arithmetic::power2::lemma2_to64();
            vstd::arithmetic::power2::lemma2_to64_rest();
            assert(sa * k < pow2(len as nat) * k) by (nonlinear_arith)
                requires
                    sa < pow2(len as nat),
                    k > 0,
            ;
            assert(sa * k >= pow2((len - 1) as nat) * k) by (nonlinear_arith)
                requires
                    sa >= pow2((len - 1) as nat),
                    k > 0,
            ;
        }
        let n: u128 = (sa as u128) * k;
        let divisor: u128 = sb as u128;
        let q: u128 = n / divisor;
        let r: u128 = n % divisor;
        let e: i64 = ea - (k1 as i64) - eb + 1017;
        proof {
            // 2^109 <= n < 2^110, so 2^56 <= q < 2^110
            vstd::arithmetic::div_mod::lemma_fundamental_div_mod(n as int, divisor as int);
            vstd::arithmetic::div_mod::lemma_mod_bound(n as int, divisor as int);
            assert(0x100_0000_0000_0000 * sb <= n) by (nonlinear_arith)
                requires
                    0 < sb < 0x20_0000_0000_0000,
                    n >= 0x2000_0000_0000_0000_0000_0000_0000,
            ;
            assert(n < 0x4000_0000_0000_0000_0000_0000_0000 * sb) by (nonlinear_arith)
                requires
                    sb >= 1,
                    n < 0x4000_0000_0000_0000_0000_0000_0000,
            ;
            crate::rounding::lemma_quotient_between(
                n as int,
                divisor as int,
                0x100_0000_0000_0000,
                0x4000_0000_0000_0000_0000_0000_0000,
            );
            // both sides of the division, scaled alike
            let v = pow2((ea - k1 + 7017) as nat) as int;
            let w = pow2((e + 6000) as nat) as int;
            lemma_pow2_pos((ea - k1 + 7017) as nat);
            lemma_pow2_adds(eb as nat, (e + 6000) as nat);
            assert(pow2(eb as nat) * w == v);
            lemma_pow2_adds((k1 + 57) as nat, (ea - k1 + 7017) as nat);
            lemma_pow2_adds(ea as nat, 7074);
            lemma_pow2_adds(1074, 6000);
            assert(k * v == pow2(ea as nat) * (one() * b));
            assert(num * b == n * v) by (nonlinear_arith)
                requires
                    num == (sa * pow2(ea as nat)) * one(),
                    n == sa * k,
                    k * v == pow2(ea as nat) * (one() * b),
            ;
            assert(den * (q * w) == (q * sb) * v) by (nonlinear_arith)
                requires
                    den == sb * pow2(eb as nat),
                    pow2(eb as nat) * w == v,
            ;
            assert(den * ((q + 1) * w) == ((q + 1) * sb) * v) by (nonlinear_arith)
                requires
                    den == sb * pow2(eb as nat),
                    pow2(eb as nat) * w == v,
            ;
            assert(n == q * sb + r) by (nonlinear_arith)
                requires
                    n == divisor * q + r,
                    divisor == sb,
            ;
            if r != 0 {
                let w1 = pow2((e - 1 + 6000) as nat) as int;
                vstd::arithmetic::power2::lemma_pow2_unfold((e + 6000) as nat);
                assert(w == 2 * w1);
                assert(den * ((2 * q) * w1) == den * (q * w)) by (nonlinear_arith)
                    requires
                        w == 2 * w1,
                ;
                assert(den * ((2 * q + 2) * w1) == den * ((q + 1) * w)) by (nonlinear_arith)
                    requires
                        w == 2 * w1,
                ;
                assert(den * (q * w) == (q * sb) * v);
                assert(den * ((q + 1) * w) == ((q + 1) * sb) * v);
                assert((q + 1) * sb == q * sb + sb) by (nonlinear_arith);
                crate::rounding::lemma_scaled_order(q * sb, n as int, v);
                crate::rounding::lemma_scaled_order(n as int, (q + 1) * sb, v);
            } else {
                assert(den * (q * w) == (q * sb) * v);
            }
        }
        let m: u64 = if r == 0 {
            round_pack(q, e, Ghost(num), Ghost(den))
        } else {
            round_pack(2 * q + 1, e - 1, Ghost(num), Ghost(den))
        };
        proof {
            lemma_round_to_nearest(m, num, den);
        }
        m
    }

    /// One, divided by the value.
    pub fn recip(self) -> (r: Binary64)
        ensures
            r.bits == reciprocal(self.bits),
    {
        Binary64::from_bits(ONE_BITS) / self
    }

    /// The angle in degrees, for a value in radians.
    pub fn to_degrees(self) -> (r: Binary64)
        ensures
            r.bits == degrees(self.bits),
    {
        self * (Binary64::from_bits(ONE_EIGHTY_BITS) / Binary64::from_bits(consts::PI))
    }

    /// The angle in radians, for a value in degrees.
    pub fn to_radians(self) -> (r: Binary64)
        ensures
            r.bits == radians(self.bits),
    {
        self * (Binary64::from_bits(consts::PI) / Binary64::from_bits(ONE_EIGHTY_BITS))
    }

    /// The value with the given magnitude and sign.
    pub(crate) fn from_parts(negative: bool, m: u64) -> (r: Binary64)
        requires
            m <= INFINITY_BITS,
        ensures
            r.bits == with_sign(m, negative),
    {
        if negative {
            Binary64::from_bits(m + SIGN_BIT)
        } else {
            Binary64::from_bits(m)
        }
    }

    /// The significand and the scale of a finite value.
    pub(crate) fn parts(self) -> (r: (u64, i64))
        requires
            is_finite(self.bits),
        ensures
            r.0 == significand(self.bits),
            r.1 == scale(self.bits),
            r.0 < 2 * HIDDEN_BIT,
            0 <= r.1 <= 2045,
            r.1 > 0 ==> r.0 >= HIDDEN_BIT,
            r.0 == 0 <==> is_zero(self.bits),
    {
        proof {
            ieee::lemma_fields(self.bits);
        }
        let m: u64 = self.abs().to_bits();
        let e: u64 = m / HIDDEN_BIT;
        let f: u64 = m % HIDDEN_BIT;
        if e == 0 {
            (f, 0)
        } else {
            (HIDDEN_BIT + f, (e - 1) as i64)
        }
    }
}

impl core::ops::Add for Binary64 {
    type Output = Binary64;

    /// The sum of the two values, rounded to the nearest value of the format.
    fn add(self, rhs: Binary64) -> (r: Binary64) {
        if self.is_nan() || rhs.is_nan() {
            Binary64::from_bits(QUIET_NAN_BITS)
        } else if self.is_infinite() {
            if rhs.is_infinite() && self.is_sign_negative() != rhs.is_sign_negative() {
                Binary64::from_bits(QUIET_NAN_BITS)
            } else {
                self
            }
        } else if rhs.is_infinite() {
            rhs
        } else {
            let (sa, ea) = self.parts();
            let (sb, eb) = rhs.parts();
            let na: bool = self.is_sign_negative();
            let nb: bool = rhs.is_sign_negative();
            proof {
                lemma_powers();
                lemma_sum_in_parts(self.bits, rhs.bits);
            }
            if ea >= eb {
                Binary64::add_wide(sa as u128, ea, na, sb as u128, eb, nb)
            } else {
                Binary64::add_wide(sb as u128, eb, nb, sa as u128, ea, na)
            }
        }
    }
}

impl AddSpecImpl for Binary64 {
    open spec fn obeys_add_spec() -> bool {
        true
    }

    open spec fn add_req(self, rhs: Binary64) -> bool {
        true
    }

    open spec fn add_spec(self, rhs: Binary64) -> Binary64 {
        Binary64 { bits: sum(self.bits, rhs.bits) }
    }
}

impl core::ops::Sub for Binary64 {
    type Output = Binary64;

    /// The difference of the two values, rounded to the nearest value of the
    /// format.
    fn sub(self, rhs: Binary64) -> (r: Binary64) {
        self + core::ops::Neg::neg(rhs)
    }
}

impl SubSpecImpl for Binary64 {
    open spec fn obeys_sub_spec() -> bool {
        true
    }

    open spec fn sub_req(self, rhs: Binary64) -> bool {
        true
    }

    open spec fn sub_spec(self, rhs: Binary64) -> Binary64 {
        Binary64 { bits: difference(self.bits, rhs.bits) }
    }
}

impl core::ops::Div for Binary64 {
    type Output = Binary64;

    /// The quotient of the two values, rounded to the nearest value of the
    /// format.
    fn div(self, rhs: Binary64) -> (r: Binary64) {
        let negative: bool = self.is_sign_negative() != rhs.is_sign_negative();
        proof {
            ieee::lemma_fields(self.bits);
            ieee::lemma_fields(rhs.bits);
        }
        if self.is_nan() || rhs.is_nan() {
            Binary64::from_bits(QUIET_NAN_BITS)
        } else if self.is_infinite() {
            if rhs.is_infinite() {
                Binary64::from_bits(QUIET_NAN_BITS)
            } else {
                Binary64::from_parts(negative, INFINITY_BITS)
            }
        } else if rhs.is_infinite() {
            Binary64::from_parts(negative, 0)
        } else if rhs.abs().to_bits() == 0 {
            if self.abs().to_bits() == 0 {
                Binary64::from_bits(QUIET_NAN_BITS)
            } else {
                Binary64::from_parts(negative, INFINITY_BITS)
            }
        } else {
            let (sa, ea) = self.parts();
            let (sb, eb) = rhs.parts();
            let m: u64 = Binary64::divide_finite(sa, ea, sb, eb);
            Binary64::from_parts(negative, m)
        }
    }
}

impl DivSpecImpl for Binary64 {
    open spec fn obeys_div_spec() -> bool {
        true
    }

    open spec fn div_req(self, rhs: Binary64) -> bool {
        true
    }

    open spec fn div_spec(self, rhs: Binary64) -> Binary64 {
        Binary64 { bits: quotient(self.bits, rhs.bits) }
    }
}

impl core::ops::Mul for Binary64 {
    type Output = Binary64;

    /// The product of the two values, rounded to the nearest value of the
    /// format.
    fn mul(self, rhs: Binary64) -> (r: Binary64) {
        let negative: bool = self.is_sign_negative() != rhs.is_sign_negative();
        if self.is_nan() || rhs.is_nan() {
            Binary64::from_bits(QUIET_NAN_BITS)
        } else if self.is_infinite() || rhs.is_infinite() {
            proof {
                ieee::lemma_fields(self.bits);
                ieee::lemma_fields(rhs.bits);
            }
            if self.abs().to_bits() == 0 || rhs.abs().to_bits() == 0 {
                Binary64::from_bits(QUIET_NAN_BITS)
            } else {
                Binary64::from_parts(negative, INFINITY_BITS)
            }
        } else {
            let (sa, ea) = self.parts();
            let (sb, eb) = rhs.parts();
            let ghost num = (abs_units(self.bits) * abs_units(rhs.bits)) as int;
            proof {
                let pa = pow2(ea as nat) as int;
                let pb = pow2(eb as nat) as int;
                let b = pow2(6000) as int;
                lemma_pow2_pos(ea as nat);
                lemma_pow2_pos(eb as nat);
                lemma_pow2_pos(1074);
                lemma_pow2_adds(ea as nat, eb as nat);
                lemma_pow2_adds((ea + eb) as nat, 6000);
                lemma_pow2_adds(1074, (ea + eb - 1074 + 6000) as nat);
                let w = pow2((ea + eb - 1074 + 6000) as nat) as int;
                assert(one() * w == (pa * pb) * b);
                assert(sa * sb < 0x400_0000_0000_0000_0000_0000_0000) by (nonlinear_arith)
                    requires
                        0 <= sa < 0x20_0000_0000_0000,
                        0 <= sb < 0x20_0000_0000_0000,
                ;
                assert(num * b == one() * ((sa * sb) * w)) by (nonlinear_arith)
                    requires
                        num == (sa * pa) * (sb * pb),
                        one() * w == (pa * pb) * b,
                ;
            }
            let p: u128 = (sa as u128) * (sb as u128);
            let m: u64 = round_pack(p, ea + eb - 1074, Ghost(num), Ghost(one()));
            proof {
                lemma_round_to_nearest(m, num, one());
            }
            Binary64::from_parts(negative, m)
        }
    }
}

impl MulSpecImpl for Binary64 {
    open spec fn obeys_mul_spec() -> bool {
        true
    }

    open spec fn mul_req(self, rhs: Binary64) -> bool {
        true
    }

    open spec fn mul_spec(self, rhs: Binary64) -> Binary64 {
        Binary64 { bits: product(self.bits, rhs.bits) }
    }
}

} // verus!
