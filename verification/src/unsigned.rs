//! A binary64 value that is positive or zero.
use vstd::prelude::*;
use vstd::std_specs::cmp::PartialEqSpecImpl;
use vstd::std_specs::cmp::PartialOrdSpecImpl;
use vstd::std_specs::convert::FromSpec;
use vstd::std_specs::convert::FromSpecImpl;
use vstd::std_specs::convert::TryFromSpec;
use vstd::std_specs::convert::TryFromSpecImpl;
use vstd::std_specs::ops::AddSpecImpl;
use vstd::std_specs::ops::DivSpecImpl;
use vstd::std_specs::ops::MulSpecImpl;
use vstd::std_specs::ops::NegSpecImpl;
use vstd::std_specs::ops::SubSpecImpl;
use core::cmp::Ordering;
use core::num::FpCategory;
use crate::arith::degrees;
use crate::arith::difference;
use crate::arith::product;
use crate::arith::quotient;
use crate::arith::radians;
use crate::arith::reciprocal;
use crate::arith::sum;
use crate::binary64::Binary64;
use crate::binary64::category;
use crate::closure::law_angle_keeps_invariant;
use crate::closure::law_fused_keeps_invariant;
use crate::closure::law_product_keeps_invariant;
use crate::closure::law_quotient_keeps_invariant;
use crate::closure::law_reciprocal_keeps_invariant;
use crate::closure::law_remainder_keeps_invariant;
use crate::closure::law_root_keeps_invariant;
use crate::closure::law_square_is_non_negative;
use crate::closure::law_sum_keeps_invariant;
use crate::closure::product_is_closed;
use crate::closure::remainder_is_closed;
use crate::closure::quotient_is_closed;
use crate::consts;
use crate::fused::fused;
use crate::ieee;
use crate::ieee::INFINITY_BITS;
use crate::ieee::number;
use crate::ieee::ONE_BITS;
use crate::ieee::QUIET_NAN_BITS;
use crate::ieee::SIGN_BIT;
use crate::ieee::units;
use crate::integral::ceil_units;
use crate::integral::floor_units;
use crate::integral::fraction_of;
use crate::integral::lemma_whole_of_non_negative;
use crate::integral::round_units;
use crate::integral::rounded_to;
use crate::integral::trunc_units;
use crate::order::compare;
use crate::order::total_order;
use crate::remainder::euclid_remainder;
use crate::root::root;

verus! {

/// A binary64 value that is guaranteed to be positive or zero.
///
/// The guarantee is `is_non_negative`. The validating constructors establish
/// it, and the operations that return an `UnsignedF64` keep it; operations
/// whose result may be negative for a value that is positive or zero return
/// a raw `Binary64` instead. The value `-0.0` is zero and so is accepted,
/// with its sign bit.
///
/// No operation checks its result again. So the few results that the format
/// cannot give as a number that is positive or zero are held as they come:
/// NaN for zero by zero, infinity by infinity, zero times infinity and the
/// fractional part of infinity, and negative infinity for a quotient by
/// `-0.0`. Every contract says when that happens.
#[derive(Clone, Copy, Debug)]
pub struct UnsignedF64 {
    raw: Binary64,
}

impl UnsignedF64 {
    /// The raw value that is held.
    pub closed spec fn view(&self) -> Binary64 {
        self.raw
    }

    /// The invariant of the type: the value is a number, and not below zero.
    pub open spec fn is_non_negative(&self) -> bool {
        ieee::non_negative(self@.bits)
    }

    /// What `new` returns for a raw value.
    pub closed spec fn checked(value: Binary64) -> Option<UnsignedF64> {
        if ieee::non_negative(value.bits) {
            Some(UnsignedF64 { raw: value })
        } else {
            None
        }
    }

    /// The value, if it is `>= 0.0`, and `None` if it is negative or NaN.
    /// Both zeros and positive infinity are accepted, and what is accepted is
    /// kept bit for bit.
    pub fn new(value: Binary64) -> (r: Option<UnsignedF64>)
        ensures
            r == Self::checked(value),
            r.is_some() <==> ieee::non_negative(value.bits),
            r matches Some(v) ==> v@ == value,
    {
        if value.is_non_negative() {
            Some(UnsignedF64 { raw: value })
        } else {
            None
        }
    }

    /// Wraps a value without checking it. The caller answers for the value
    /// being positive or zero.
    pub fn from_f64_unchecked(value: Binary64) -> (r: UnsignedF64)
        requires
            ieee::non_negative(value.bits),
        ensures
            r@ == value,
            Self::checked(value) == Some(r),
    {
        UnsignedF64 { raw: value }
    }

    /// The square of any raw value. It is positive or zero unless the value
    /// is NaN, which stays NaN.
    pub fn square(f: Binary64) -> (r: UnsignedF64)
        ensures
            r@.bits == product(f.bits, f.bits),
            !ieee::is_nan(f.bits) ==> r.is_non_negative(),
    {
        proof {
            law_square_is_non_negative(f.bits);
        }
        UnsignedF64 { raw: f * f }
    }

    /// The largest whole number that is not above the value.
    pub fn floor(&self) -> (r: UnsignedF64)
        ensures
            rounded_to(self@.bits, floor_units(units(self@.bits)), r@.bits),
            self.is_non_negative() ==> r.is_non_negative(),
    {
        proof {
            if self.is_non_negative() {
                lemma_rounding_keeps_invariant(self@.bits);
            }
        }
        UnsignedF64 { raw: self.raw.floor() }
    }

    /// The smallest whole number that is not below the value.
    pub fn ceil(&self) -> (r: UnsignedF64)
        ensures
            rounded_to(self@.bits, ceil_units(units(self@.bits)), r@.bits),
            self.is_non_negative() ==> r.is_non_negative(),
    {
        proof {
            if self.is_non_negative() {
                lemma_rounding_keeps_invariant(self@.bits);
            }
        }
        UnsignedF64 { raw: self.raw.ceil() }
    }

    /// The nearest whole number, and of two that are equally near the larger.
    pub fn round(&self) -> (r: UnsignedF64)
        ensures
            rounded_to(self@.bits, round_units(units(self@.bits)), r@.bits),
            self.is_non_negative() ==> r.is_non_negative(),
    {
        proof {
            if self.is_non_negative() {
                lemma_rounding_keeps_invariant(self@.bits);
            }
        }
        UnsignedF64 { raw: self.raw.round() }
    }

    /// The whole part of the value.
    pub fn trunc(&self) -> (r: UnsignedF64)
        ensures
            rounded_to(self@.bits, trunc_units(units(self@.bits)), r@.bits),
            self.is_non_negative() ==> r.is_non_negative(),
    {
        proof {
            if self.is_non_negative() {
                lemma_rounding_keeps_invariant(self@.bits);
            }
        }
        UnsignedF64 { raw: self.raw.trunc() }
    }

    /// The fractional part of the value. That of positive infinity is NaN,
    /// which is the one case in which the result is not positive or zero.
    pub fn fract(&self) -> (r: UnsignedF64)
        ensures
            fraction_of(self@.bits, r@.bits),
            self.is_non_negative() ==> (r.is_non_negative() <==> ieee::is_finite(self@.bits)),
    {
        proof {
            if self.is_non_negative() {
                lemma_rounding_keeps_invariant(self@.bits);
                ieee::lemma_fields(QUIET_NAN_BITS);
            }
        }
        UnsignedF64 { raw: self.raw.fract() }
    }

    /// `self * a + b` with one rounding, that of the exact result. For
    /// values that are positive or zero it is positive or zero, but where
    /// the product is zero times infinity: there it is NaN.
    pub fn mul_add(&self, a: UnsignedF64, b: UnsignedF64) -> (r: UnsignedF64)
        ensures
            r@.bits == fused(self@.bits, a@.bits, b@.bits),
            self.is_non_negative() && a.is_non_negative() && b.is_non_negative() ==> (
            r.is_non_negative() <==> product_is_closed(self@.bits, a@.bits)),
    {
        proof {
            if self.is_non_negative() && a.is_non_negative() && b.is_non_negative() {
                law_fused_keeps_invariant(self@.bits, a@.bits, b@.bits);
            }
        }
        UnsignedF64 { raw: self.raw.mul_add(a.raw, b.raw) }
    }

    /// The remainder of the division by `rhs` that is never below zero. For
    /// values that are positive or zero it is positive or zero, but where
    /// the value is infinite or `rhs` is zero: there it is NaN.
    pub fn rem_euclid(&self, rhs: UnsignedF64) -> (r: UnsignedF64)
        ensures
            r@.bits == euclid_remainder(self@.bits, rhs@.bits),
            self.is_non_negative() && rhs.is_non_negative() ==> (r.is_non_negative()
                <==> remainder_is_closed(self@.bits, rhs@.bits)),
    {
        proof {
            if self.is_non_negative() && rhs.is_non_negative() {
                law_remainder_keeps_invariant(self@.bits, rhs@.bits);
            }
        }
        UnsignedF64 { raw: self.raw.rem_euclid(rhs.raw) }
    }

    /// The square root of the value. That of a value that is positive or
    /// zero is never NaN.
    pub fn sqrt(&self) -> (r: UnsignedF64)
        ensures
            r@.bits == root(self@.bits),
            self.is_non_negative() ==> r.is_non_negative() && !ieee::is_nan(r@.bits),
    {
        proof {
            if self.is_non_negative() {
                law_root_keeps_invariant(self@.bits);
            }
        }
        UnsignedF64 { raw: self.raw.sqrt() }
    }

    /// One, divided by the value. It is not checked again: the reciprocal of
    /// `-0.0` is negative infinity, and that of every other value that is
    /// positive or zero is positive or zero.
    pub fn recip(&self) -> (r: UnsignedF64)
        ensures
            r@.bits == reciprocal(self@.bits),
            self.is_non_negative() ==> (r.is_non_negative() <==> self@.bits != SIGN_BIT),
    {
        proof {
            if self.is_non_negative() {
                law_reciprocal_keeps_invariant(self@.bits);
            }
        }
        UnsignedF64 { raw: self.raw.recip() }
    }

    /// The angle in degrees, for a value in radians.
    pub fn to_degrees(&self) -> (r: UnsignedF64)
        ensures
            r@.bits == degrees(self@.bits),
            self.is_non_negative() ==> r.is_non_negative(),
    {
        proof {
            if self.is_non_negative() {
                law_angle_keeps_invariant(self@.bits);
            }
        }
        UnsignedF64 { raw: self.raw.to_degrees() }
    }

    /// The angle in radians, for a value in degrees.
    pub fn to_radians(&self) -> (r: UnsignedF64)
        ensures
            r@.bits == radians(self@.bits),
            self.is_non_negative() ==> r.is_non_negative(),
    {
        proof {
            if self.is_non_negative() {
                law_angle_keeps_invariant(self@.bits);
            }
        }
        UnsignedF64 { raw: self.raw.to_radians() }
    }

    /// The absolute value: the value with its sign bit clear, which turns
    /// `-0.0` into `+0.0`.
    pub fn abs(&self) -> (r: UnsignedF64)
        ensures
            r@.bits == ieee::with_sign(self@.bits, false),
            !ieee::is_nan(self@.bits) ==> r.is_non_negative(),
            self.is_non_negative() ==> r == *self || self@.bits == SIGN_BIT,
    {
        proof {
            ieee::lemma_non_negative(self@.bits);
            ieee::lemma_non_negative(ieee::with_sign(self@.bits, false));
            ieee::lemma_fields(self@.bits);
        }
        UnsignedF64 { raw: self.raw.abs() }
    }

    /// `1.0` where the sign bit is clear and `-1.0` where it is set, NaN for
    /// NaN.
    ///
    /// This can return `-1.0` for a value that is positive or zero: `-0.0` is
    /// zero, and has its sign bit set.
    pub fn signum(&self) -> (r: Binary64)
        ensures
            r.bits == ieee::signum(self@.bits),
            self.is_non_negative() ==> r.bits == if self@.bits == SIGN_BIT {
                ieee::with_sign(ONE_BITS, true)
            } else {
                ONE_BITS
            },
    {
        proof {
            ieee::lemma_non_negative(self@.bits);
            ieee::lemma_fields(self@.bits);
        }
        self.raw.signum()
    }

    /// The size of the value with the sign bit of `sign`.
    ///
    /// This returns a negative value where the sign bit of `sign` is set, as
    /// it is in `-0.0`.
    pub fn copysign(&self, sign: Binary64) -> (r: Binary64)
        ensures
            r.bits == ieee::with_sign(self@.bits, ieee::sign_negative(sign.bits)),
    {
        self.raw.copysign(sign)
    }

    /// Whether the value is NaN. No value that is positive or zero is.
    pub fn is_nan(&self) -> (r: bool)
        ensures
            r == ieee::is_nan(self@.bits),
            self.is_non_negative() ==> !r,
    {
        self.raw.is_nan()
    }

    /// Whether the value is infinite.
    pub fn is_infinite(&self) -> (r: bool)
        ensures
            r == ieee::is_infinite(self@.bits),
            self.is_non_negative() ==> r == (self@.bits == INFINITY_BITS),
    {
        proof {
            ieee::lemma_non_negative(self@.bits);
            ieee::lemma_fields(self@.bits);
        }
        self.raw.is_infinite()
    }

    /// Whether the value is neither infinite nor NaN.
    pub fn is_finite(&self) -> (r: bool)
        ensures
            r == ieee::is_finite(self@.bits),
    {
        self.raw.is_finite()
    }

    /// Whether the value is subnormal.
    pub fn is_subnormal(&self) -> (r: bool)
        ensures
            r == ieee::is_subnormal(self@.bits),
    {
        self.raw.is_subnormal()
    }

    /// Whether the value is neither zero, subnormal, infinite nor NaN.
    pub fn is_normal(&self) -> (r: bool)
        ensures
            r == ieee::is_normal(self@.bits),
    {
        self.raw.is_normal()
    }

    /// The class of the value.
    pub fn classify(&self) -> (r: FpCategory)
        ensures
            r == category(self@.bits),
            self.is_non_negative() ==> r != FpCategory::Nan,
    {
        self.raw.classify()
    }

    /// Whether the sign bit is clear. This is false for `-0.0`, and for no
    /// other value that is positive or zero.
    pub fn is_sign_positive(&self) -> (r: bool)
        ensures
            r == !ieee::sign_negative(self@.bits),
            self.is_non_negative() ==> r == (self@.bits != SIGN_BIT),
    {
        proof {
            ieee::lemma_non_negative(self@.bits);
        }
        self.raw.is_sign_positive()
    }

    /// Whether the sign bit is set. This is true for `-0.0`, and for no other
    /// value that is positive or zero.
    pub fn is_sign_negative(&self) -> (r: bool)
        ensures
            r == ieee::sign_negative(self@.bits),
            self.is_non_negative() ==> r == (self@.bits == SIGN_BIT),
    {
        proof {
            ieee::lemma_non_negative(self@.bits);
        }
        self.raw.is_sign_negative()
    }

    /// The larger of two values. A NaN gives way to the other value; where
    /// neither is larger, the result is `self`.
    pub fn max(self, other: UnsignedF64) -> (r: UnsignedF64)
        ensures
            r@.bits == ieee::maximum(self@.bits, other@.bits),
            r == self || r == other,
            self.is_non_negative() && other.is_non_negative() ==> r.is_non_negative(),
    {
        let m: Binary64 = self.raw.max(other.raw);
        if m.to_bits() == self.raw.to_bits() {
            self
        } else {
            other
        }
    }

    /// The smaller of two values. A NaN gives way to the other value; where
    /// neither is smaller, the result is `self`.
    pub fn min(self, other: UnsignedF64) -> (r: UnsignedF64)
        ensures
            r@.bits == ieee::minimum(self@.bits, other@.bits),
            r == self || r == other,
            self.is_non_negative() && other.is_non_negative() ==> r.is_non_negative(),
    {
        let m: Binary64 = self.raw.min(other.raw);
        if m.to_bits() == self.raw.to_bits() {
            self
        } else {
            other
        }
    }

    /// How the two values compare in the total order of the format, in which
    /// `-0.0` comes before `+0.0`.
    pub fn total_cmp(&self, other: &UnsignedF64) -> (r: Ordering)
        ensures
            r == total_order(self@.bits, other@.bits),
    {
        self.raw.total_cmp(&other.raw)
    }

    /// The value held between `min` and `max`: `min` where it is below `min`,
    /// `max` where it is above `max`, else the value itself. The bounds must
    /// be ordered, `min <= max`.
    pub fn clamp(self, min: UnsignedF64, max: UnsignedF64) -> (r: UnsignedF64)
        requires
            ieee::at_most(number(min@.bits), number(max@.bits)),
        ensures
            r@.bits == ieee::clamped(self@.bits, min@.bits, max@.bits),
            r == self || r == min || r == max,
            self.is_non_negative() && min.is_non_negative() && max.is_non_negative()
                ==> r.is_non_negative(),
    {
        UnsignedF64 { raw: self.raw.clamp(min.raw, max.raw) }
    }
}

impl UnsignedF64 {
    /// The value with a bit pattern that is not above that of positive
    /// infinity, and so is positive or zero.
    fn constant(bits: u64) -> (r: UnsignedF64)
        requires
            bits <= INFINITY_BITS,
        ensures
            r@.bits == bits,
            r.is_non_negative(),
    {
        proof {
            ieee::lemma_non_negative(bits);
        }
        UnsignedF64 { raw: Binary64::from_bits(bits) }
    }

    /// Archimedes' constant, pi.
    pub fn pi() -> (r: UnsignedF64)
        ensures
            r@.bits == consts::PI,
            r.is_non_negative(),
    {
        Self::constant(consts::PI)
    }

    /// Euler's number, e.
    pub fn e() -> (r: UnsignedF64)
        ensures
            r@.bits == consts::E,
            r.is_non_negative(),
    {
        Self::constant(consts::E)
    }

    /// 1 / pi.
    pub fn frac_1_pi() -> (r: UnsignedF64)
        ensures
            r@.bits == consts::FRAC_1_PI,
            r.is_non_negative(),
    {
        Self::constant(consts::FRAC_1_PI)
    }

    /// 1 / sqrt(2).
    pub fn frac_1_sqrt_2() -> (r: UnsignedF64)
        ensures
            r@.bits == consts::FRAC_1_SQRT_2,
            r.is_non_negative(),
    {
        Self::constant(consts::FRAC_1_SQRT_2)
    }

    /// 2 / pi.
    pub fn frac_2_pi() -> (r: UnsignedF64)
        ensures
            r@.bits == consts::FRAC_2_PI,
            r.is_non_negative(),
    {
        Self::constant(consts::FRAC_2_PI)
    }

    /// 2 / sqrt(pi).
    pub fn frac_2_sqrt_pi() -> (r: UnsignedF64)
        ensures
            r@.bits == consts::FRAC_2_SQRT_PI,
            r.is_non_negative(),
    {
        Self::constant(consts::FRAC_2_SQRT_PI)
    }

    /// pi / 2.
    pub fn frac_pi_2() -> (r: UnsignedF64)
        ensures
            r@.bits == consts::FRAC_PI_2,
            r.is_non_negative(),
    {
        Self::constant(consts::FRAC_PI_2)
    }

    /// pi / 3.
    pub fn frac_pi_3() -> (r: UnsignedF64)
        ensures
            r@.bits == consts::FRAC_PI_3,
            r.is_non_negative(),
    {
        Self::constant(consts::FRAC_PI_3)
    }

    /// pi / 4.
    pub fn frac_pi_4() -> (r: UnsignedF64)
        ensures
            r@.bits == consts::FRAC_PI_4,
            r.is_non_negative(),
    {
        Self::constant(consts::FRAC_PI_4)
    }

    /// pi / 6.
    pub fn frac_pi_6() -> (r: UnsignedF64)
        ensures
            r@.bits == consts::FRAC_PI_6,
            r.is_non_negative(),
    {
        Self::constant(consts::FRAC_PI_6)
    }

    /// pi / 8.
    pub fn frac_pi_8() -> (r: UnsignedF64)
        ensures
            r@.bits == consts::FRAC_PI_8,
            r.is_non_negative(),
    {
        Self::constant(consts::FRAC_PI_8)
    }

    /// The natural logarithm of 10.
    pub fn ln_10() -> (r: UnsignedF64)
        ensures
            r@.bits == consts::LN_10,
            r.is_non_negative(),
    {
        Self::constant(consts::LN_10)
    }

    /// The natural logarithm of 2.
    pub fn ln_2() -> (r: UnsignedF64)
        ensures
            r@.bits == consts::LN_2,
            r.is_non_negative(),
    {
        Self::constant(consts::LN_2)
    }

    /// The logarithm of e to base 10.
    pub fn log10_e() -> (r: UnsignedF64)
        ensures
            r@.bits == consts::LOG10_E,
            r.is_non_negative(),
    {
        Self::constant(consts::LOG10_E)
    }

    /// The logarithm of e to base 2.
    pub fn log2_e() -> (r: UnsignedF64)
        ensures
            r@.bits == consts::LOG2_E,
            r.is_non_negative(),
    {
        Self::constant(consts::LOG2_E)
    }

    /// The square root of 2.
    pub fn sqrt_2() -> (r: UnsignedF64)
        ensures
            r@.bits == consts::SQRT_2,
            r.is_non_negative(),
    {
        Self::constant(consts::SQRT_2)
    }

    /// The full circle constant, 2 * pi.
    pub fn tau() -> (r: UnsignedF64)
        ensures
            r@.bits == consts::TAU,
            r.is_non_negative(),
    {
        Self::constant(consts::TAU)
    }

    /// The machine epsilon, 2^-52.
    pub fn epsilon() -> (r: UnsignedF64)
        ensures
            r@.bits == consts::EPSILON,
            r.is_non_negative(),
    {
        Self::constant(consts::EPSILON)
    }

    /// Positive infinity.
    pub fn infinity() -> (r: UnsignedF64)
        ensures
            r@.bits == consts::INFINITY,
            r.is_non_negative(),
    {
        Self::constant(consts::INFINITY)
    }

    /// Positive zero.
    pub fn zero() -> (r: UnsignedF64)
        ensures
            r@.bits == consts::ZERO,
            r.is_non_negative(),
    {
        Self::constant(consts::ZERO)
    }

    /// One.
    pub fn one() -> (r: UnsignedF64)
        ensures
            r@.bits == consts::ONE,
            r.is_non_negative(),
    {
        Self::constant(consts::ONE)
    }

}

/// Rounding a value that is positive or zero to a whole number gives a value
/// that is positive or zero, and so does taking the fractional part of one
/// that is finite.
pub proof fn lemma_rounding_keeps_invariant(bits: u64)
    requires
        ieee::non_negative(bits),
    ensures
        forall|r: u64| #[trigger]
            rounded_to(bits, floor_units(units(bits)), r) ==> ieee::non_negative(r),
        forall|r: u64| #[trigger]
            rounded_to(bits, ceil_units(units(bits)), r) ==> ieee::non_negative(r),
        forall|r: u64| #[trigger]
            rounded_to(bits, round_units(units(bits)), r) ==> ieee::non_negative(r),
        forall|r: u64| #[trigger]
            rounded_to(bits, trunc_units(units(bits)), r) ==> ieee::non_negative(r),
        forall|r: u64|
            ieee::is_finite(bits) && #[trigger] fraction_of(bits, r) ==> ieee::non_negative(r),
{
    ieee::lemma_fields(bits);
    if ieee::is_finite(bits) {
        lemma_whole_of_non_negative(units(bits));
    }
}

impl TryFrom<Binary64> for UnsignedF64 {
    type Error = ();

    /// The value, if it is `>= 0.0`; an error that carries nothing if it is
    /// negative or NaN.
    fn try_from(value: Binary64) -> (r: Result<UnsignedF64, ()>)
        ensures
            r.is_ok() <==> ieee::non_negative(value.bits),
            r matches Ok(v) ==> v@ == value,
    {
        if value.is_non_negative() {
            Ok(UnsignedF64 { raw: value })
        } else {
            Err(())
        }
    }
}

impl TryFromSpecImpl<Binary64> for UnsignedF64 {
    open spec fn obeys_try_from_spec() -> bool {
        true
    }

    closed spec fn try_from_spec(value: Binary64) -> Result<UnsignedF64, ()> {
        if ieee::non_negative(value.bits) {
            Ok(UnsignedF64 { raw: value })
        } else {
            Err(())
        }
    }
}

impl From<UnsignedF64> for Binary64 {
    /// The raw value, unchanged.
    fn from(value: UnsignedF64) -> (r: Binary64) {
        value.raw
    }
}

impl FromSpecImpl<UnsignedF64> for Binary64 {
    open spec fn obeys_from_spec() -> bool {
        true
    }

    open spec fn from_spec(value: UnsignedF64) -> Binary64 {
        value@
    }
}

impl AsRef<Binary64> for UnsignedF64 {
    /// The raw value, unchanged.
    fn as_ref(&self) -> (r: &Binary64)
        ensures
            *r == self@,
    {
        &self.raw
    }
}

impl PartialEq for UnsignedF64 {
    /// Whether the two values are the same number. `+0.0` equals `-0.0`.
    fn eq(&self, other: &UnsignedF64) -> (r: bool) {
        self.raw == other.raw
    }
}

impl PartialEqSpecImpl for UnsignedF64 {
    open spec fn obeys_eq_spec() -> bool {
        true
    }

    open spec fn eq_spec(&self, other: &UnsignedF64) -> bool {
        ieee::same(number(self@.bits), number(other@.bits))
    }
}

impl PartialOrd for UnsignedF64 {
    /// How the two values compare as numbers.
    fn partial_cmp(&self, other: &UnsignedF64) -> (r: Option<Ordering>) {
        self.raw.partial_cmp(&other.raw)
    }
}

impl PartialOrdSpecImpl for UnsignedF64 {
    open spec fn obeys_partial_cmp_spec() -> bool {
        true
    }

    open spec fn partial_cmp_spec(&self, other: &UnsignedF64) -> Option<Ordering> {
        compare(number(self@.bits), number(other@.bits))
    }
}

impl PartialEq<Binary64> for UnsignedF64 {
    /// Whether the value is the same number as a raw value.
    fn eq(&self, other: &Binary64) -> (r: bool) {
        self.raw == *other
    }
}

impl PartialEqSpecImpl<Binary64> for UnsignedF64 {
    open spec fn obeys_eq_spec() -> bool {
        true
    }

    open spec fn eq_spec(&self, other: &Binary64) -> bool {
        ieee::same(number(self@.bits), number(other.bits))
    }
}

impl PartialOrd<Binary64> for UnsignedF64 {
    /// How the value compares with a raw value: `None` where the raw value is
    /// NaN.
    fn partial_cmp(&self, other: &Binary64) -> (r: Option<Ordering>) {
        self.raw.partial_cmp(other)
    }
}

impl PartialOrdSpecImpl<Binary64> for UnsignedF64 {
    open spec fn obeys_partial_cmp_spec() -> bool {
        true
    }

    open spec fn partial_cmp_spec(&self, other: &Binary64) -> Option<Ordering> {
        compare(number(self@.bits), number(other.bits))
    }
}

impl core::ops::Neg for UnsignedF64 {
    type Output = Binary64;

    /// The value with its sign bit set or cleared. What comes back is a raw
    /// value: it is below zero unless the value was zero.
    fn neg(self) -> (r: Binary64) {
        core::ops::Neg::neg(self.raw)
    }
}

impl NegSpecImpl for UnsignedF64 {
    open spec fn obeys_neg_spec() -> bool {
        true
    }

    open spec fn neg_req(self) -> bool {
        true
    }

    open spec fn neg_spec(self) -> Binary64 {
        Binary64 { bits: ieee::with_sign(self@.bits, !ieee::sign_negative(self@.bits)) }
    }
}

impl core::ops::Add for UnsignedF64 {
    type Output = UnsignedF64;

    /// The sum of the two values. The sum of values that are positive or zero
    /// is positive or zero.
    fn add(self, rhs: UnsignedF64) -> (r: UnsignedF64)
        ensures
            r@.bits == sum(self@.bits, rhs@.bits),
            self.is_non_negative() && rhs.is_non_negative() ==> r.is_non_negative(),
    {
        proof {
            if self.is_non_negative() && rhs.is_non_negative() {
                law_sum_keeps_invariant(self@.bits, rhs@.bits);
            }
        }
        UnsignedF64 { raw: self.raw + rhs.raw }
    }
}

impl AddSpecImpl for UnsignedF64 {
    open spec fn obeys_add_spec() -> bool {
        true
    }

    open spec fn add_req(self, rhs: UnsignedF64) -> bool {
        true
    }

    closed spec fn add_spec(self, rhs: UnsignedF64) -> UnsignedF64 {
        UnsignedF64 { raw: Binary64 { bits: sum(self.raw.bits, rhs.raw.bits) } }
    }
}

impl core::ops::Add<Binary64> for UnsignedF64 {
    type Output = Binary64;

    /// The sum of the value and a raw value, which may be negative.
    fn add(self, rhs: Binary64) -> (r: Binary64) {
        self.raw + rhs
    }
}

impl AddSpecImpl<Binary64> for UnsignedF64 {
    open spec fn obeys_add_spec() -> bool {
        true
    }

    open spec fn add_req(self, rhs: Binary64) -> bool {
        true
    }

    open spec fn add_spec(self, rhs: Binary64) -> Binary64 {
        Binary64 { bits: sum(self@.bits, rhs.bits) }
    }
}

impl core::ops::Sub for UnsignedF64 {
    type Output = Binary64;

    /// The difference of the two values, as a raw value: it is negative where
    /// the second value is the larger.
    fn sub(self, rhs: UnsignedF64) -> (r: Binary64) {
        self.raw - rhs.raw
    }
}

impl SubSpecImpl for UnsignedF64 {
    open spec fn obeys_sub_spec() -> bool {
        true
    }

    open spec fn sub_req(self, rhs: UnsignedF64) -> bool {
        true
    }

    open spec fn sub_spec(self, rhs: UnsignedF64) -> Binary64 {
        Binary64 { bits: difference(self@.bits, rhs@.bits) }
    }
}

impl core::ops::Sub<Binary64> for UnsignedF64 {
    type Output = Binary64;

    /// The difference of the value and a raw value, which may be negative.
    fn sub(self, rhs: Binary64) -> (r: Binary64) {
        self.raw - rhs
    }
}

impl SubSpecImpl<Binary64> for UnsignedF64 {
    open spec fn obeys_sub_spec() -> bool {
        true
    }

    open spec fn sub_req(self, rhs: Binary64) -> bool {
        true
    }

    open spec fn sub_spec(self, rhs: Binary64) -> Binary64 {
        Binary64 { bits: difference(self@.bits, rhs.bits) }
    }
}

impl core::ops::Mul for UnsignedF64 {
    type Output = UnsignedF64;

    /// The product of the two values. The product of values that are positive
    /// or zero is positive or zero, but for zero times infinity, which is NaN.
    fn mul(self, rhs: UnsignedF64) -> (r: UnsignedF64)
        ensures
            r@.bits == product(self@.bits, rhs@.bits),
            self.is_non_negative() && rhs.is_non_negative() ==> (r.is_non_negative()
                <==> product_is_closed(self@.bits, rhs@.bits)),
    {
        proof {
            if self.is_non_negative() && rhs.is_non_negative() {
                law_product_keeps_invariant(self@.bits, rhs@.bits);
            }
        }
        UnsignedF64 { raw: self.raw * rhs.raw }
    }
}

impl MulSpecImpl for UnsignedF64 {
    open spec fn obeys_mul_spec() -> bool {
        true
    }

    open spec fn mul_req(self, rhs: UnsignedF64) -> bool {
        true
    }

    closed spec fn mul_spec(self, rhs: UnsignedF64) -> UnsignedF64 {
        UnsignedF64 { raw: Binary64 { bits: product(self.raw.bits, rhs.raw.bits) } }
    }
}

impl core::ops::Mul<Binary64> for UnsignedF64 {
    type Output = Binary64;

    /// The product of the value and a raw value, which may be negative.
    fn mul(self, rhs: Binary64) -> (r: Binary64) {
        self.raw * rhs
    }
}

impl MulSpecImpl<Binary64> for UnsignedF64 {
    open spec fn obeys_mul_spec() -> bool {
        true
    }

    open spec fn mul_req(self, rhs: Binary64) -> bool {
        true
    }

    open spec fn mul_spec(self, rhs: Binary64) -> Binary64 {
        Binary64 { bits: product(self@.bits, rhs.bits) }
    }
}

impl core::ops::Div for UnsignedF64 {
    type Output = UnsignedF64;

    /// The quotient of the two values. It is not checked again. For values that
    /// are positive or zero it is positive or zero, with these exceptions: zero
    /// by zero and infinity by infinity are NaN, and a value that is not zero,
    /// divided by `-0.0`, is negative infinity.
    fn div(self, rhs: UnsignedF64) -> (r: UnsignedF64)
        ensures
            r@.bits == quotient(self@.bits, rhs@.bits),
            self.is_non_negative() && rhs.is_non_negative() ==> (r.is_non_negative()
                <==> quotient_is_closed(self@.bits, rhs@.bits)),
    {
        proof {
            if self.is_non_negative() && rhs.is_non_negative() {
                law_quotient_keeps_invariant(self@.bits, rhs@.bits);
            }
        }
        UnsignedF64 { raw: self.raw / rhs.raw }
    }
}

impl DivSpecImpl for UnsignedF64 {
    open spec fn obeys_div_spec() -> bool {
        true
    }

    open spec fn div_req(self, rhs: UnsignedF64) -> bool {
        true
    }

    closed spec fn div_spec(self, rhs: UnsignedF64) -> UnsignedF64 {
        UnsignedF64 { raw: Binary64 { bits: quotient(self.raw.bits, rhs.raw.bits) } }
    }
}

impl core::ops::Div<Binary64> for UnsignedF64 {
    type Output = Binary64;

    /// The quotient of the value and a raw value, which may be negative.
    fn div(self, rhs: Binary64) -> (r: Binary64) {
        self.raw / rhs
    }
}

impl DivSpecImpl<Binary64> for UnsignedF64 {
    open spec fn obeys_div_spec() -> bool {
        true
    }

    open spec fn div_req(self, rhs: Binary64) -> bool {
        true
    }

    open spec fn div_spec(self, rhs: Binary64) -> Binary64 {
        Binary64 { bits: quotient(self@.bits, rhs.bits) }
    }
}

impl core::ops::AddAssign for UnsignedF64 {
    /// Replaces the value by its sum with another.
    fn add_assign(&mut self, rhs: UnsignedF64)
        ensures
            final(self)@.bits == sum(old(self)@.bits, rhs@.bits),
            old(self).is_non_negative() && rhs.is_non_negative() ==> final(self).is_non_negative(),
    {
        proof {
            if self.is_non_negative() && rhs.is_non_negative() {
                law_sum_keeps_invariant(self@.bits, rhs@.bits);
            }
        }
        self.raw = self.raw + rhs.raw;
    }
}

impl core::ops::MulAssign for UnsignedF64 {
    /// Replaces the value by its product with another.
    fn mul_assign(&mut self, rhs: UnsignedF64)
        ensures
            final(self)@.bits == product(old(self)@.bits, rhs@.bits),
            old(self).is_non_negative() && rhs.is_non_negative() ==> (
            final(self).is_non_negative() <==> product_is_closed(old(self)@.bits, rhs@.bits)),
    {
        proof {
            if self.is_non_negative() && rhs.is_non_negative() {
                law_product_keeps_invariant(self@.bits, rhs@.bits);
            }
        }
        self.raw = self.raw * rhs.raw;
    }
}

impl core::ops::DivAssign for UnsignedF64 {
    /// Replaces the value by its quotient by another, which is not checked
    /// again.
    fn div_assign(&mut self, rhs: UnsignedF64)
        ensures
            final(self)@.bits == quotient(old(self)@.bits, rhs@.bits),
            old(self).is_non_negative() && rhs.is_non_negative() ==> (
            final(self).is_non_negative() <==> quotient_is_closed(old(self)@.bits, rhs@.bits)),
    {
        proof {
            if self.is_non_negative() && rhs.is_non_negative() {
                law_quotient_keeps_invariant(self@.bits, rhs@.bits);
            }
        }
        self.raw = self.raw / rhs.raw;
    }
}

/// A value that is `>= 0.0` is accepted by both validating constructors, which
/// keep it bit for bit, and the conversion back to a raw value returns it.
pub proof fn law_accepts_non_negative(value: Binary64)
    requires
        ieee::at_most(ieee::zero(), number(value.bits)),
    ensures
        UnsignedF64::checked(value) matches Some(v) && v@ == value && v.is_non_negative()
            && <Binary64 as FromSpec<UnsignedF64>>::from_spec(v) == value,
        <UnsignedF64 as TryFromSpec<Binary64>>::try_from_spec(value) matches Ok(v) && v@ == value,
{
}

/// A value that is below zero or NaN is refused by both validating
/// constructors.
pub proof fn law_rejects_negative_and_nan(value: Binary64)
    requires
        ieee::less(number(value.bits), ieee::zero()) || ieee::is_nan(value.bits),
    ensures
        UnsignedF64::checked(value) is None,
        <UnsignedF64 as TryFromSpec<Binary64>>::try_from_spec(value) is Err,
{
}

/// The two validating constructors accept the same values and return the same
/// for them.
pub proof fn law_constructors_agree(value: Binary64)
    ensures
        <UnsignedF64 as TryFromSpec<Binary64>>::try_from_spec(value) == match UnsignedF64::checked(
            value,
        ) {
            Some(v) => Ok::<UnsignedF64, ()>(v),
            None => Err::<UnsignedF64, ()>(()),
        },
{
}

} // verus!
