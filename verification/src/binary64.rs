//! A raw binary64 value, held as its bit pattern, with the operations of the
//! format that read or rearrange the sign, exponent and fraction fields.
use vstd::prelude::*;
use vstd::std_specs::cmp::PartialEqSpecImpl;
use vstd::std_specs::cmp::PartialOrdSpecImpl;
use vstd::std_specs::ops::NegSpecImpl;
use core::cmp::Ordering;
use core::num::FpCategory;
use crate::ieee;
use crate::ieee::HIDDEN_BIT;
use crate::ieee::INFINITY_BITS;
use crate::ieee::number;
use crate::ieee::ONE_BITS;
use crate::ieee::QUIET_NAN_BITS;
use crate::ieee::SIGN_BIT;
use crate::order::compare;
use crate::order::total_order;

verus! {

/// `core::num::FpCategory`, the five classes of a floating-point value. The
/// type is taken as the standard library declares it, an enum of the
/// variants `Nan`, `Infinite`, `Zero`, `Subnormal` and `Normal` without
/// fields; this declaration is believed, not proved.
#[verifier::external_type_specification]
pub struct ExFpCategory(FpCategory);

/// Every bit of a pattern but the sign bit.
pub const MAGNITUDE_MASK: u64 = 0x7FFF_FFFF_FFFF_FFFF;

/// A raw binary64 value: any of the 2^64 bit patterns, NaNs and negative
/// values included.
#[derive(Clone, Copy, Debug)]
pub struct Binary64 {
    pub bits: u64,
}

/// The class of a pattern.
pub open spec fn category(bits: u64) -> FpCategory {
    if ieee::is_nan(bits) {
        FpCategory::Nan
    } else if ieee::is_infinite(bits) {
        FpCategory::Infinite
    } else if ieee::is_zero(bits) {
        FpCategory::Zero
    } else if ieee::is_subnormal(bits) {
        FpCategory::Subnormal
    } else {
        FpCategory::Normal
    }
}

/// What masking, flipping and joining the sign bit do to a pattern.
proof fn lemma_sign_bit_operations(bits: u64, sign: u64)
    ensures
        bits & MAGNITUDE_MASK == ieee::magnitude(bits),
        (bits & SIGN_BIT != 0) == ieee::sign_negative(bits),
        bits ^ SIGN_BIT == ieee::with_sign(bits, !ieee::sign_negative(bits)),
        (bits & MAGNITUDE_MASK) | (sign & SIGN_BIT) == ieee::with_sign(
            bits,
            ieee::sign_negative(sign),
        ),
{
    assert(bits & 0x7FFF_FFFF_FFFF_FFFFu64 == if bits >= 0x8000_0000_0000_0000u64 {
        (bits - 0x8000_0000_0000_0000u64) as u64
    } else {
        bits
    }) by (bit_vector);
    assert((bits & 0x8000_0000_0000_0000u64 != 0) == (bits >= 0x8000_0000_0000_0000u64))
        by (bit_vector);
    assert(bits ^ 0x8000_0000_0000_0000u64 == if bits >= 0x8000_0000_0000_0000u64 {
        (bits - 0x8000_0000_0000_0000u64) as u64
    } else {
        (bits + 0x8000_0000_0000_0000u64) as u64
    }) by (bit_vector);
    assert((bits & 0x7FFF_FFFF_FFFF_FFFFu64) | (sign & 0x8000_0000_0000_0000u64) == if sign
        >= 0x8000_0000_0000_0000u64 {
        ((bits & 0x7FFF_FFFF_FFFF_FFFFu64) + 0x8000_0000_0000_0000u64) as u64
    } else {
        bits & 0x7FFF_FFFF_FFFF_FFFFu64
    }) by (bit_vector);
}

impl Binary64 {
    /// The value with the given bit pattern.
    pub fn from_bits(bits: u64) -> (r: Binary64)
        ensures
            r.bits == bits,
    {
        Binary64 { bits }
    }

    /// The bit pattern of the value.
    pub fn to_bits(self) -> (r: u64)
        ensures
            r == self.bits,
    {
        self.bits
    }

    /// The pattern without its sign bit, as an executable value.
    fn magnitude(self) -> (r: u64)
        ensures
            r == ieee::magnitude(self.bits),
            r < SIGN_BIT,
    {
        proof {
            lemma_sign_bit_operations(self.bits, 0);
        }
        self.bits & MAGNITUDE_MASK
    }

    /// Whether the value is NaN.
    pub fn is_nan(self) -> (r: bool)
        ensures
            r == ieee::is_nan(self.bits),
    {
        proof {
            ieee::lemma_fields(self.bits);
        }
        self.magnitude() > INFINITY_BITS
    }

    /// Whether the value is positive or negative infinity.
    pub fn is_infinite(self) -> (r: bool)
        ensures
            r == ieee::is_infinite(self.bits),
    {
        proof {
            ieee::lemma_fields(self.bits);
        }
        self.magnitude() == INFINITY_BITS
    }

    /// Whether the value is neither infinite nor NaN.
    pub fn is_finite(self) -> (r: bool)
        ensures
            r == ieee::is_finite(self.bits),
    {
        proof {
            ieee::lemma_fields(self.bits);
        }
        self.magnitude() < INFINITY_BITS
    }

    /// Whether the value is subnormal.
    pub fn is_subnormal(self) -> (r: bool)
        ensures
            r == ieee::is_subnormal(self.bits),
    {
        proof {
            ieee::lemma_fields(self.bits);
        }
        let m: u64 = self.magnitude();
        m != 0 && m < HIDDEN_BIT
    }

    /// Whether the value is neither zero, subnormal, infinite nor NaN.
    pub fn is_normal(self) -> (r: bool)
        ensures
            r == ieee::is_normal(self.bits),
    {
        proof {
            ieee::lemma_fields(self.bits);
        }
        let m: u64 = self.magnitude();
        HIDDEN_BIT <= m && m < INFINITY_BITS
    }

    /// The class of the value.
    pub fn classify(self) -> (r: FpCategory)
        ensures
            r == category(self.bits),
    {
        proof {
            ieee::lemma_fields(self.bits);
        }
        let m: u64 = self.magnitude();
        if m > INFINITY_BITS {
            FpCategory::Nan
        } else if m == INFINITY_BITS {
            FpCategory::Infinite
        } else if m == 0 {
            FpCategory::Zero
        } else if m < HIDDEN_BIT {
            FpCategory::Subnormal
        } else {
            FpCategory::Normal
        }
    }

    /// Whether the sign bit is clear. It is clear in `+0.0`, in positive
    /// infinity and in NaNs with a clear sign bit.
    pub fn is_sign_positive(self) -> (r: bool)
        ensures
            r == !ieee::sign_negative(self.bits),
    {
        !self.is_sign_negative()
    }

    /// Whether the sign bit is set. It is set in `-0.0`, in negative infinity
    /// and in NaNs with a set sign bit.
    pub fn is_sign_negative(self) -> (r: bool)
        ensures
            r == ieee::sign_negative(self.bits),
    {
        proof {
            lemma_sign_bit_operations(self.bits, 0);
        }
        self.bits & SIGN_BIT != 0
    }

    /// `self >= 0.0`: whether the value is a number and not below zero. Both
    /// zeros and positive infinity are; NaN is not.
    pub fn is_non_negative(self) -> (r: bool)
        ensures
            r == ieee::non_negative(self.bits),
    {
        proof {
            ieee::lemma_non_negative(self.bits);
        }
        self.bits <= INFINITY_BITS || self.bits == SIGN_BIT
    }

    /// The absolute value: the same pattern with the sign bit clear. A NaN
    /// stays a NaN.
    pub fn abs(self) -> (r: Binary64)
        ensures
            r.bits == ieee::with_sign(self.bits, false),
    {
        Binary64 { bits: self.magnitude() }
    }

    /// A number that says which sign the value has: `1.0` where the sign bit
    /// is clear, `-1.0` where it is set, and NaN for NaN.
    pub fn signum(self) -> (r: Binary64)
        ensures
            r.bits == ieee::signum(self.bits),
    {
        if self.is_nan() {
            Binary64 { bits: QUIET_NAN_BITS }
        } else {
            proof {
                lemma_sign_bit_operations(ONE_BITS, self.bits);
            }
            Binary64 { bits: (ONE_BITS & MAGNITUDE_MASK) | (self.bits & SIGN_BIT) }
        }
    }

    /// The magnitude of `self` with the sign bit of `sign`.
    pub fn copysign(self, sign: Binary64) -> (r: Binary64)
        ensures
            r.bits == ieee::with_sign(self.bits, ieee::sign_negative(sign.bits)),
    {
        proof {
            lemma_sign_bit_operations(self.bits, sign.bits);
        }
        Binary64 { bits: (self.bits & MAGNITUDE_MASK) | (sign.bits & SIGN_BIT) }
    }

    /// The order key of the value, as an executable value.
    fn ordinal(self) -> (r: i64)
        ensures
            r == ieee::order_key(self.bits),
    {
        let m: u64 = self.magnitude();
        if self.is_sign_negative() {
            -(m as i64)
        } else {
            m as i64
        }
    }

    /// The key of the value in the total order, as an executable value.
    fn total_ordinal(self) -> (r: i64)
        ensures
            r == ieee::total_order_key(self.bits),
    {
        let m: u64 = self.magnitude();
        if self.is_sign_negative() {
            -(m as i64) - 1
        } else {
            m as i64
        }
    }

    /// `self < other` as the standard defines it.
    fn is_less(self, other: Binary64) -> (r: bool)
        ensures
            r == ieee::less(number(self.bits), number(other.bits)),
    {
        if self.is_nan() || other.is_nan() {
            false
        } else {
            proof {
                ieee::lemma_order_key(self.bits, other.bits);
            }
            self.ordinal() < other.ordinal()
        }
    }

    /// The larger of two values. A NaN gives way to the other value; where
    /// neither is larger, as with `+0.0` and `-0.0`, the result is `self`.
    pub fn max(self, other: Binary64) -> (r: Binary64)
        ensures
            r.bits == ieee::maximum(self.bits, other.bits),
    {
        if self.is_nan() || (!other.is_nan() && self.is_less(other)) {
            other
        } else {
            self
        }
    }

    /// The smaller of two values. A NaN gives way to the other value; where
    /// neither is smaller, as with `+0.0` and `-0.0`, the result is `self`.
    pub fn min(self, other: Binary64) -> (r: Binary64)
        ensures
            r.bits == ieee::minimum(self.bits, other.bits),
    {
        if self.is_nan() || (!other.is_nan() && other.is_less(self)) {
            other
        } else {
            self
        }
    }

    /// The value held between `min` and `max`, which must be ordered and so
    /// neither of them NaN. A NaN stays as it is.
    pub fn clamp(self, min: Binary64, max: Binary64) -> (r: Binary64)
        requires
            ieee::at_most(number(min.bits), number(max.bits)),
        ensures
            r.bits == ieee::clamped(self.bits, min.bits, max.bits),
    {
        if self.is_less(min) {
            min
        } else if max.is_less(self) {
            max
        } else {
            self
        }
    }

    /// The total order of the standard, which orders every pattern: negative
    /// NaNs, negative infinity, the negative numbers, `-0.0`, `+0.0`, the
    /// positive numbers, positive infinity, positive NaNs.
    pub fn total_cmp(&self, other: &Binary64) -> (r: Ordering)
        ensures
            r == total_order(self.bits, other.bits),
    {
        let a: i64 = self.total_ordinal();
        let b: i64 = other.total_ordinal();
        if a < b {
            Ordering::Less
        } else if a == b {
            Ordering::Equal
        } else {
            Ordering::Greater
        }
    }
}

impl PartialEq for Binary64 {
    /// `self == other` as the standard defines it: NaN equals nothing, and
    /// `+0.0` equals `-0.0`.
    fn eq(&self, other: &Binary64) -> (r: bool) {
        if self.is_nan() || other.is_nan() {
            false
        } else {
            proof {
                ieee::lemma_order_key(self.bits, other.bits);
            }
            self.ordinal() == other.ordinal()
        }
    }
}

impl PartialEqSpecImpl for Binary64 {
    open spec fn obeys_eq_spec() -> bool {
        true
    }

    open spec fn eq_spec(&self, other: &Binary64) -> bool {
        ieee::same(number(self.bits), number(other.bits))
    }
}

impl PartialOrd for Binary64 {
    /// How the two values compare as the standard defines it: `None` where
    /// either is NaN.
    fn partial_cmp(&self, other: &Binary64) -> (r: Option<Ordering>) {
        if self.is_nan() || other.is_nan() {
            None
        } else {
            proof {
                ieee::lemma_order_key(self.bits, other.bits);
                ieee::lemma_order_key(other.bits, self.bits);
            }
            let a: i64 = self.ordinal();
            let b: i64 = other.ordinal();
            if a < b {
                Some(Ordering::Less)
            } else if a == b {
                Some(Ordering::Equal)
            } else {
                Some(Ordering::Greater)
            }
        }
    }
}

impl PartialOrdSpecImpl for Binary64 {
    open spec fn obeys_partial_cmp_spec() -> bool {
        true
    }

    open spec fn partial_cmp_spec(&self, other: &Binary64) -> Option<Ordering> {
        compare(number(self.bits), number(other.bits))
    }
}

impl core::ops::Neg for Binary64 {
    type Output = Binary64;

    /// The value with its sign bit flipped.
    fn neg(self) -> (r: Binary64) {
        proof {
            lemma_sign_bit_operations(self.bits, 0);
        }
        Binary64 { bits: self.bits ^ SIGN_BIT }
    }
}

impl NegSpecImpl for Binary64 {
    open spec fn obeys_neg_spec() -> bool {
        true
    }

    open spec fn neg_req(self) -> bool {
        true
    }

    open spec fn neg_spec(self) -> Binary64 {
        Binary64 { bits: ieee::with_sign(self.bits, !ieee::sign_negative(self.bits)) }
    }
}

} // verus!
