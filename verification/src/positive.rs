//! A binary64 value that is positive or zero, with constructors that take the
//! absolute value of any raw value.
use vstd::prelude::*;
use vstd::std_specs::cmp::PartialEqSpecImpl;
use vstd::std_specs::cmp::PartialOrdSpecImpl;
use vstd::std_specs::convert::FromSpec;
use vstd::std_specs::convert::FromSpecImpl;
use vstd::std_specs::convert::TryFromSpec;
use vstd::std_specs::convert::TryFromSpecImpl;
use vstd::std_specs::ops::AddSpecImpl;
use vstd::std_specs::ops::DivSpecImpl;
use vstd::std_specs::ops::MulSpecImpl;
use vstd::std_specs::ops::NegSpecImpl;
use vstd::std_specs::ops::SubSpecImpl;
use core::cmp::Ordering;
use crate::arith::difference;
use crate::arith::product;
use crate::arith::quotient;
use crate::arith::sum;
use crate::binary64::Binary64;
use crate::closure::law_product_keeps_invariant;
use crate::closure::law_quotient_keeps_invariant;
use crate::closure::law_square_is_non_negative;
use crate::closure::law_sum_keeps_invariant;
use crate::closure::product_is_closed;
use crate::closure::quotient_is_closed;
use crate::consts;
use crate::ieee;
use crate::ieee::INFINITY_BITS;
use crate::ieee::number;
use crate::ieee::SIGN_BIT;
use crate::order::compare;

verus! {

/// A binary64 value that is guaranteed to be positive or zero.
///
/// The guarantee is `is_non_negative`. The validating constructors establish
/// it, `abs` and `square` do for every raw value that is not NaN, and the
/// sum, the product and the quotient keep it; the difference and the negation
/// are raw values. No operation checks its result again: the contracts of
/// the product and of the quotient say for which values it is not positive
/// or zero.
#[derive(Clone, Copy, Debug)]
pub struct PositiveF64 {
    raw: Binary64,
}

impl PositiveF64 {
    /// The raw value that is held.
    pub closed spec fn view(&self) -> Binary64 {
        self.raw
    }

    /// The invariant of the type: the value is a number, and not below zero.
    pub open spec fn is_non_negative(&self) -> bool {
        ieee::non_negative(self@.bits)
    }

    /// What `new` returns for a raw value.
    pub closed spec fn checked(value: Binary64) -> Option<PositiveF64> {
        if ieee::non_negative(value.bits) {
            Some(PositiveF64 { raw: value })
        } else {
            None
        }
    }

    /// The value, if it is `>= 0.0`, and `None` if it is negative or NaN.
    /// Both zeros and positive infinity are accepted, and what is accepted is
    /// kept bit for bit.
    pub fn new(value: Binary64) -> (r: Option<PositiveF64>)
        ensures
            r == Self::checked(value),
            r.is_some() <==> ieee::non_negative(value.bits),
            r matches Some(v) ==> v@ == value,
    {
        if value.is_non_negative() {
            Some(PositiveF64 { raw: value })
        } else {
            None
        }
    }

    /// The absolute value of any raw value: the value with its sign bit
    /// clear. It is positive or zero unless the value is NaN, which stays
    /// NaN.
    pub fn abs(f: Binary64) -> (r: PositiveF64)
        ensures
            r@.bits == ieee::with_sign(f.bits, false),
            !ieee::is_nan(f.bits) ==> r.is_non_negative(),
    {
        proof {
            ieee::lemma_non_negative(ieee::with_sign(f.bits, false));
            ieee::lemma_fields(f.bits);
        }
        PositiveF64 { raw: f.abs() }
    }

    /// The square of any raw value. It is positive or zero unless the value
    /// is NaN, which stays NaN.
    pub fn square(f: Binary64) -> (r: PositiveF64)
        ensures
            r@.bits == product(f.bits, f.bits),
            !ieee::is_nan(f.bits) ==> r.is_non_negative(),
    {
        proof {
            law_square_is_non_negative(f.bits);
        }
        PositiveF64 { raw: f * f }
    }

    /// Wraps a value without checking it. The caller answers for the value
    /// being positive or zero.
    pub fn from_f64_unchecked(value: Binary64) -> (r: PositiveF64)
        requires
            ieee::non_negative(value.bits),
        ensures
            r@ == value,
            Self::checked(value) == Some(r),
    {
        PositiveF64 { raw: value }
    }
}

impl PositiveF64 {
    /// The value with a bit pattern that is not above that of positive
    /// infinity, and so is positive or zero.
    fn constant(bits: u64) -> (r: PositiveF64)
        requires
            bits <= INFINITY_BITS,
        ensures
            r@.bits == bits,
            r.is_non_negative(),
    {
        proof {
            ieee::lemma_non_negative(bits);
        }
        PositiveF64 { raw: Binary64::from_bits(bits) }
    }

    /// Archimedes' constant, pi.
    pub fn pi() -> (r: PositiveF64)
        ensures
            r@.bits == consts::PI,
            r.is_non_negative(),
    {
        Self::constant(consts::PI)
    }

    /// Euler's number, e.
    pub fn e() -> (r: PositiveF64)
        ensures
            r@.bits == consts::E,
            r.is_non_negative(),
    {
        Self::constant(consts::E)
    }

    /// 1 / pi.
    pub fn frac_1_pi() -> (r: PositiveF64)
        ensures
            r@.bits == consts::FRAC_1_PI,
            r.is_non_negative(),
    {
        Self::constant(consts::FRAC_1_PI)
    }

    /// 1 / sqrt(2).
    pub fn frac_1_sqrt_2() -> (r: PositiveF64)
        ensures
            r@.bits == consts::FRAC_1_SQRT_2,
            r.is_non_negative(),
    {
        Self::constant(consts::FRAC_1_SQRT_2)
    }

    /// 2 / pi.
    pub fn frac_2_pi() -> (r: PositiveF64)
        ensures
            r@.bits == consts::FRAC_2_PI,
            r.is_non_negative(),
    {
        Self::constant(consts::FRAC_2_PI)
    }

    /// 2 / sqrt(pi).
    pub fn frac_2_sqrt_pi() -> (r: PositiveF64)
        ensures
            r@.bits == consts::FRAC_2_SQRT_PI,
            r.is_non_negative(),
    {
        Self::constant(consts::FRAC_2_SQRT_PI)
    }

    /// pi / 2.
    pub fn frac_pi_2() -> (r: PositiveF64)
        ensures
            r@.bits == consts::FRAC_PI_2,
            r.is_non_negative(),
    {
        Self::constant(consts::FRAC_PI_2)
    }

    /// pi / 3.
    pub fn frac_pi_3() -> (r: PositiveF64)
        ensures
            r@.bits == consts::FRAC_PI_3,
            r.is_non_negative(),
    {
        Self::constant(consts::FRAC_PI_3)
    }

    /// pi / 4.
    pub fn frac_pi_4() -> (r: PositiveF64)
        ensures
            r@.bits == consts::FRAC_PI_4,
            r.is_non_negative(),
    {
        Self::constant(consts::FRAC_PI_4)
    }

    /// pi / 6.
    pub fn frac_pi_6() -> (r: PositiveF64)
        ensures
            r@.bits == consts::FRAC_PI_6,
            r.is_non_negative(),
    {
        Self::constant(consts::FRAC_PI_6)
    }

    /// pi / 8.
    pub fn frac_pi_8() -> (r: PositiveF64)
        ensures
            r@.bits == consts::FRAC_PI_8,
            r.is_non_negative(),
    {
        Self::constant(consts::FRAC_PI_8)
    }

    /// The natural logarithm of 10.
    pub fn ln_10() -> (r: PositiveF64)
        ensures
            r@.bits == consts::LN_10,
            r.is_non_negative(),
    {
        Self::constant(consts::LN_10)
    }

    /// The natural logarithm of 2.
    pub fn ln_2() -> (r: PositiveF64)
        ensures
            r@.bits == consts::LN_2,
            r.is_non_negative(),
    {
        Self::constant(consts::LN_2)
    }

    /// The logarithm of e to base 10.
    pub fn log10_e() -> (r: PositiveF64)
        ensures
            r@.bits == consts::LOG10_E,
            r.is_non_negative(),
    {
        Self::constant(consts::LOG10_E)
    }

    /// The logarithm of e to base 2.
    pub fn log2_e() -> (r: PositiveF64)
        ensures
            r@.bits == consts::LOG2_E,
            r.is_non_negative(),
    {
        Self::constant(consts::LOG2_E)
    }

    /// The square root of 2.
    pub fn sqrt_2() -> (r: PositiveF64)
        ensures
            r@.bits == consts::SQRT_2,
            r.is_non_negative(),
    {
        Self::constant(consts::SQRT_2)
    }

    /// The full circle constant, 2 * pi.
    pub fn tau() -> (r: PositiveF64)
        ensures
            r@.bits == consts::TAU,
            r.is_non_negative(),
    {
        Self::constant(consts::TAU)
    }

    /// The machine epsilon, 2^-52.
    pub fn epsilon() -> (r: PositiveF64)
        ensures
            r@.bits == consts::EPSILON,
            r.is_non_negative(),
    {
        Self::constant(consts::EPSILON)
    }

    /// Positive infinity.
    pub fn infinity() -> (r: PositiveF64)
        ensures
            r@.bits == consts::INFINITY,
            r.is_non_negative(),
    {
        Self::constant(consts::INFINITY)
    }

    /// Positive zero.
    pub fn zero() -> (r: PositiveF64)
        ensures
            r@.bits == consts::ZERO,
            r.is_non_negative(),
    {
        Self::constant(consts::ZERO)
    }

    /// One.
    pub fn one() -> (r: PositiveF64)
        ensures
            r@.bits == consts::ONE,
            r.is_non_negative(),
    {
        Self::constant(consts::ONE)
    }

}

impl TryFrom<Binary64> for PositiveF64 {
    type Error = ();

    /// The value, if it is `>= 0.0`; an error that carries nothing if it is
    /// negative or NaN.
    fn try_from(value: Binary64) -> (r: Result<PositiveF64, ()>)
        ensures
            r.is_ok() <==> ieee::non_negative(value.bits),
            r matches Ok(v) ==> v@ == value,
    {
        if value.is_non_negative() {
            Ok(PositiveF64 { raw: value })
        } else {
            Err(())
        }
    }
}

impl TryFromSpecImpl<Binary64> for PositiveF64 {
    open spec fn obeys_try_from_spec() -> bool {
        true
    }

    closed spec fn try_from_spec(value: Binary64) -> Result<PositiveF64, ()> {
        if ieee::non_negative(value.bits) {
            Ok(PositiveF64 { raw: value })
        } else {
            Err(())
        }
    }
}

impl From<PositiveF64> for Binary64 {
    /// The raw value, unchanged.
    fn from(value: PositiveF64) -> (r: Binary64) {
        value.raw
    }
}

impl FromSpecImpl<PositiveF64> for Binary64 {
    open spec fn obeys_from_spec() -> bool {
        true
    }

    open spec fn from_spec(value: PositiveF64) -> Binary64 {
        value@
    }
}

impl AsRef<Binary64> for PositiveF64 {
    /// The raw value, unchanged.
    fn as_ref(&self) -> (r: &Binary64)
        ensures
            *r == self@,
    {
        &self.raw
    }
}

impl PartialEq for PositiveF64 {
    /// Whether the two values are the same number. `+0.0` equals `-0.0`.
    fn eq(&self, other: &PositiveF64) -> (r: bool) {
        self.raw == other.raw
    }
}

impl PartialEqSpecImpl for PositiveF64 {
    open spec fn obeys_eq_spec() -> bool {
        true
    }

    open spec fn eq_spec(&self, other: &PositiveF64) -> bool {
        ieee::same(number(self@.bits), number(other@.bits))
    }
}

impl PartialOrd for PositiveF64 {
    /// How the two values compare as numbers.
    fn partial_cmp(&self, other: &PositiveF64) -> (r: Option<Ordering>) {
        self.raw.partial_cmp(&other.raw)
    }
}

impl PartialOrdSpecImpl for PositiveF64 {
    open spec fn obeys_partial_cmp_spec() -> bool {
        true
    }

    open spec fn partial_cmp_spec(&self, other: &PositiveF64) -> Option<Ordering> {
        compare(number(self@.bits), number(other@.bits))
    }
}

impl PartialEq<Binary64> for PositiveF64 {
    /// Whether the value is the same number as a raw value.
    fn eq(&self, other: &Binary64) -> (r: bool) {
        self.raw == *other
    }
}

impl PartialEqSpecImpl<Binary64> for PositiveF64 {
    open spec fn obeys_eq_spec() -> bool {
        true
    }

    open spec fn eq_spec(&self, other: &Binary64) -> bool {
        ieee::same(number(self@.bits), number(other.bits))
    }
}

impl PartialOrd<Binary64> for PositiveF64 {
    /// How the value compares with a raw value: `None` where the raw value is
    /// NaN.
    fn partial_cmp(&self, other: &Binary64) -> (r: Option<Ordering>) {
        self.raw.partial_cmp(other)
    }
}

impl PartialOrdSpecImpl<Binary64> for PositiveF64 {
    open spec fn obeys_partial_cmp_spec() -> bool {
        true
    }

    open spec fn partial_cmp_spec(&self, other: &Binary64) -> Option<Ordering> {
        compare(number(self@.bits), number(other.bits))
    }
}

impl core::ops::Neg for PositiveF64 {
    type Output = Binary64;

    /// The value with its sign bit set or cleared. What comes back is a raw
    /// value: it is below zero unless the value was zero.
    fn neg(self) -> (r: Binary64) {
        core::ops::Neg::neg(self.raw)
    }
}

impl NegSpecImpl for PositiveF64 {
    open spec fn obeys_neg_spec() -> bool {
        true
    }

    open spec fn neg_req(self) -> bool {
        true
    }

    open spec fn neg_spec(self) -> Binary64 {
        Binary64 { bits: ieee::with_sign(self@.bits, !ieee::sign_negative(self@.bits)) }
    }
}

impl core::ops::Add for PositiveF64 {
    type Output = PositiveF64;

    /// The sum of the two values. The sum of values that are positive or zero
    /// is positive or zero.
    fn add(self, rhs: PositiveF64) -> (r: PositiveF64)
        ensures
            r@.bits == sum(self@.bits, rhs@.bits),
            self.is_non_negative() && rhs.is_non_negative() ==> r.is_non_negative(),
    {
        proof {
            if self.is_non_negative() && rhs.is_non_negative() {
                law_sum_keeps_invariant(self@.bits, rhs@.bits);
            }
        }
        PositiveF64 { raw: self.raw + rhs.raw }
    }
}

impl AddSpecImpl for PositiveF64 {
    open spec fn obeys_add_spec() -> bool {
        true
    }

    open spec fn add_req(self, rhs: PositiveF64) -> bool {
        true
    }

    closed spec fn add_spec(self, rhs: PositiveF64) -> PositiveF64 {
        PositiveF64 { raw: Binary64 { bits: sum(self.raw.bits, rhs.raw.bits) } }
    }
}

impl core::ops::Add<Binary64> for PositiveF64 {
    type Output = Binary64;

    /// The sum of the value and a raw value, which may be negative.
    fn add(self, rhs: Binary64) -> (r: Binary64) {
        self.raw + rhs
    }
}

impl AddSpecImpl<Binary64> for PositiveF64 {
    open spec fn obeys_add_spec() -> bool {
        true
    }

    open spec fn add_req(self, rhs: Binary64) -> bool {
        true
    }

    open spec fn add_spec(self, rhs: Binary64) -> Binary64 {
        Binary64 { bits: sum(self@.bits, rhs.bits) }
    }
}

impl core::ops::Sub for PositiveF64 {
    type Output = Binary64;

    /// The difference of the two values, as a raw value: it is negative where
    /// the second value is the larger.
    fn sub(self, rhs: PositiveF64) -> (r: Binary64) {
        self.raw - rhs.raw
    }
}

impl SubSpecImpl for PositiveF64 {
    open spec fn obeys_sub_spec() -> bool {
        true
    }

    open spec fn sub_req(self, rhs: PositiveF64) -> bool {
        true
    }

    open spec fn sub_spec(self, rhs: PositiveF64) -> Binary64 {
        Binary64 { bits: difference(self@.bits, rhs@.bits) }
    }
}

impl core::ops::Sub<Binary64> for PositiveF64 {
    type Output = Binary64;

    /// The difference of the value and a raw value, which may be negative.
    fn sub(self, rhs: Binary64) -> (r: Binary64) {
        self.raw - rhs
    }
}

impl SubSpecImpl<Binary64> for PositiveF64 {
    open spec fn obeys_sub_spec() -> bool {
        true
    }

    open spec fn sub_req(self, rhs: Binary64) -> bool {
        true
    }

    open spec fn sub_spec(self, rhs: Binary64) -> Binary64 {
        Binary64 { bits: difference(self@.bits, rhs.bits) }
    }
}

impl core::ops::Mul for PositiveF64 {
    type Output = PositiveF64;

    /// The product of the two values. The product of values that are positive
    /// or zero is positive or zero, but for zero times infinity, which is NaN.
    fn mul(self, rhs: PositiveF64) -> (r: PositiveF64)
        ensures
            r@.bits == product(self@.bits, rhs@.bits),
            self.is_non_negative() && rhs.is_non_negative() ==> (r.is_non_negative()
                <==> product_is_closed(self@.bits, rhs@.bits)),
    {
        proof {
            if self.is_non_negative() && rhs.is_non_negative() {
                law_product_keeps_invariant(self@.bits, rhs@.bits);
            }
        }
        PositiveF64 { raw: self.raw * rhs.raw }
    }
}

impl MulSpecImpl for PositiveF64 {
    open spec fn obeys_mul_spec() -> bool {
        true
    }

    open spec fn mul_req(self, rhs: PositiveF64) -> bool {
        true
    }

    closed spec fn mul_spec(self, rhs: PositiveF64) -> PositiveF64 {
        PositiveF64 { raw: Binary64 { bits: product(self.raw.bits, rhs.raw.bits) } }
    }
}

impl core::ops::Mul<Binary64> for PositiveF64 {
    type Output = Binary64;

    /// The product of the value and a raw value, which may be negative.
    fn mul(self, rhs: Binary64) -> (r: Binary64) {
        self.raw * rhs
    }
}

impl MulSpecImpl<Binary64> for PositiveF64 {
    open spec fn obeys_mul_spec() -> bool {
        true
    }

    open spec fn mul_req(self, rhs: Binary64) -> bool {
        true
    }

    open spec fn mul_spec(self, rhs: Binary64) -> Binary64 {
        Binary64 { bits: product(self@.bits, rhs.bits) }
    }
}

impl core::ops::Div for PositiveF64 {
    type Output = PositiveF64;

    /// The quotient of the two values. It is not checked again. For values that
    /// are positive or zero it is positive or zero, with these exceptions: zero
    /// by zero and infinity by infinity are NaN, and a value that is not zero,
    /// divided by `-0.0`, is negative infinity.
    fn div(self, rhs: PositiveF64) -> (r: PositiveF64)
        ensures
            r@.bits == quotient(self@.bits, rhs@.bits),
            self.is_non_negative() && rhs.is_non_negative() ==> (r.is_non_negative()
                <==> quotient_is_closed(self@.bits, rhs@.bits)),
    {
        proof {
            if self.is_non_negative() && rhs.is_non_negative() {
                law_quotient_keeps_invariant(self@.bits, rhs@.bits);
            }
        }
        PositiveF64 { raw: self.raw / rhs.raw }
    }
}

impl DivSpecImpl for PositiveF64 {
    open spec fn obeys_div_spec() -> bool {
        true
    }

    open spec fn div_req(self, rhs: PositiveF64) -> bool {
        true
    }

    closed spec fn div_spec(self, rhs: PositiveF64) -> PositiveF64 {
        PositiveF64 { raw: Binary64 { bits: quotient(self.raw.bits, rhs.raw.bits) } }
    }
}

impl core::ops::Div<Binary64> for PositiveF64 {
    type Output = Binary64;

    /// The quotient of the value and a raw value, which may be negative.
    fn div(self, rhs: Binary64) -> (r: Binary64) {
        self.raw / rhs
    }
}

impl DivSpecImpl<Binary64> for PositiveF64 {
    open spec fn obeys_div_spec() -> bool {
        true
    }

    open spec fn div_req(self, rhs: Binary64) -> bool {
        true
    }

    open spec fn div_spec(self, rhs: Binary64) -> Binary64 {
        Binary64 { bits: quotient(self@.bits, rhs.bits) }
    }
}

impl core::ops::AddAssign for PositiveF64 {
    /// Replaces the value by its sum with another.
    fn add_assign(&mut self, rhs: PositiveF64)
        ensures
            final(self)@.bits == sum(old(self)@.bits, rhs@.bits),
            old(self).is_non_negative() && rhs.is_non_negative() ==> final(self).is_non_negative(),
    {
        proof {
            if self.is_non_negative() && rhs.is_non_negative() {
                law_sum_keeps_invariant(self@.bits, rhs@.bits);
            }
        }
        self.raw = self.raw + rhs.raw;
    }
}

impl core::ops::MulAssign for PositiveF64 {
    /// Replaces the value by its product with another.
    fn mul_assign(&mut self, rhs: PositiveF64)
        ensures
            final(self)@.bits == product(old(self)@.bits, rhs@.bits),
            old(self).is_non_negative() && rhs.is_non_negative() ==> (
            final(self).is_non_negative() <==> product_is_closed(old(self)@.bits, rhs@.bits)),
    {
        proof {
            if self.is_non_negative() && rhs.is_non_negative() {
                law_product_keeps_invariant(self@.bits, rhs@.bits);
            }
        }
        self.raw = self.raw * rhs.raw;
    }
}

impl core::ops::DivAssign for PositiveF64 {
    /// Replaces the value by its quotient by another, which is not checked
    /// again.
    fn div_assign(&mut self, rhs: PositiveF64)
        ensures
            final(self)@.bits == quotient(old(self)@.bits, rhs@.bits),
            old(self).is_non_negative() && rhs.is_non_negative() ==> (
            final(self).is_non_negative() <==> quotient_is_closed(old(self)@.bits, rhs@.bits)),
    {
        proof {
            if self.is_non_negative() && rhs.is_non_negative() {
                law_quotient_keeps_invariant(self@.bits, rhs@.bits);
            }
        }
        self.raw = self.raw / rhs.raw;
    }
}

/// A value that is `>= 0.0` is accepted by both validating constructors, which
/// keep it bit for bit, and the conversion back to a raw value returns it.
pub proof fn law_accepts_non_negative(value: Binary64)
    requires
        ieee::at_most(ieee::zero(), number(value.bits)),
    ensures
        PositiveF64::checked(value) matches Some(v) && v@ == value && v.is_non_negative()
            && <Binary64 as FromSpec<PositiveF64>>::from_spec(v) == value,
        <PositiveF64 as TryFromSpec<Binary64>>::try_from_spec(value) matches Ok(v) && v@ == value,
{
}

/// A value that is below zero or NaN is refused by both validating
/// constructors.
pub proof fn law_rejects_negative_and_nan(value: Binary64)
    requires
        ieee::less(number(value.bits), ieee::zero()) || ieee::is_nan(value.bits),
    ensures
        PositiveF64::checked(value) is None,
        <PositiveF64 as TryFromSpec<Binary64>>::try_from_spec(value) is Err,
{
}

/// The two validating constructors accept the same values and return the same
/// for them.
pub proof fn law_constructors_agree(value: Binary64)
    ensures
        <PositiveF64 as TryFromSpec<Binary64>>::try_from_spec(value) == match PositiveF64::checked(
            value,
        ) {
            Some(v) => Ok::<PositiveF64, ()>(v),
            None => Err::<PositiveF64, ()>(()),
        },
{
}

} // verus!
