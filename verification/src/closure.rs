//! Which operations of the arithmetic keep a value positive or zero.
//!
//! A value is positive or zero when it is a number and not below zero. The
//! sum, the product, the quotient and the square root of such values are
//! again such values, but for the cases in which the format has no number to
//! give, and for the quotient by `-0.0`: that value is zero, and so positive
//! or zero, yet it divides like a negative one.
use vstd::prelude::*;
use crate::arith::degrees;
use crate::arith::difference;
use crate::arith::ONE_EIGHTY_BITS;
use crate::arith::product;
use crate::arith::quotient;
use crate::arith::radians;
use crate::arith::reciprocal;
use crate::arith::sum;
use crate::consts;
use crate::fused::fused;
use crate::fused::signed_product;
use crate::ieee;
use crate::ieee::abs_units;
use crate::ieee::INFINITY_BITS;
use crate::ieee::is_infinite;
use crate::ieee::is_nan;
use crate::ieee::is_zero;
use crate::ieee::non_negative;
use crate::ieee::ONE_BITS;
use crate::ieee::SIGN_BIT;
use crate::ieee::units;
use crate::ieee::with_sign;
use crate::integral::one;
use crate::remainder::euclid_remainder;
use crate::remainder::remainder;
use crate::root::lemma_root_exists;
use crate::root::root;
use crate::rounding::lemma_round_zero;
use crate::rounding::lemma_rounding_exists;
use crate::rounding::round_to_nearest;

verus! {

/// Zero times infinity, in either order: the product that is no number.
pub open spec fn zero_by_infinity(a: u64, b: u64) -> bool {
    (is_zero(a) && is_infinite(b)) || (is_infinite(a) && is_zero(b))
}

/// Zero by zero and infinity by infinity: the quotients that are no number.
pub open spec fn no_quotient(a: u64, b: u64) -> bool {
    (is_zero(a) && is_zero(b)) || (is_infinite(a) && is_infinite(b))
}

/// Whether the product of two values that are positive or zero is positive
/// or zero: it is, unless it is zero times infinity.
pub open spec fn product_is_closed(a: u64, b: u64) -> bool {
    !zero_by_infinity(a, b)
}

/// Whether the quotient of two values that are positive or zero is positive
/// or zero: it is, unless it is no number, or the divisor is `-0.0` and the
/// dividend is not zero.
pub open spec fn quotient_is_closed(a: u64, b: u64) -> bool {
    !no_quotient(a, b) && (b != SIGN_BIT || is_zero(a))
}

/// Whether the remainder of two values that are positive or zero is positive
/// or zero: it is, unless the dividend is infinite or the divisor zero.
pub open spec fn remainder_is_closed(a: u64, b: u64) -> bool {
    !is_infinite(a) && !is_zero(b)
}

/// The sum of two values that are positive or zero is positive or zero.
pub proof fn law_sum_keeps_invariant(a: u64, b: u64)
    requires
        non_negative(a),
        non_negative(b),
    ensures
        non_negative(sum(a, b)),
{
    ieee::lemma_non_negative(a);
    ieee::lemma_non_negative(b);
    ieee::lemma_non_negative(sum(a, b));
    ieee::lemma_fields(a);
    ieee::lemma_fields(b);
    if !is_infinite(a) && !is_infinite(b) {
        ieee::lemma_abs_units_zero(a);
        ieee::lemma_abs_units_zero(b);
        let s = units(a) + units(b);
        if s > 0 {
            lemma_rounding_exists(s, 1);
        }
    }
}

/// The product of two values that are positive or zero is positive or zero,
/// but for zero times infinity, which is NaN.
pub proof fn law_product_keeps_invariant(a: u64, b: u64)
    requires
        non_negative(a),
        non_negative(b),
    ensures
        non_negative(product(a, b)) <==> product_is_closed(a, b),
        is_nan(product(a, b)) <==> zero_by_infinity(a, b),
{
    ieee::lemma_non_negative(a);
    ieee::lemma_non_negative(b);
    ieee::lemma_non_negative(product(a, b));
    ieee::lemma_fields(a);
    ieee::lemma_fields(b);
    ieee::lemma_fields(product(a, b));
    if !is_infinite(a) && !is_infinite(b) {
        let num = (abs_units(a) * abs_units(b)) as int;
        vstd::arithmetic::power2::lemma_pow2_pos(1074);
        lemma_rounding_exists(num, one());
        ieee::lemma_abs_units_zero(a);
        ieee::lemma_abs_units_zero(b);
        ieee::lemma_fields(round_to_nearest(num, one()));
        if is_zero(a) || is_zero(b) {
            assert(num == 0) by (nonlinear_arith)
                requires
                    num == abs_units(a) * abs_units(b),
                    abs_units(a) == 0 || abs_units(b) == 0,
            ;
            lemma_round_zero(one());
        }
    }
}

/// The quotient of two values that are positive or zero is NaN for zero by
/// zero and for infinity by infinity. Else it is positive or zero, unless the
/// divisor is `-0.0` and the dividend is not zero: then it is negative
/// infinity.
pub proof fn law_quotient_keeps_invariant(a: u64, b: u64)
    requires
        non_negative(a),
        non_negative(b),
    ensures
        non_negative(quotient(a, b)) <==> quotient_is_closed(a, b),
        is_nan(quotient(a, b)) <==> no_quotient(a, b),
        b == SIGN_BIT && !is_zero(a) ==> quotient(a, b) == with_sign(INFINITY_BITS, true),
{
    ieee::lemma_non_negative(a);
    ieee::lemma_non_negative(b);
    ieee::lemma_non_negative(quotient(a, b));
    ieee::lemma_fields(a);
    ieee::lemma_fields(b);
    ieee::lemma_fields(quotient(a, b));
    if !is_infinite(a) && !is_infinite(b) && !is_zero(b) {
        ieee::lemma_abs_units_zero(a);
        ieee::lemma_abs_units_zero(b);
        let num = abs_units(a) * one();
        let den = abs_units(b) as int;
        vstd::arithmetic::power2::lemma_pow2_pos(1074);
        assert(num >= 0) by (nonlinear_arith)
            requires
                num == abs_units(a) * one(),
                one() > 0,
        ;
        lemma_rounding_exists(num, den);
        ieee::lemma_fields(round_to_nearest(num, den));
        if is_zero(a) {
            assert(num == 0) by (nonlinear_arith)
                requires
                    num == abs_units(a) * one(),
                    abs_units(a) == 0,
            ;
            lemma_round_zero(den);
        }
    }
}

/// The square root of a value that is positive or zero is positive or zero,
/// and so never NaN.
pub proof fn law_root_keeps_invariant(a: u64)
    requires
        non_negative(a),
    ensures
        non_negative(root(a)),
        !is_nan(root(a)),
{
    ieee::lemma_non_negative(a);
    ieee::lemma_non_negative(root(a));
    ieee::lemma_fields(a);
    ieee::lemma_fields(root(a));
    if !is_infinite(a) && !is_zero(a) {
        let sq = abs_units(a) * one();
        vstd::arithmetic::power2::lemma_pow2_pos(1074);
        assert(sq >= 0) by (nonlinear_arith)
            requires
                sq == abs_units(a) * one(),
                one() > 0,
        ;
        lemma_root_exists(sq);
    }
}

/// The difference of two finite values that are positive or zero is below
/// zero exactly when the first is smaller than the second: subtraction does
/// not keep a value positive or zero.
pub proof fn law_difference_may_be_negative(a: u64, b: u64)
    requires
        non_negative(a),
        non_negative(b),
        !is_infinite(a),
        !is_infinite(b),
    ensures
        !is_nan(difference(a, b)),
        non_negative(difference(a, b)) <==> units(a) >= units(b),
{
    let nb = with_sign(b, !ieee::sign_negative(b));
    ieee::lemma_non_negative(a);
    ieee::lemma_non_negative(b);
    ieee::lemma_non_negative(difference(a, b));
    ieee::lemma_fields(a);
    ieee::lemma_fields(b);
    ieee::lemma_fields(nb);
    ieee::lemma_abs_units_zero(a);
    ieee::lemma_abs_units_zero(b);
    assert(abs_units(nb) == abs_units(b));
    let s = units(a) + units(nb);
    if s > 0 {
        lemma_rounding_exists(s, 1);
    }
    if s < 0 {
        lemma_rounding_exists(-s, 1);
        ieee::lemma_fields(round_to_nearest(-s, 1));
        lemma_round_not_zero(-s);
    }
}

/// The square of every value is positive or zero, but that of NaN.
pub proof fn law_square_is_non_negative(a: u64)
    ensures
        is_nan(product(a, a)) <==> is_nan(a),
        !is_nan(a) ==> non_negative(product(a, a)),
{
    ieee::lemma_fields(a);
    ieee::lemma_non_negative(product(a, a));
    ieee::lemma_fields(product(a, a));
    if !is_nan(a) && !is_infinite(a) {
        let num = (abs_units(a) * abs_units(a)) as int;
        vstd::arithmetic::power2::lemma_pow2_pos(1074);
        lemma_rounding_exists(num, one());
        ieee::lemma_fields(round_to_nearest(num, one()));
    }
}

/// The fused product and sum of three values that are positive or zero is
/// positive or zero, but where the product is zero times infinity, which is
/// NaN.
pub proof fn law_fused_keeps_invariant(a: u64, b: u64, c: u64)
    requires
        non_negative(a),
        non_negative(b),
        non_negative(c),
    ensures
        non_negative(fused(a, b, c)) <==> product_is_closed(a, b),
        is_nan(fused(a, b, c)) <==> zero_by_infinity(a, b),
{
    let r = fused(a, b, c);
    ieee::lemma_non_negative(a);
    ieee::lemma_non_negative(b);
    ieee::lemma_non_negative(c);
    ieee::lemma_non_negative(r);
    ieee::lemma_fields(a);
    ieee::lemma_fields(b);
    ieee::lemma_fields(c);
    ieee::lemma_fields(r);
    if !is_infinite(a) && !is_infinite(b) && !is_infinite(c) {
        ieee::lemma_abs_units_zero(a);
        ieee::lemma_abs_units_zero(b);
        ieee::lemma_abs_units_zero(c);
        vstd::arithmetic::power2::lemma_pow2_pos(1074);
        let x = signed_product(a, b);
        let y = units(c) * one();
        assert(x >= 0) by (nonlinear_arith)
            requires
                x == abs_units(a) * abs_units(b) || (x == -(abs_units(a) * abs_units(b)) && (
                abs_units(a) == 0 || abs_units(b) == 0)),
        ;
        assert(y >= 0) by (nonlinear_arith)
            requires
                y == units(c) * one(),
                units(c) >= 0,
                one() > 0,
        ;
        if x + y > 0 {
            lemma_rounding_exists(x + y, one());
            ieee::lemma_fields(round_to_nearest(x + y, one()));
        }
    }
}

/// The remainder that is never below zero, of two values that are positive
/// or zero, is positive or zero, but where the dividend is infinite or the
/// divisor zero: there it is NaN.
pub proof fn law_remainder_keeps_invariant(a: u64, b: u64)
    requires
        non_negative(a),
        non_negative(b),
    ensures
        non_negative(euclid_remainder(a, b)) <==> remainder_is_closed(a, b),
        is_nan(euclid_remainder(a, b)) <==> !remainder_is_closed(a, b),
{
    let r = remainder(a, b);
    ieee::lemma_non_negative(a);
    ieee::lemma_non_negative(b);
    ieee::lemma_non_negative(r);
    ieee::lemma_fields(a);
    ieee::lemma_fields(b);
    ieee::lemma_fields(r);
    ieee::lemma_abs_units_zero(0);
    if !is_infinite(a) && !is_zero(b) && !is_infinite(b) {
        ieee::lemma_abs_units_zero(a);
        ieee::lemma_abs_units_zero(b);
        let left = (abs_units(a) % abs_units(b)) as int;
        vstd::arithmetic::div_mod::lemma_mod_bound(abs_units(a) as int, abs_units(b) as int);
        lemma_rounding_exists(left, 1);
        let m = round_to_nearest(left, 1);
        ieee::lemma_fields(m);
        if ieee::sign_negative(a) {
            vstd::arithmetic::div_mod::lemma_small_mod(0, abs_units(b));
            lemma_round_zero(1);
            ieee::lemma_abs_units_zero(SIGN_BIT);
        }
        ieee::lemma_non_negative(euclid_remainder(a, b));
        ieee::lemma_fields(euclid_remainder(a, b));
    }
}

/// The reciprocal of a value that is positive or zero is positive or zero,
/// unless the value is `-0.0`: the reciprocal of that is negative infinity.
pub proof fn law_reciprocal_keeps_invariant(a: u64)
    requires
        non_negative(a),
    ensures
        non_negative(reciprocal(a)) <==> a != SIGN_BIT,
        a == SIGN_BIT ==> reciprocal(a) == with_sign(INFINITY_BITS, true),
{
    ieee::lemma_non_negative(ONE_BITS);
    ieee::lemma_fields(ONE_BITS);
    law_quotient_keeps_invariant(ONE_BITS, a);
}

/// An angle that is positive or zero stays so when it is turned from radians
/// into degrees or from degrees into radians.
pub proof fn law_angle_keeps_invariant(a: u64)
    requires
        non_negative(a),
    ensures
        non_negative(degrees(a)),
        non_negative(radians(a)),
{
    lemma_quotient_ordinary(ONE_EIGHTY_BITS, consts::PI);
    lemma_quotient_ordinary(consts::PI, ONE_EIGHTY_BITS);
    let to_degrees = quotient(ONE_EIGHTY_BITS, consts::PI);
    let to_radians = quotient(consts::PI, ONE_EIGHTY_BITS);
    ieee::lemma_non_negative(to_degrees);
    ieee::lemma_non_negative(to_radians);
    ieee::lemma_fields(to_degrees);
    ieee::lemma_fields(to_radians);
    law_product_keeps_invariant(a, to_degrees);
    law_product_keeps_invariant(a, to_radians);
}

/// The quotient of two values between 1 and 256 is an ordinary value above
/// zero: neither zero nor infinite.
proof fn lemma_quotient_ordinary(a: u64, b: u64)
    requires
        ONE_BITS <= a <= 0x4070_0000_0000_0000,
        ONE_BITS <= b <= 0x4070_0000_0000_0000,
    ensures
        0 < quotient(a, b) < INFINITY_BITS,
{
    let p = one();
    let num = abs_units(a) * one();
    let den = abs_units(b) as int;
    let q = round_to_nearest(num, den);
    let top = (INFINITY_BITS - 1) as u64;
    ieee::lemma_fields(a);
    ieee::lemma_fields(b);
    ieee::lemma_fields(q);
    ieee::lemma_abs_units_zero(a);
    ieee::lemma_abs_units_zero(b);
    ieee::lemma_abs_units_zero(0);
    ieee::lemma_abs_units_zero(1);
    vstd::arithmetic::power2::lemma_pow2_pos(1074);
    vstd::arithmetic::power2::lemma2_to64();
    vstd::arithmetic::power2::lemma2_to64_rest();
    // the sizes of 1, 256 and 512
    assert(ieee::exponent_field(ONE_BITS) == 1023 && ieee::fraction_field(ONE_BITS) == 0);
    assert(ieee::exponent_field(0x4070_0000_0000_0000) == 1031 && ieee::fraction_field(
        0x4070_0000_0000_0000,
    ) == 0);
    assert(ieee::exponent_field(0x4080_0000_0000_0000) == 1032 && ieee::fraction_field(
        0x4080_0000_0000_0000,
    ) == 0);
    vstd::arithmetic::power2::lemma_pow2_adds(52, 1022);
    vstd::arithmetic::power2::lemma_pow2_adds(52, 1030);
    vstd::arithmetic::power2::lemma_pow2_adds(52, 1031);
    vstd::arithmetic::power2::lemma_pow2_adds(8, 1074);
    vstd::arithmetic::power2::lemma_pow2_adds(9, 1074);
    assert(abs_units(ONE_BITS) == p);
    assert(abs_units(0x4070_0000_0000_0000) == 256 * p);
    assert(abs_units(0x4080_0000_0000_0000) == 512 * p);
    if a > ONE_BITS {
        ieee::lemma_abs_units_increasing(ONE_BITS, a);
    }
    if b > ONE_BITS {
        ieee::lemma_abs_units_increasing(ONE_BITS, b);
    }
    if a < 0x4070_0000_0000_0000 {
        ieee::lemma_abs_units_increasing(a, 0x4070_0000_0000_0000);
    }
    if b < 0x4070_0000_0000_0000 {
        ieee::lemma_abs_units_increasing(b, 0x4070_0000_0000_0000);
    }
    ieee::lemma_abs_units_increasing(0x4080_0000_0000_0000, top);
    ieee::lemma_abs_units_increasing(top, INFINITY_BITS);
    let ua = abs_units(a) as int;
    assert(p >= 512) by {
        vstd::arithmetic::power2::lemma_pow2_strictly_increases(9, 1074);
    }
    assert(num >= p * p) by (nonlinear_arith)
        requires
            num == ua * p,
            ua >= p,
            p > 0,
    ;
    assert(num <= 256 * (p * p)) by (nonlinear_arith)
        requires
            num == ua * p,
            ua <= 256 * p,
            p > 0,
    ;
    assert(p * p >= 512 * p) by (nonlinear_arith)
        requires
            p >= 512,
    ;
    lemma_rounding_exists(num, den);
    if q == 0 {
        assert(abs_units(0) + abs_units(1) <= 2) by {
            crate::rounding::lemma_successor(0);
        }
        assert(den * (abs_units(0) + abs_units(1)) <= 512 * p) by (nonlinear_arith)
            requires
                den <= 256 * p,
                abs_units(0) + abs_units(1) <= 2,
                den > 0,
        ;
    }
    if q == INFINITY_BITS {
        let gap = abs_units(top) + abs_units(INFINITY_BITS);
        assert(den * gap > 2 * (256 * (p * p))) by (nonlinear_arith)
            requires
                den >= p,
                gap > 1024 * p,
                p > 0,
        ;
    }
}

/// A whole number of units above zero does not round to zero.
proof fn lemma_round_not_zero(num: int)
    requires
        num > 0,
    ensures
        round_to_nearest(num, 1) != 0,
{
    lemma_rounding_exists(num, 1);
    let m = round_to_nearest(num, 1);
    if m == 0 {
        crate::rounding::lemma_successor(0);
        ieee::lemma_abs_units_zero(0);
        vstd::arithmetic::power2::lemma2_to64();
        assert(abs_units(0) + abs_units(1) == 1);
    }
}

} // verus!
