//! The fused multiply-add of raw values: a product and a sum with one
//! rounding, that of the exact result.
use vstd::prelude::*;
use vstd::arithmetic::power2::lemma_pow2_adds;
use vstd::arithmetic::power2::pow2;
use crate::wide::rounded_sum_of_parts;
use crate::wide::signed_units;
use crate::binary64::Binary64;
use crate::ieee;
use crate::ieee::abs_units;
use crate::ieee::INFINITY_BITS;
use crate::ieee::is_infinite;
use crate::ieee::is_nan;
use crate::ieee::is_zero;
use crate::ieee::QUIET_NAN_BITS;
use crate::ieee::sign_negative;
use crate::ieee::units;
use crate::ieee::with_sign;
use crate::integral::one;
use crate::rounding::lemma_powers;

verus! {

/// The pattern of `a * b + c`, rounded once. It is NaN where any of the three
/// is NaN, for zero times infinity, and for an infinite product added to the
/// other infinity. Else it is the infinity that the product or `c` is, or the
/// exact value of the product and the sum, rounded; an exact value of zero
/// has its sign bit set only where both the product and `c` have.
pub open spec fn fused(a: u64, b: u64, c: u64) -> u64 {
    let negative = sign_negative(a) != sign_negative(b);
    if is_nan(a) || is_nan(b) || is_nan(c) {
        QUIET_NAN_BITS
    } else if (is_infinite(a) && is_zero(b)) || (is_zero(a) && is_infinite(b)) {
        QUIET_NAN_BITS
    } else if is_infinite(a) || is_infinite(b) {
        if is_infinite(c) && sign_negative(c) != negative {
            QUIET_NAN_BITS
        } else {
            with_sign(INFINITY_BITS, negative)
        }
    } else if is_infinite(c) {
        c
    } else {
        rounded_sum_of_parts(
            signed_product(a, b),
            negative,
            units(c) * one(),
            sign_negative(c),
        )
    }
}

/// The exact product of two finite patterns, in parts, of which 2^1074 make
/// a unit.
pub open spec fn signed_product(a: u64, b: u64) -> int {
    if sign_negative(a) != sign_negative(b) {
        -(abs_units(a) * abs_units(b))
    } else {
        (abs_units(a) * abs_units(b)) as int
    }
}

impl Binary64 {
    /// `self * a + b` with one rounding, that of the exact result.
    pub fn mul_add(self, a: Binary64, b: Binary64) -> (r: Binary64)
        ensures
            r.bits == fused(self.bits, a.bits, b.bits),
    {
        let negative: bool = self.is_sign_negative() != a.is_sign_negative();
        proof {
            ieee::lemma_fields(self.bits);
            ieee::lemma_fields(a.bits);
            ieee::lemma_fields(b.bits);
        }
        if self.is_nan() || a.is_nan() || b.is_nan() {
            Binary64::from_bits(QUIET_NAN_BITS)
        } else if self.is_infinite() || a.is_infinite() {
            if self.abs().to_bits() == 0 || a.abs().to_bits() == 0 {
                Binary64::from_bits(QUIET_NAN_BITS)
            } else if b.is_infinite() && b.is_sign_negative() != negative {
                Binary64::from_bits(QUIET_NAN_BITS)
            } else {
                Binary64::from_parts(negative, INFINITY_BITS)
            }
        } else if b.is_infinite() {
            b
        } else {
            let (s1, e1) = self.parts();
            let (s2, e2) = a.parts();
            let (s3, e3) = b.parts();
            proof {
                lemma_powers();
                assert(s1 * s2 < 0x400_0000_0000_0000_0000_0000_0000) by (nonlinear_arith)
                    requires
                        0 <= s1 < 0x20_0000_0000_0000,
                        0 <= s2 < 0x20_0000_0000_0000,
                ;
                lemma_pow2_adds(e1 as nat, e2 as nat);
                lemma_pow2_adds(e3 as nat, 1074);
                assert(abs_units(self.bits) * abs_units(a.bits) == (s1 * s2) * pow2(
                    (e1 + e2) as nat,
                )) by (nonlinear_arith)
                    requires
                        abs_units(self.bits) == s1 * pow2(e1 as nat),
                        abs_units(a.bits) == s2 * pow2(e2 as nat),
                        pow2((e1 + e2) as nat) == pow2(e1 as nat) * pow2(e2 as nat),
                ;
                assert(abs_units(b.bits) * one() == s3 * pow2((e3 + 1074) as nat))
                    by (nonlinear_arith)
                    requires
                        abs_units(b.bits) == s3 * pow2(e3 as nat),
                        pow2((e3 + 1074) as nat) == pow2(e3 as nat) * one(),
                ;
            }
            let p: u128 = (s1 as u128) * (s2 as u128);
            let pe: i64 = e1 + e2 - 1074;
            let c: u128 = s3 as u128;
            proof {
                let ub = abs_units(b.bits) as int;
                assert((-ub) * one() == -(ub * one())) by (nonlinear_arith);
                assert(signed_units(p as int, (pe + 1074) as nat, negative) == signed_product(
                    self.bits,
                    a.bits,
                ));
                assert(signed_units(c as int, (e3 + 1074) as nat, sign_negative(b.bits)) == units(
                    b.bits,
                ) * one());
            }
            if pe >= e3 {
                Binary64::add_wide(p, pe, negative, c, e3, b.is_sign_negative())
            } else {
                Binary64::add_wide(c, e3, b.is_sign_negative(), p, pe, negative)
            }
        }
    }
}

} // verus!
