//! The remainder of a division of raw values. It is exact: what is left of
//! the dividend when the divisor is taken away a whole number of times is a
//! value of the format.
use vstd::prelude::*;
use vstd::arithmetic::div_mod::lemma_mod_bound;
use vstd::arithmetic::div_mod::lemma_mul_mod_noop_left;
use vstd::arithmetic::div_mod::lemma_small_mod;
use vstd::arithmetic::div_mod::lemma_truncate_middle;
use vstd::arithmetic::power2::lemma_pow2_adds;
use vstd::arithmetic::power2::lemma_pow2_pos;
use vstd::arithmetic::power2::lemma_pow2_strictly_increases;
use vstd::arithmetic::power2::pow2;
use vstd::std_specs::ops::RemSpecImpl;
use crate::arith::sum;
use crate::binary64::Binary64;
use crate::ieee;
use crate::ieee::abs_units;
use crate::ieee::HIDDEN_BIT;
use crate::ieee::INFINITY_BITS;
use crate::ieee::is_infinite;
use crate::ieee::is_nan;
use crate::ieee::is_zero;
use crate::ieee::less;
use crate::ieee::number;
use crate::ieee::QUIET_NAN_BITS;
use crate::ieee::sign_negative;
use crate::ieee::with_sign;
use crate::rounding::lemma_powers;
use crate::rounding::lemma_round_to_nearest;
use crate::rounding::power_of_two;
use crate::rounding::round_pack;
use crate::rounding::round_to_nearest;

verus! {

/// The remainder of the division of one pattern by another, with the
/// quotient cut off towards zero. It is NaN where either is NaN, where the
/// first is infinite and where the second is zero, and the first where the
/// second is infinite. Else its size is the remainder of the two sizes, and
/// it has the sign bit of the first.
pub open spec fn remainder(a: u64, b: u64) -> u64 {
    if is_nan(a) || is_nan(b) || is_infinite(a) || is_zero(b) {
        QUIET_NAN_BITS
    } else if is_infinite(b) {
        a
    } else {
        with_sign(
            round_to_nearest((abs_units(a) % abs_units(b)) as int, 1),
            sign_negative(a),
        )
    }
}

/// The remainder that is never below zero: where `remainder` is, the size of
/// the divisor is added to it, and this sum is rounded.
pub open spec fn euclid_remainder(a: u64, b: u64) -> u64 {
    let r = remainder(a, b);
    if less(number(r), ieee::zero()) {
        sum(r, with_sign(b, false))
    } else {
        r
    }
}

/// A value of the format rounds to itself.
pub proof fn lemma_exact_rounds_to_itself(m: u64)
    requires
        m <= INFINITY_BITS,
    ensures
        round_to_nearest(abs_units(m) as int, 1) == m,
{
    ieee::lemma_fields(m);
    if m > 0 {
        ieee::lemma_abs_units_increasing((m - 1) as u64, m);
    }
    if m < INFINITY_BITS {
        ieee::lemma_abs_units_increasing(m, (m + 1) as u64);
    }
    lemma_round_to_nearest(m, abs_units(m) as int, 1);
}

impl Binary64 {
    /// `x * 2^gap mod divisor`, for a `x` below the divisor.
    fn shifted_remainder(x: u64, gap: i64, divisor: u64) -> (r: u64)
        requires
            0 <= gap <= 2045,
            x < divisor < 2 * HIDDEN_BIT,
        ensures
            r == (x * pow2(gap as nat)) % (divisor as int),
            r < divisor,
    {
        let mut r: u64 = x;
        let mut left: i64 = gap;
        proof {
            lemma_powers();
            lemma_small_mod(x as nat, divisor as nat);
            assert(x * pow2(0) == x) by (nonlinear_arith)
                requires
                    pow2(0) == 1,
            ;
        }
        while left > 0
            invariant
                0 <= left <= gap <= 2045,
                r < divisor < 2 * HIDDEN_BIT,
                r == (x * pow2((gap - left) as nat)) % (divisor as int),
            decreases left,
        {
            let step: i64 = if left > 64 {
                64
            } else {
                left
            };
            let k: u128 = power_of_two(step as u32);
            proof {
                let done = (gap - left) as nat;
                let d = divisor as int;
                vstd::arithmetic::power2::lemma2_to64();
                if step < 64 {
                    lemma_pow2_strictly_increases(step as nat, 64);
                }
                assert(r * k < 0x20_0000_0000_0000 * 0x1_0000_0000_0000_0001) by (nonlinear_arith)
                    requires
                        0 <= r < 0x20_0000_0000_0000,
                        0 < k < 0x1_0000_0000_0000_0001,
                ;
                lemma_mul_mod_noop_left(x * pow2(done), k as int, d);
                lemma_pow2_adds(done, step as nat);
                assert((x * pow2(done)) * k == x * pow2(done + step as nat)) by (nonlinear_arith)
                    requires
                        pow2(done + step as nat) == pow2(done) * k,
                ;
                lemma_mod_bound(r * k, d);
            }
            r = (((r as u128) * k) % (divisor as u128)) as u64;
            left = left - step;
        }
        r
    }

    /// The remainder of a division by a value whose quotient is cut off
    /// towards zero, and lifted by the size of the divisor where it is below
    /// zero, so that it is never below zero.
    pub fn rem_euclid(self, rhs: Binary64) -> (r: Binary64)
        ensures
            r.bits == euclid_remainder(self.bits, rhs.bits),
    {
        let r: Binary64 = self % rhs;
        proof {
            ieee::lemma_abs_units_zero(0);
        }
        if r < Binary64::from_bits(0) {
            r + rhs.abs()
        } else {
            r
        }
    }
}

impl core::ops::Rem for Binary64 {
    type Output = Binary64;

    /// What is left of the value when `rhs` is taken away from its size a
    /// whole number of times. It has the sign of the value, and it is exact.
    fn rem(self, rhs: Binary64) -> (r: Binary64) {
        proof {
            ieee::lemma_fields(self.bits);
            ieee::lemma_fields(rhs.bits);
        }
        if self.is_nan() || rhs.is_nan() || self.is_infinite() || rhs.abs().to_bits() == 0 {
            Binary64::from_bits(QUIET_NAN_BITS)
        } else if rhs.is_infinite() {
            self
        } else {
            let (sa, ea) = self.parts();
            let (sb, eb) = rhs.parts();
            let ghost ua = abs_units(self.bits) as int;
            let ghost ub = abs_units(rhs.bits) as int;
            proof {
                lemma_powers();
                lemma_pow2_pos(ea as nat);
                lemma_pow2_pos(eb as nat);
                ieee::lemma_abs_units_zero(rhs.bits);
            }
            if ea < eb {
                proof {
                    // the divisor is the larger: nothing is taken away
                    lemma_pow2_adds(1, ea as nat);
                    if ea + 1 < eb {
                        lemma_pow2_strictly_increases((ea + 1) as nat, eb as nat);
                    }
                    assert(ua < ub) by (nonlinear_arith)
                        requires
                            ua == sa * pow2(ea as nat),
                            ub == sb * pow2(eb as nat),
                            0 <= sa < 2 * HIDDEN_BIT,
                            sb >= HIDDEN_BIT,
                            pow2(eb as nat) >= 2 * pow2(ea as nat),
                            pow2(ea as nat) > 0,
                    ;
                    lemma_small_mod(ua as nat, ub as nat);
                    lemma_exact_rounds_to_itself(ieee::magnitude(self.bits));
                }
                Binary64::from_parts(self.is_sign_negative(), self.abs().to_bits())
            } else {
                let first: u64 = sa % sb;
                let x: u64 = Binary64::shifted_remainder(first, ea - eb, sb);
                proof {
                    let gap = (ea - eb) as nat;
                    let pg = pow2(gap) as int;
                    let pe = pow2(eb as nat) as int;
                    lemma_pow2_pos(gap);
                    lemma_mul_mod_noop_left(sa as int, pg, sb as int);
                    assert(x == (sa * pg) % (sb as int));
                    lemma_pow2_adds(gap, eb as nat);
                    lemma_truncate_middle(sa * pg, pe, sb as int);
                    assert(pe * (sa * pg) == ua) by (nonlinear_arith)
                        requires
                            ua == sa * pow2(ea as nat),
                            pow2(ea as nat) == pg * pe,
                    ;
                    assert(pe * sb == ub) by (nonlinear_arith)
                        requires
                            ub == sb * pe,
                    ;
                    assert(ua % ub == x * pe) by (nonlinear_arith)
                        requires
                            ua % ub == pe * (x as int),
                    ;
                    lemma_pow2_adds(eb as nat, 6000);
                    assert((x * pe) * pow2(6000) == 1 * (x * pow2((eb + 6000) as nat)))
                        by (nonlinear_arith)
                        requires
                            pow2((eb + 6000) as nat) == pe * pow2(6000),
                    ;
                }
                let m: u64 = round_pack(x as u128, eb, Ghost(ua % ub), Ghost(1));
                proof {
                    lemma_round_to_nearest(m, ua % ub, 1);
                }
                Binary64::from_parts(self.is_sign_negative(), m)
            }
        }
    }
}

impl RemSpecImpl for Binary64 {
    open spec fn obeys_rem_spec() -> bool {
        true
    }

    open spec fn rem_req(self, rhs: Binary64) -> bool {
        true
    }

    open spec fn rem_spec(self, rhs: Binary64) -> Binary64 {
        Binary64 { bits: remainder(self.bits, rhs.bits) }
    }
}

} // verus!
