//! The rounded sum of two values with wide significands. Each value is a
//! significand of up to 106 bits times a power of two, which is what a value
//! of the format is, and what the exact product of two such values is.
//!
//! The values are counted in parts, of which 2^1074 make a unit, so that the
//! exact product of two values of the format is a whole number of them.
use vstd::prelude::*;
use vstd::arithmetic::div_mod::lemma_fundamental_div_mod;
use vstd::arithmetic::div_mod::lemma_mod_bound;
use vstd::arithmetic::power2::lemma_pow2_adds;
use vstd::arithmetic::power2::lemma_pow2_pos;
use vstd::arithmetic::power2::lemma_pow2_strictly_increases;
use vstd::arithmetic::power2::lemma_pow2_unfold;
use vstd::arithmetic::power2::pow2;
use crate::binary64::Binary64;
use crate::ieee::SIGN_BIT;
use crate::ieee::with_sign;
use crate::integral::one;
use crate::rounding::approximates;
use crate::rounding::bit_length;
use crate::rounding::INEXACT_FROM;
use crate::rounding::lemma_powers;
use crate::rounding::lemma_round_to_nearest;
use crate::rounding::lemma_scaled_order;
use crate::rounding::power_of_two;
use crate::rounding::round_pack;
use crate::rounding::round_to_nearest;

verus! {

/// 2^106, above every product of two significands.
pub const PRODUCT_LIMIT: u128 = 0x400_0000_0000_0000_0000_0000_0000;

/// The value of a significand times a power of two, with a sign.
pub open spec fn signed_units(sig: int, e: nat, negative: bool) -> int {
    if negative {
        -(sig * pow2(e))
    } else {
        sig * pow2(e)
    }
}

/// The pattern of the sum of two values that are given, each with its sign
/// bit, as a count of the parts of which 2^1074 make a unit.
pub open spec fn rounded_sum_of_parts(x: int, x_negative: bool, y: int, y_negative: bool) -> u64 {
    let s = x + y;
    if s == 0 {
        if x_negative && y_negative {
            SIGN_BIT
        } else {
            0
        }
    } else if s > 0 {
        round_to_nearest(s, one())
    } else {
        with_sign(round_to_nearest(-s, one()), true)
    }
}

/// An exact size in parts is given by a significand and an exponent.
proof fn lemma_parts_exact(size: int, p: int, e: int)
    requires
        -1074 <= e,
        size == p * pow2((e + 1074) as nat),
    ensures
        approximates(p, e, size, one()),
{
    let b = pow2(6000) as int;
    let w = pow2((e + 6000) as nat) as int;
    let v = pow2((e + 1074) as nat) as int;
    lemma_pow2_adds((e + 1074) as nat, 6000);
    lemma_pow2_adds(1074, (e + 6000) as nat);
    assert(v * b == one() * w);
    assert(size * b == one() * (p * w)) by (nonlinear_arith)
        requires
            size == p * v,
            v * b == one() * w,
    ;
}

/// An exact size in parts that lies strictly between two neighbours of an
/// odd significand is given by the significand and an exponent.
proof fn lemma_parts_inexact(size: int, p: int, e: int)
    requires
        -1074 <= e,
        p % 2 == 1,
        p >= INEXACT_FROM,
        (p - 1) * pow2((e + 1074) as nat) < size < (p + 1) * pow2((e + 1074) as nat),
    ensures
        approximates(p, e, size, one()),
{
    let b = pow2(6000) as int;
    let w = pow2((e + 6000) as nat) as int;
    let v = pow2((e + 1074) as nat) as int;
    lemma_pow2_pos(6000);
    lemma_pow2_adds((e + 1074) as nat, 6000);
    lemma_pow2_adds(1074, (e + 6000) as nat);
    assert(v * b == one() * w);
    lemma_scaled_order((p - 1) * v, size, b);
    lemma_scaled_order(size, (p + 1) * v, b);
    assert(((p - 1) * v) * b == one() * ((p - 1) * w)) by (nonlinear_arith)
        requires
            v * b == one() * w,
    ;
    assert(((p + 1) * v) * b == one() * ((p + 1) * w)) by (nonlinear_arith)
        requires
            v * b == one() * w,
    ;
}

/// A significand that is not zero gives a size that is not zero.
proof fn lemma_parts_zero(size: int, p: int, e: int)
    requires
        -1075 <= e,
        approximates(p, e, size, one()),
        p > 0,
    ensures
        size > 0,
{
    let b = pow2(6000) as int;
    let w = pow2((e + 6000) as nat) as int;
    lemma_pow2_pos(6000);
    lemma_pow2_pos((e + 6000) as nat);
    lemma_pow2_pos(1074);
    assert(p * w > 0) by (nonlinear_arith)
        requires
            p > 0,
            w > 0,
    ;
    assert(one() * (p * w) > 0) by (nonlinear_arith)
        requires
            p * w > 0,
            one() > 0,
    ;
    if p >= 1 {
        assert((p - 1) * w >= 0) by (nonlinear_arith)
            requires
                p >= 1,
                w > 0,
        ;
        assert(one() * ((p - 1) * w) >= 0) by (nonlinear_arith)
            requires
                (p - 1) * w >= 0,
                one() > 0,
        ;
    }
    if size <= 0 {
        assert(size * b <= 0) by (nonlinear_arith)
            requires
                size <= 0,
                b > 0,
        ;
    }
}

impl Binary64 {
    /// The rounded sum of two values, each given by a significand, an
    /// exponent and a sign, of which the first has the exponent that is not
    /// smaller. The exponents count from 2^-1074 parts of a unit.
    pub(crate) fn add_wide(
        high_sig: u128,
        high_e: i64,
        high_negative: bool,
        low_sig: u128,
        low_e: i64,
        low_negative: bool,
    ) -> (r: Binary64)
        requires
            -1074 <= low_e <= high_e <= 3100,
            high_sig < PRODUCT_LIMIT,
            low_sig < PRODUCT_LIMIT,
        ensures
            r.bits == rounded_sum_of_parts(
                signed_units(high_sig as int, (high_e + 1074) as nat, high_negative),
                high_negative,
                signed_units(low_sig as int, (low_e + 1074) as nat, low_negative),
                low_negative,
            ),
    {
        let gap: i64 = high_e - low_e;
        let ghost ph = pow2((high_e + 1074) as nat) as int;
        let ghost pl = pow2((low_e + 1074) as nat) as int;
        let ghost x = signed_units(high_sig as int, (high_e + 1074) as nat, high_negative);
        let ghost y = signed_units(low_sig as int, (low_e + 1074) as nat, low_negative);
        let ghost size = if x + y >= 0 {
            x + y
        } else {
            -(x + y)
        };
        let ghost xs = high_sig * ph;
        let ghost ys = low_sig * pl;
        proof {
            lemma_powers();
            lemma_pow2_pos((high_e + 1074) as nat);
            lemma_pow2_pos((low_e + 1074) as nat);
            lemma_pow2_pos(1074);
            lemma_pow2_adds(64, 42);
            assert(pow2(106) == PRODUCT_LIMIT) by {
                vstd::arithmetic::power2::lemma2_to64();
                vstd::arithmetic::power2::lemma2_to64_rest();
            }
            assert(xs >= 0 && (xs == 0 <==> high_sig == 0)) by (nonlinear_arith)
                requires
                    xs == high_sig * ph,
                    ph > 0,
                    high_sig >= 0,
            ;
            assert(ys >= 0 && (ys == 0 <==> low_sig == 0)) by (nonlinear_arith)
                requires
                    ys == low_sig * pl,
                    pl > 0,
                    low_sig >= 0,
            ;
        }
        let p: u128;
        let e: i64;
        let negative: bool;
        if low_sig == 0 {
            p = high_sig;
            e = high_e;
            negative = high_negative;
            proof {
                lemma_parts_exact(size, p as int, e as int);
            }
        } else if high_sig == 0 {
            p = low_sig;
            e = low_e;
            negative = low_negative;
            proof {
                lemma_parts_exact(size, p as int, e as int);
            }
        } else {
            let len: i64 = bit_length(high_sig) as i64;
            proof {
                if len > 106 {
                    lemma_pow2_strictly_increases(106, (len - 1) as nat);
                }
                assert(1 <= len <= 106);
            }
            if len + gap <= 126 {
                // both fit side by side: the sum is exact
                let k: u128 = power_of_two(gap as u32);
                proof {
                    lemma_pow2_adds(len as nat, gap as nat);
                    if len + gap < 126 {
                        lemma_pow2_strictly_increases((len + gap) as nat, 126);
                    }
                    lemma_pow2_adds(63, 63);
                    vstd::arithmetic::power2::lemma2_to64_rest();
                    assert(high_sig * k < pow2(len as nat) * k) by (nonlinear_arith)
                        requires
                            high_sig < pow2(len as nat),
                            k > 0,
                    ;
                    lemma_pow2_adds(gap as nat, (low_e + 1074) as nat);
                    assert(xs == (high_sig * k) * pl) by (nonlinear_arith)
                        requires
                            xs == high_sig * ph,
                            ph == k * pl,
                    ;
                }
                let shifted: u128 = high_sig * k;
                e = low_e;
                if high_negative == low_negative {
                    p = shifted + low_sig;
                    negative = high_negative;
                    proof {
                        assert((shifted + low_sig) * pl == shifted * pl + low_sig * pl)
                            by (nonlinear_arith);
                    }
                } else if shifted >= low_sig {
                    p = shifted - low_sig;
                    negative = high_negative;
                    proof {
                        assert((shifted - low_sig) * pl == shifted * pl - low_sig * pl)
                            by (nonlinear_arith);
                    }
                } else {
                    p = low_sig - shifted;
                    negative = low_negative;
                    proof {
                        assert((low_sig - shifted) * pl == low_sig * pl - shifted * pl)
                            by (nonlinear_arith);
                    }
                }
                proof {
                    assert(size == p * pl);
                    lemma_parts_exact(size, p as int, e as int);
                }
            } else {
                // the first value is far larger: it is given 110 bits, and the
                // second counts in full as far as it reaches into them
                let k2: i64 = 110 - len;
                let k: u128 = power_of_two(k2 as u32);
                proof {
                    lemma_pow2_adds(len as nat, k2 as nat);
                    lemma_pow2_adds((len - 1) as nat, k2 as nat);
                    lemma_pow2_adds(64, 46);
                    lemma_pow2_adds(64, 45);
                    vstd::arithmetic::power2::lemma2_to64();
                    vstd::arithmetic::power2::lemma2_to64_rest();
                    assert(high_sig * k < pow2(len as nat) * k) by (nonlinear_arith)
                        requires
                            high_sig < pow2(len as nat),
                            k > 0,
                    ;
                    assert(high_sig * k >= pow2((len - 1) as nat) * k) by (nonlinear_arith)
                        requires
                            high_sig >= pow2((len - 1) as nat),
                            k > 0,
                    ;
                }
                let wide: u128 = high_sig * k;
                let shift: i64 = gap - k2;
                let ghost unit = pow2((high_e - k2 + 1074) as nat) as int;
                proof {
                    assert(shift >= 17);
                    lemma_pow2_pos((high_e - k2 + 1074) as nat);
                    lemma_pow2_adds(k2 as nat, (high_e - k2 + 1074) as nat);
                    assert(xs == wide * unit) by (nonlinear_arith)
                        requires
                            xs == high_sig * ph,
                            ph == k * unit,
                            wide == high_sig * k,
                    ;
                    lemma_pow2_adds(shift as nat, (low_e + 1074) as nat);
                    assert(unit == pow2(shift as nat) * pl);
                    lemma_pow2_pos(shift as nat);
                }
                let kept: u128;
                let sticky: bool;
                let ghost rest: int;
                if shift > 126 {
                    kept = 0;
                    sticky = true;
                    proof {
                        rest = ys;
                        lemma_pow2_strictly_increases(106, shift as nat);
                        assert(ys < unit) by (nonlinear_arith)
                            requires
                                ys == low_sig * pl,
                                unit == pow2(shift as nat) * pl,
                                low_sig < pow2(shift as nat),
                                pl > 0,
                        ;
                    }
                } else {
                    let cut: u128 = power_of_two(shift as u32);
                    kept = low_sig / cut;
                    sticky = low_sig % cut != 0;
                    proof {
                        lemma_fundamental_div_mod(low_sig as int, cut as int);
                        lemma_mod_bound(low_sig as int, cut as int);
                        rest = (low_sig % cut) * pl;
                        assert(ys == kept * unit + rest) by (nonlinear_arith)
                            requires
                                ys == low_sig * pl,
                                unit == cut * pl,
                                low_sig == cut * kept + low_sig % cut,
                                rest == (low_sig % cut) * pl,
                        ;
                        assert(0 <= rest < unit && (rest == 0 <==> low_sig % cut == 0))
                            by (nonlinear_arith)
                            requires
                                rest == (low_sig % cut) * pl,
                                unit == cut * pl,
                                0 <= low_sig % cut < cut,
                                pl > 0,
                        ;
                        // what is kept of the second value is below 2^89
                        lemma_pow2_adds(17, 89);
                        if shift > 17 {
                            lemma_pow2_strictly_increases(17, shift as nat);
                        }
                        assert(low_sig < cut * 0x200_0000_0000_0000_0000_0000)
                            by (nonlinear_arith)
                            requires
                                low_sig < 0x2_0000 * 0x200_0000_0000_0000_0000_0000,
                                cut >= 0x2_0000,
                        ;
                        crate::rounding::lemma_quotient_between(
                            low_sig as int,
                            cut as int,
                            0,
                            0x200_0000_0000_0000_0000_0000,
                        );
                    }
                }
                proof {
                    assert(ys == kept * unit + rest);
                    assert(0 <= rest < unit);
                    assert(sticky <==> rest != 0);
                }
                let whole: u128 = if high_negative == low_negative {
                    wide + kept
                } else {
                    wide - kept
                };
                negative = high_negative;
                proof {
                    assert((wide + kept) * unit == wide * unit + kept * unit) by (nonlinear_arith);
                    assert((wide - kept) * unit == wide * unit - kept * unit) by (nonlinear_arith);
                    assert(xs > ys) by (nonlinear_arith)
                        requires
                            xs == wide * unit,
                            ys == kept * unit + rest,
                            rest < unit,
                            wide >= kept + 1,
                            unit > 0,
                    ;
                }
                if !sticky {
                    p = whole;
                    e = high_e - k2;
                    proof {
                        assert(size == whole * unit);
                        lemma_parts_exact(size, p as int, e as int);
                    }
                } else {
                    e = high_e - k2 - 1;
                    if high_negative == low_negative {
                        p = 2 * whole + 1;
                    } else {
                        p = 2 * whole - 1;
                    }
                    proof {
                        let half = pow2((e + 1074) as nat) as int;
                        lemma_pow2_unfold((high_e - k2 + 1074) as nat);
                        assert(unit == 2 * half);
                        assert((p - 1) * half < size < (p + 1) * half) by (nonlinear_arith)
                            requires
                                unit == 2 * half,
                                0 < rest < unit,
                                high_negative == low_negative ==> size == whole * unit + rest && p
                                    == 2 * whole + 1,
                                high_negative != low_negative ==> size == whole * unit - rest && p
                                    == 2 * whole - 1,
                        ;
                        lemma_parts_inexact(size, p as int, e as int);
                    }
                }
            }
        }
        if p == 0 {
            Binary64::from_parts(high_negative && low_negative, 0)
        } else {
            proof {
                assert(size > 0 && (negative <==> x + y < 0)) by {
                    if size == 0 {
                        lemma_parts_zero(size, p as int, e as int);
                    }
                }
            }
            let m: u64 = round_pack(p, e, Ghost(size), Ghost(one()));
            proof {
                lemma_round_to_nearest(m, size, one());
            }
            Binary64::from_parts(negative, m)
        }
    }
}

} // verus!
