//! Rounding a binary64 value to a whole number, and the part that is left.
//!
//! One is 2^1074 units, so a finite value is whole exactly when its size in
//! units is a multiple of 2^1074. Every such multiple within the range of the
//! format is itself a value of the format, which is why these operations are
//! exact.
use vstd::prelude::*;
use vstd::arithmetic::div_mod::lemma_basic_div;
use vstd::arithmetic::div_mod::lemma_fundamental_div_mod;
use vstd::arithmetic::div_mod::lemma_fundamental_div_mod_converse;
use vstd::arithmetic::div_mod::lemma_mod_bound;
use vstd::arithmetic::div_mod::lemma_mod_multiples_vanish;
use vstd::arithmetic::power2::lemma2_to64_rest;
use vstd::arithmetic::power2::lemma_pow2_adds;
use vstd::arithmetic::power2::lemma_pow2_pos;
use vstd::arithmetic::power2::lemma_pow2_strictly_increases;
use vstd::arithmetic::power2::lemma_pow2_unfold;
use vstd::arithmetic::power2::pow2;
use vstd::bits::lemma_u64_shl_is_mul;
use crate::binary64::Binary64;
use crate::ieee;
use crate::ieee::abs_units;
use crate::ieee::exponent_field;
use crate::ieee::fraction_field;
use crate::ieee::HIDDEN_BIT;
use crate::ieee::INFINITY_BITS;
use crate::ieee::is_finite;
use crate::ieee::magnitude;
use crate::ieee::ONE_BITS;
use crate::ieee::QUIET_NAN_BITS;
use crate::ieee::scale;
use crate::ieee::sign_negative;
use crate::ieee::significand;
use crate::ieee::units;

verus! {

/// The pattern of `0.5`.
pub const HALF_BITS: u64 = 0x3FE0_0000_0000_0000;

/// The pattern of 2^52, from which on every finite value is whole.
pub const WHOLE_FROM: u64 = 0x4330_0000_0000_0000;

/// One, in units.
pub open spec fn one() -> int {
    pow2(1074) as int
}

/// The greatest whole number that is not above `u`, both in units.
pub open spec fn floor_units(u: int) -> int {
    (u / one()) * one()
}

/// The least whole number that is not below `u`, both in units.
pub open spec fn ceil_units(u: int) -> int {
    -floor_units(-u)
}

/// The whole number nearest to `u` that is not larger in size, both in units.
pub open spec fn trunc_units(u: int) -> int {
    if u >= 0 {
        floor_units(u)
    } else {
        ceil_units(u)
    }
}

/// The whole number nearest to `u`, both in units; of two that are equally
/// near, the one that is larger in size.
pub open spec fn round_units(u: int) -> int {
    if u >= 0 {
        floor_units(u + pow2(1073))
    } else {
        ceil_units(u - pow2(1073))
    }
}

/// `result` is what rounding `bits` to the whole number `target` gives: the
/// finite pattern of `target` units with the sign bit of `bits`. A pattern
/// that is infinite or NaN stays as it is.
pub open spec fn rounded_to(bits: u64, target: int, result: u64) -> bool {
    if is_finite(bits) {
        is_finite(result) && units(result) == target && sign_negative(result) == sign_negative(
            bits,
        )
    } else {
        result == bits
    }
}

/// `result` is the fractional part of `bits`: what is left of a finite value
/// when its whole part towards zero is taken away, with a clear sign bit
/// where nothing is left; and the quiet NaN for a pattern that is infinite or
/// NaN.
pub open spec fn fraction_of(bits: u64, result: u64) -> bool {
    if is_finite(bits) {
        let left = units(bits) - trunc_units(units(bits));
        is_finite(result) && units(result) == left && sign_negative(result) == (left < 0)
    } else {
        result == QUIET_NAN_BITS
    }
}

/// Rounding to a whole number has one result, and so has taking the
/// fractional part.
pub proof fn law_one_result(bits: u64, target: int, first: u64, second: u64)
    ensures
        rounded_to(bits, target, first) && rounded_to(bits, target, second) ==> first == second,
        fraction_of(bits, first) && fraction_of(bits, second) ==> first == second,
{
    if is_finite(bits) && is_finite(first) && is_finite(second) && units(first) == units(second)
        && sign_negative(first) == sign_negative(second) {
        ieee::lemma_pattern_unique(first, second);
    }
}

/// How a size in units lies between the whole numbers next to it.
pub proof fn lemma_floor_units(a: int)
    ensures
        floor_units(a) <= a < floor_units(a) + one(),
        floor_units(a) == a ==> floor_units(-a) == -a,
        floor_units(a) != a ==> floor_units(-a) == -(floor_units(a) + one()),
{
    let p = one();
    lemma_pow2_pos(1074);
    lemma_fundamental_div_mod(a, p);
    lemma_mod_bound(a, p);
    let q = a / p;
    let r = a % p;
    assert(p * q == q * p) by (nonlinear_arith);
    if r == 0 {
        assert(-a == (-q) * p + 0) by (nonlinear_arith)
            requires
                a == q * p,
        ;
        lemma_fundamental_div_mod_converse(-a, p, -q, 0);
        assert((-q) * p == -(q * p)) by (nonlinear_arith);
    } else {
        assert(-a == (-q - 1) * p + (p - r)) by (nonlinear_arith)
            requires
                a == q * p + r,
        ;
        lemma_fundamental_div_mod_converse(-a, p, -q - 1, p - r);
        assert((-q - 1) * p == -(q * p + p)) by (nonlinear_arith);
    }
}

/// A whole number of units is its own floor.
pub proof fn lemma_floor_of_whole(n: int)
    ensures
        floor_units(n * one()) == n * one(),
{
    lemma_pow2_pos(1074);
    lemma_fundamental_div_mod_converse(n * one(), one(), n, 0);
}

/// Adding a whole number of units moves the floor by as much.
pub proof fn lemma_floor_shift(whole: int, rest: int)
    requires
        floor_units(whole) == whole,
    ensures
        floor_units(whole + rest) == whole + floor_units(rest),
{
    let p = one();
    lemma_pow2_pos(1074);
    lemma_fundamental_div_mod(whole, p);
    lemma_fundamental_div_mod(rest, p);
    lemma_mod_bound(rest, p);
    let n = whole / p;
    let q = rest / p;
    let r = rest % p;
    assert(whole == n * p);
    assert(whole + rest == (n + q) * p + r) by (nonlinear_arith)
        requires
            whole == n * p,
            rest == p * q + r,
    ;
    lemma_fundamental_div_mod_converse(whole + rest, p, n + q, r);
    assert((n + q) * p == n * p + q * p) by (nonlinear_arith);
}

/// Rounding a size that is not below zero to a whole number gives none that
/// is below zero.
pub proof fn lemma_whole_of_non_negative(u: int)
    requires
        u >= 0,
    ensures
        0 <= floor_units(u) <= u,
        u <= ceil_units(u),
        0 <= trunc_units(u) <= u,
        0 <= round_units(u),
        0 <= u - trunc_units(u) < one(),
{
    lemma_pow2_pos(1074);
    lemma_floor_units(u);
    lemma_floor_units(-u);
    lemma_floor_units(u + pow2(1073));
    lemma_fundamental_div_mod(u, one());
    lemma_mod_bound(u, one());
    vstd::arithmetic::div_mod::lemma_div_pos_is_pos(u, one());
    vstd::arithmetic::div_mod::lemma_div_pos_is_pos(u + pow2(1073), one());
    vstd::arithmetic::mul::lemma_mul_nonnegative(u / one(), one());
    vstd::arithmetic::mul::lemma_mul_nonnegative((u + pow2(1073)) / one(), one());
}

/// The sizes of `0.5` and `1.0`.
proof fn lemma_half_and_one()
    ensures
        is_finite(HALF_BITS),
        is_finite(ONE_BITS),
        abs_units(HALF_BITS) == pow2(1073),
        abs_units(ONE_BITS) == pow2(1074),
        2 * pow2(1073) == pow2(1074),
{
    lemma2_to64_rest();
    assert(exponent_field(HALF_BITS) == 1022);
    assert(fraction_field(HALF_BITS) == 0);
    assert(exponent_field(ONE_BITS) == 1023);
    assert(fraction_field(ONE_BITS) == 0);
    lemma_pow2_adds(52, 1021);
    lemma_pow2_adds(52, 1022);
    lemma_pow2_unfold(1074);
}

/// Below one, the whole numbers next to a size are zero and one.
proof fn lemma_below_one(m: u64)
    requires
        m < ONE_BITS,
    ensures
        floor_units(abs_units(m) as int) == 0,
        abs_units(0) == 0,
        abs_units(ONE_BITS) == one(),
        is_finite(m),
        m == 0 <==> abs_units(m) == 0,
        m >= HALF_BITS <==> 2 * abs_units(m) >= one(),
{
    lemma_half_and_one();
    ieee::lemma_fields(m);
    ieee::lemma_abs_units_zero(m);
    ieee::lemma_abs_units_zero(0);
    ieee::lemma_abs_units_increasing(m, ONE_BITS);
    lemma_basic_div(abs_units(m) as int, one());
    if m < HALF_BITS {
        ieee::lemma_abs_units_increasing(m, HALF_BITS);
    } else if m > HALF_BITS {
        ieee::lemma_abs_units_increasing(HALF_BITS, m);
    }
}

/// From 2^52 on, every finite size is whole.
proof fn lemma_from_whole(m: u64)
    requires
        WHOLE_FROM <= m < INFINITY_BITS,
    ensures
        floor_units(abs_units(m) as int) == abs_units(m),
{
    ieee::lemma_fields(m);
    let e = exponent_field(m);
    assert(e >= 1075);
    let rest = (e - 1075) as nat;
    lemma_pow2_adds(rest, 1074);
    let s = significand(m) as int;
    let pr = pow2(rest) as int;
    assert(s * (pr * one()) == (s * pr) * one()) by (nonlinear_arith);
    lemma_floor_of_whole(s * pr);
}

/// For a magnitude `m` from one up to 2^52, with `k` fraction bits below the
/// binary point: how the size splits at the binary point, and which patterns
/// hold the whole numbers next to it.
proof fn lemma_split(m: u64, k: nat, q: u64)
    requires
        ONE_BITS <= m < WHOLE_FROM,
        k == 1075 - exponent_field(m),
        q == pow2(k),
    ensures
        1 <= k <= 52,
        2 <= q <= HIDDEN_BIT,
        q % 2 == 0,
        m - m % q + q < INFINITY_BITS,
        is_finite((m - m % q) as u64),
        abs_units((m - m % q) as u64) == floor_units(abs_units(m) as int),
        abs_units((m - m % q + q) as u64) == floor_units(abs_units(m) as int) + one(),
        abs_units(m) - floor_units(abs_units(m) as int) == (m % q) * pow2(scale(m)),
        q * pow2(scale(m)) == one(),
        m % q == 0 <==> abs_units(m) == floor_units(abs_units(m) as int),
        m % q >= q / 2 <==> 2 * (abs_units(m) - floor_units(abs_units(m) as int)) >= one(),
{
    ieee::lemma_fields(m);
    lemma2_to64_rest();
    let h = HIDDEN_BIT as int;
    let e = exponent_field(m) as int;
    let f = fraction_field(m) as int;
    let s = significand(m) as int;
    let qi = q as int;
    let pe = pow2(scale(m)) as int;
    let rem = (m % q) as int;
    assert(1023 <= e <= 1074);
    assert(s == h + f);
    lemma_pow2_pos(k);
    lemma_pow2_pos(scale(m));
    // q divides 2^52
    let t = pow2((52 - k) as nat) as int;
    lemma_pow2_pos((52 - k) as nat);
    lemma_pow2_adds(k, (52 - k) as nat);
    assert(h == qi * t);
    assert(qi <= h) by (nonlinear_arith)
        requires
            h == qi * t,
            t >= 1,
            qi >= 1,
    ;
    lemma_pow2_unfold(k);
    let half_q = pow2((k - 1) as nat) as int;
    lemma_pow2_pos((k - 1) as nat);
    assert(qi == 2 * half_q);
    // q times the scale is one
    lemma_pow2_adds(k, scale(m));
    assert(qi * pe == one());
    // the remainder is that of the fraction and of the significand
    assert(m as int == qi * (e * t) + f) by (nonlinear_arith)
        requires
            m as int == e * h + f,
            h == qi * t,
    ;
    lemma_mod_multiples_vanish(e * t, f, qi);
    assert(rem == f % qi);
    assert(s == qi * t + f);
    lemma_mod_multiples_vanish(t, f, qi);
    assert(rem == s % qi);
    lemma_fundamental_div_mod(s, qi);
    lemma_fundamental_div_mod(f, qi);
    lemma_mod_bound(f, qi);
    let n = s / qi;
    let fq = f / qi;
    assert(0 <= rem < qi);
    assert(rem <= f) by (nonlinear_arith)
        requires
            f == qi * fq + rem,
            f >= 0,
            qi > 0,
            0 <= rem < qi,
    ;
    // the pattern below
    let below = (m - m % q) as u64;
    assert(below as int == e * h + (f - rem));
    lemma_fundamental_div_mod_converse(below as int, h, e, f - rem);
    assert(exponent_field(below) == e);
    assert(fraction_field(below) == f - rem);
    assert(significand(below) == s - rem);
    assert(abs_units(below) == (s - rem) * pe);
    assert((s - rem) * pe == n * one()) by (nonlinear_arith)
        requires
            s == qi * n + rem,
            qi * pe == one(),
    ;
    assert(abs_units(m) as int == n * one() + rem * pe) by (nonlinear_arith)
        requires
            abs_units(m) as int == s * pe,
            s == qi * n + rem,
            qi * pe == one(),
    ;
    assert(0 <= rem * pe < one()) by (nonlinear_arith)
        requires
            0 <= rem < qi,
            pe > 0,
            qi * pe == one(),
    ;
    lemma_fundamental_div_mod_converse(abs_units(m) as int, one(), n, rem * pe);
    assert(floor_units(abs_units(m) as int) == n * one());
    assert(rem == 0 <==> rem * pe == 0) by (nonlinear_arith)
        requires
            pe > 0,
            rem >= 0,
    ;
    assert(rem >= half_q <==> 2 * (rem * pe) >= one()) by (nonlinear_arith)
        requires
            pe > 0,
            qi == 2 * half_q,
            qi * pe == one(),
    ;
    assert(qi / 2 == half_q);
    // the pattern above
    let above = (m - m % q + q) as u64;
    assert(f - rem == qi * fq);
    assert(fq < t) by (nonlinear_arith)
        requires
            qi * fq < qi * t,
            qi > 0,
    ;
    assert(f - rem + qi <= h) by (nonlinear_arith)
        requires
            f - rem == qi * fq,
            h == qi * t,
            fq + 1 <= t,
            qi > 0,
    ;
    if f - rem + qi < h {
        assert(above as int == e * h + (f - rem + qi));
        lemma_fundamental_div_mod_converse(above as int, h, e, f - rem + qi);
        assert(exponent_field(above) == e);
        assert(fraction_field(above) == f - rem + qi);
        assert(abs_units(above) == (s - rem + qi) * pe);
        assert((s - rem + qi) * pe == (s - rem) * pe + qi * pe) by (nonlinear_arith);
    } else {
        assert(above as int == (e + 1) * h + 0);
        lemma_fundamental_div_mod_converse(above as int, h, e + 1, 0);
        assert(exponent_field(above) == e + 1);
        assert(fraction_field(above) == 0);
        assert(scale(above) == scale(m) + 1);
        lemma_pow2_unfold(scale(above));
        assert(abs_units(above) == h * (2 * pe));
        assert(s - rem + qi == 2 * h);
        assert(h * (2 * pe) == (s - rem) * pe + qi * pe) by (nonlinear_arith)
            requires
                s - rem + qi == 2 * h,
        ;
    }
}

/// The whole numbers next to a finite magnitude, and where it lies between
/// them.
struct Neighbours {
    /// The magnitude of the nearest whole number that is not larger.
    below: u64,
    /// The magnitude of the whole number after `below`.
    above: u64,
    /// Whether the magnitude is whole itself, and so equal to `below`.
    exact: bool,
    /// Whether the magnitude lies halfway between the two or nearer to `above`.
    half_or_more: bool,
}

/// What rounding a size in units gives, from what lies next to it.
proof fn lemma_rounding(a: int)
    requires
        a >= 0,
    ensures
        floor_units(floor_units(a)) == floor_units(a),
        trunc_units(a) == floor_units(a),
        trunc_units(-a) == -floor_units(a),
        ceil_units(-a) == -floor_units(a),
        ceil_units(a) == if floor_units(a) == a {
            a
        } else {
            floor_units(a) + one()
        },
        round_units(a) == if 2 * (a - floor_units(a)) >= one() {
            floor_units(a) + one()
        } else {
            floor_units(a)
        },
        round_units(-a) == -round_units(a),
{
    let p = one();
    let f = floor_units(a);
    let d = a - f;
    let h = pow2(1073) as int;
    lemma_pow2_pos(1074);
    lemma_pow2_unfold(1074);
    assert(p == 2 * h);
    lemma_floor_units(a);
    lemma_floor_units(-a);
    lemma_floor_of_whole(a / p);
    lemma_floor_shift(f, d + h);
    if 2 * d >= p {
        lemma_fundamental_div_mod_converse(d + h, p, 1, d + h - p);
    } else {
        lemma_basic_div(d + h, p);
    }
    assert(f + (d + h) == a + h);
    if a == 0 {
        lemma_basic_div(h, p);
        lemma_basic_div(0, p);
    }
}

impl Binary64 {
    /// The magnitudes of the whole numbers next to a finite magnitude.
    fn neighbours(m: u64) -> (r: Neighbours)
        requires
            m < INFINITY_BITS,
        ensures
            r.below < INFINITY_BITS,
            abs_units(r.below) == floor_units(abs_units(m) as int),
            !r.exact ==> r.above < INFINITY_BITS && abs_units(r.above) == floor_units(
                abs_units(m) as int,
            ) + one(),
            r.exact <==> abs_units(m) == floor_units(abs_units(m) as int),
            r.half_or_more <==> 2 * (abs_units(m) - floor_units(abs_units(m) as int)) >= one(),
    {
        if m >= WHOLE_FROM {
            proof {
                lemma_from_whole(m);
                lemma_pow2_pos(1074);
            }
            Neighbours { below: m, above: m, exact: true, half_or_more: false }
        } else if m < ONE_BITS {
            proof {
                lemma_below_one(m);
            }
            Neighbours { below: 0, above: ONE_BITS, exact: m == 0, half_or_more: m >= HALF_BITS }
        } else {
            let e: u64 = m / HIDDEN_BIT;
            let k: u64 = 1075 - e;
            proof {
                ieee::lemma_fields(m);
                lemma2_to64_rest();
                lemma_pow2_strictly_increases(k as nat, 53);
                lemma_u64_shl_is_mul(1, k);
            }
            let q: u64 = 1u64 << k;
            proof {
                lemma_split(m, k as nat, q);
            }
            let rem: u64 = m % q;
            let below: u64 = m - rem;
            Neighbours { below, above: below + q, exact: rem == 0, half_or_more: rem >= q / 2 }
        }
    }

    /// The value with the given magnitude and the sign bit of `self`.
    fn with_magnitude(self, m: u64) -> (r: Binary64)
        requires
            m < INFINITY_BITS,
        ensures
            is_finite(r.bits),
            magnitude(r.bits) == m,
            abs_units(r.bits) == abs_units(m),
            sign_negative(r.bits) == sign_negative(self.bits),
    {
        proof {
            ieee::lemma_fields(m);
        }
        Binary64::from_bits(m).copysign(self)
    }

    /// The largest whole number that is not above the value. The sign bit is
    /// kept, so the floor of `-0.0` is `-0.0`; infinities and NaNs stay as
    /// they are.
    pub fn floor(self) -> (r: Binary64)
        ensures
            rounded_to(self.bits, floor_units(units(self.bits)), r.bits),
    {
        if !self.is_finite() {
            return self;
        }
        let n: Neighbours = Self::neighbours(self.abs().to_bits());
        proof {
            lemma_rounding(abs_units(self.bits) as int);
            lemma_floor_units(abs_units(self.bits) as int);
        }
        if self.is_sign_negative() && !n.exact {
            self.with_magnitude(n.above)
        } else {
            self.with_magnitude(n.below)
        }
    }

    /// The smallest whole number that is not below the value. The sign bit is
    /// kept, so the ceiling of `-0.5` is `-0.0`; infinities and NaNs stay as
    /// they are.
    pub fn ceil(self) -> (r: Binary64)
        ensures
            rounded_to(self.bits, ceil_units(units(self.bits)), r.bits),
    {
        if !self.is_finite() {
            return self;
        }
        let n: Neighbours = Self::neighbours(self.abs().to_bits());
        proof {
            lemma_rounding(abs_units(self.bits) as int);
        }
        if !self.is_sign_negative() && !n.exact {
            self.with_magnitude(n.above)
        } else {
            self.with_magnitude(n.below)
        }
    }

    /// The nearest whole number, and of two that are equally near the one
    /// away from zero. The sign bit is kept; infinities and NaNs stay as they
    /// are.
    pub fn round(self) -> (r: Binary64)
        ensures
            rounded_to(self.bits, round_units(units(self.bits)), r.bits),
    {
        if !self.is_finite() {
            return self;
        }
        let n: Neighbours = Self::neighbours(self.abs().to_bits());
        proof {
            lemma_rounding(abs_units(self.bits) as int);
            lemma_pow2_pos(1074);
        }
        if n.half_or_more {
            self.with_magnitude(n.above)
        } else {
            self.with_magnitude(n.below)
        }
    }

    /// The whole part of the value: the nearest whole number that is not
    /// larger in size. The sign bit is kept; infinities and NaNs stay as they
    /// are.
    pub fn trunc(self) -> (r: Binary64)
        ensures
            rounded_to(self.bits, trunc_units(units(self.bits)), r.bits),
    {
        if !self.is_finite() {
            return self;
        }
        let n: Neighbours = Self::neighbours(self.abs().to_bits());
        proof {
            lemma_rounding(abs_units(self.bits) as int);
        }
        self.with_magnitude(n.below)
    }

    /// The fractional part of the value: the value less its whole part. It
    /// has the sign of the value, and is `+0.0` where the value is whole. For
    /// an infinity or a NaN it is NaN.
    pub fn fract(self) -> (r: Binary64)
        ensures
            fraction_of(self.bits, r.bits),
    {
        if !self.is_finite() {
            return Binary64::from_bits(QUIET_NAN_BITS);
        }
        let m: u64 = self.abs().to_bits();
        proof {
            lemma_rounding(abs_units(m) as int);
            lemma_floor_units(abs_units(m) as int);
            ieee::lemma_abs_units_zero(0);
            ieee::lemma_fields(m);
        }
        if m >= WHOLE_FROM {
            proof {
                lemma_from_whole(m);
            }
            Binary64::from_bits(0)
        } else if m < ONE_BITS {
            proof {
                lemma_below_one(m);
            }
            if m == 0 {
                Binary64::from_bits(0)
            } else {
                self
            }
        } else {
            let e: u64 = m / HIDDEN_BIT;
            let k: u64 = 1075 - e;
            proof {
                lemma2_to64_rest();
                lemma_pow2_strictly_increases(k as nat, 53);
                lemma_u64_shl_is_mul(1, k);
            }
            let q: u64 = 1u64 << k;
            proof {
                lemma_split(m, k as nat, q);
            }
            let rem: u64 = m % q;
            if rem == 0 {
                Binary64::from_bits(0)
            } else {
                self.with_magnitude(Self::normalised(rem, e))
            }
        }
    }

    /// The magnitude that is `rem` units at the scale of the exponent field
    /// `e` in size: `rem` shifted up until its leading bit is the hidden bit,
    /// with the exponent field lowered as often.
    fn normalised(rem: u64, e: u64) -> (r: u64)
        requires
            1023 <= e <= 1074,
            0 < rem < HIDDEN_BIT,
        ensures
            0 < r < INFINITY_BITS,
            abs_units(r) == rem * pow2((e - 1) as nat),
    {
        let mut sig: u64 = rem;
        let mut exp: u64 = e;
        proof {
            lemma2_to64_rest();
            vstd::arithmetic::power2::lemma2_to64();
        }
        while sig < HIDDEN_BIT
            invariant
                0 < sig < 2 * HIDDEN_BIT,
                1023 <= e <= 1074,
                1 <= exp <= e,
                0 < rem,
                e - exp <= 52,
                sig >= pow2((e - exp) as nat),
                sig * pow2((exp - 1) as nat) == rem * pow2((e - 1) as nat),
            decreases exp,
        {
            proof {
                lemma2_to64_rest();
                if e - exp > 52 {
                    lemma_pow2_strictly_increases(52, (e - exp) as nat);
                }
                assert(e - exp < 52);
                lemma_pow2_unfold((e - exp + 1) as nat);
                lemma_pow2_unfold((exp - 1) as nat);
                assert((2 * sig) * pow2((exp - 2) as nat) == sig * (2 * pow2((exp - 2) as nat)))
                    by (nonlinear_arith);
            }
            sig = sig * 2;
            exp = exp - 1;
        }
        let r: u64 = exp * HIDDEN_BIT + (sig - HIDDEN_BIT);
        proof {
            lemma_fundamental_div_mod_converse(
                r as int,
                HIDDEN_BIT as int,
                exp as int,
                (sig - HIDDEN_BIT) as int,
            );
            ieee::lemma_fields(r);
        }
        r
    }
}

} // verus!
