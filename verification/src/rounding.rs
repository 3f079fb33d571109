//! Rounding an exact size to the nearest value of the format, ties to the
//! value whose last bit is even.
//!
//! Magnitudes count the values of the format upwards from zero, so the two
//! values next to the one with magnitude `m` have the magnitudes `m - 1` and
//! `m + 1`. The pattern of infinity stands for 2^1024, the value that would
//! follow the largest finite one: an exact size rounds to infinity exactly
//! when it would round to that value.
use vstd::prelude::*;
use vstd::arithmetic::div_mod::lemma_fundamental_div_mod_converse;
use vstd::arithmetic::power2::lemma2_to64;
use vstd::arithmetic::power2::lemma2_to64_rest;
use vstd::arithmetic::power2::lemma_pow2_adds;
use vstd::arithmetic::power2::lemma_pow2_pos;
use vstd::arithmetic::power2::lemma_pow2_strictly_increases;
use vstd::arithmetic::power2::lemma_pow2_unfold;
use vstd::arithmetic::power2::pow2;
use crate::ieee;
use crate::ieee::abs_units;
use crate::ieee::exponent_field;
use crate::ieee::fraction_field;
use crate::ieee::HIDDEN_BIT;
use crate::ieee::INFINITY_BITS;
use crate::ieee::scale;
use crate::ieee::significand;

verus! {

/// Whether the magnitude `m` is what the exact size `num / den`, in units,
/// rounds to. The size lies between the middle of `m - 1` and `m` and the
/// middle of `m` and `m + 1`, and may lie on one of them only if `m` is even.
pub open spec fn nearest_even(m: u64, num: int, den: int) -> bool {
    &&& m <= INFINITY_BITS
    &&& m > 0 ==> {
        let low = den * (abs_units((m - 1) as u64) + abs_units(m));
        2 * num > low || (2 * num == low && m % 2 == 0)
    }
    &&& m < INFINITY_BITS ==> {
        let high = den * (abs_units(m) + abs_units((m + 1) as u64));
        2 * num < high || (2 * num == high && m % 2 == 0)
    }
}

/// The magnitude that the exact size `num / den`, in units, rounds to.
pub open spec fn round_to_nearest(num: int, den: int) -> u64 {
    choose|m: u64| nearest_even(m, num, den)
}

/// No exact size rounds to two magnitudes.
pub proof fn lemma_nearest_even_unique(m1: u64, m2: u64, num: int, den: int)
    requires
        den > 0,
        nearest_even(m1, num, den),
        nearest_even(m2, num, den),
    ensures
        m1 == m2,
{
    lemma_rounds_no_higher(m1, m2, num, den);
    lemma_rounds_no_higher(m2, m1, num, den);
}

/// A magnitude that an exact size rounds to is the one it rounds to.
pub proof fn lemma_round_to_nearest(m: u64, num: int, den: int)
    requires
        den > 0,
        nearest_even(m, num, den),
    ensures
        round_to_nearest(num, den) == m,
{
    lemma_nearest_even_unique(m, round_to_nearest(num, den), num, den);
}

/// Of two magnitudes that an exact size rounds to, the second is not the
/// larger.
proof fn lemma_rounds_no_higher(m1: u64, m2: u64, num: int, den: int)
    requires
        den > 0,
        nearest_even(m1, num, den),
        nearest_even(m2, num, den),
    ensures
        m2 <= m1,
{
    if m1 < m2 {
        let a0 = abs_units(m1) as int;
        let a1 = abs_units((m1 + 1) as u64) as int;
        let b0 = abs_units((m2 - 1) as u64) as int;
        let b1 = abs_units(m2) as int;
        ieee::lemma_fields(m1);
        ieee::lemma_fields(m2);
        ieee::lemma_fields((m1 + 1) as u64);
        ieee::lemma_fields((m2 - 1) as u64);
        if m1 + 1 < m2 {
            ieee::lemma_abs_units_increasing(m1, (m2 - 1) as u64);
            ieee::lemma_abs_units_increasing((m1 + 1) as u64, m2);
            assert(den * (a0 + a1) < den * (b0 + b1)) by (nonlinear_arith)
                requires
                    a0 + a1 < b0 + b1,
                    den > 0,
            ;
        }
    }
}

/// Every exact size that is not below zero rounds to a magnitude.
pub proof fn lemma_rounding_exists(num: int, den: int)
    requires
        num >= 0,
        den > 0,
    ensures
        nearest_even(round_to_nearest(num, den), num, den),
{
    let m = lemma_search(0, num, den);
    assert(nearest_even(m, num, den));
}

/// A magnitude that an exact size rounds to, found from one at whose lower
/// side the size lies.
proof fn lemma_search(m: u64, num: int, den: int) -> (r: u64)
    requires
        num >= 0,
        den > 0,
        m <= INFINITY_BITS,
        m > 0 ==> {
            let low = den * (abs_units((m - 1) as u64) + abs_units(m));
            2 * num > low || (2 * num == low && m % 2 == 0)
        },
    ensures
        nearest_even(r, num, den),
    decreases INFINITY_BITS - m,
{
    if m == INFINITY_BITS {
        m
    } else {
        let high = den * (abs_units(m) + abs_units((m + 1) as u64));
        if 2 * num < high || (2 * num == high && m % 2 == 0) {
            m
        } else {
            lemma_search((m + 1) as u64, num, den)
        }
    }
}

/// Nothing rounds to zero but what is no more than half a unit, and zero
/// itself does.
pub proof fn lemma_round_zero(den: int)
    requires
        den > 0,
    ensures
        round_to_nearest(0, den) == 0,
{
    ieee::lemma_abs_units_zero(1);
    ieee::lemma_abs_units_zero(0);
    assert(den * (abs_units(0) + abs_units(1)) > 0) by (nonlinear_arith)
        requires
            den > 0,
            abs_units(0) + abs_units(1) > 0,
    ;
    lemma_round_to_nearest(0, 0, den);
}

/// The value after a magnitude is larger by two to the power of its scale.
pub proof fn lemma_successor(m: u64)
    requires
        m < INFINITY_BITS,
    ensures
        abs_units((m + 1) as u64) == abs_units(m) + pow2(scale(m)),
        scale(m) <= scale((m + 1) as u64) <= scale(m) + 1,
{
    let n = (m + 1) as u64;
    let h = HIDDEN_BIT as int;
    ieee::lemma_fields(m);
    ieee::lemma_fields(n);
    let e = exponent_field(m) as int;
    let f = fraction_field(m) as int;
    let p = pow2(scale(m)) as int;
    lemma_pow2_pos(scale(m));
    if f + 1 < h {
        lemma_fundamental_div_mod_converse(n as int, h, e, f + 1);
        assert(exponent_field(n) == e);
        assert(fraction_field(n) == f + 1);
        assert(significand(n) == significand(m) + 1);
        assert((significand(m) + 1) * p == significand(m) * p + p) by (nonlinear_arith);
    } else {
        lemma_fundamental_div_mod_converse(n as int, h, e + 1, 0);
        assert(exponent_field(n) == e + 1);
        assert(fraction_field(n) == 0);
        if e == 0 {
            lemma2_to64();
            assert(scale(n) == 0);
            assert(significand(m) == h - 1);
            assert(significand(n) == h);
            assert(p == 1);
            assert(abs_units(n) == h * 1);
            assert(abs_units(m) == (h - 1) * 1);
        } else {
            assert(scale(n) == scale(m) + 1);
            lemma_pow2_unfold(scale(n));
            assert(significand(m) == 2 * h - 1);
            assert(significand(n) == h);
            assert(h * (2 * p) == (2 * h - 1) * p + p) by (nonlinear_arith);
        }
    }
}

/// Rounding stays the same when the numerator and the denominator of the
/// exact size are replaced by others in the same ratio.
pub proof fn lemma_nearest_even_same_ratio(m: u64, num: int, den: int, num2: int, den2: int)
    requires
        den > 0,
        den2 > 0,
        num * den2 == num2 * den,
        nearest_even(m, num, den),
    ensures
        nearest_even(m, num2, den2),
{
    if m > 0 {
        let x = abs_units((m - 1) as u64) + abs_units(m);
        lemma_compare_same_ratio(num, den, num2, den2, x as int);
    }
    if m < INFINITY_BITS {
        let x = abs_units(m) + abs_units((m + 1) as u64);
        lemma_compare_same_ratio(num, den, num2, den2, x as int);
    }
}

/// Two fractions in the same ratio compare alike with any whole number.
proof fn lemma_compare_same_ratio(num: int, den: int, num2: int, den2: int, x: int)
    requires
        den > 0,
        den2 > 0,
        num * den2 == num2 * den,
    ensures
        2 * num > den * x <==> 2 * num2 > den2 * x,
        2 * num == den * x <==> 2 * num2 == den2 * x,
        2 * num < den * x <==> 2 * num2 < den2 * x,
{
    let a = 2 * num - den * x;
    let b = 2 * num2 - den2 * x;
    assert(a * den2 == b * den) by (nonlinear_arith)
        requires
            a == 2 * num - den * x,
            b == 2 * num2 - den2 * x,
            num * den2 == num2 * den,
    ;
    assert(a > 0 <==> b > 0) by (nonlinear_arith)
        requires
            a * den2 == b * den,
            den > 0,
            den2 > 0,
    ;
    assert(a < 0 <==> b < 0) by (nonlinear_arith)
        requires
            a * den2 == b * den,
            den > 0,
            den2 > 0,
    ;
}

/// The magnitude made of the scale `t` and the significand `n`, and that it
/// is what an exact size rounds to which lies within half a step of it.
///
/// The magnitude is `t * 2^52 + n` whether `n` is a subnormal significand, a
/// normal one, or 2^53, the significand that a normal one rounds up to at the
/// end of its binade.
pub proof fn lemma_pack(t: nat, n: nat, num: int, den: int)
    requires
        t <= 2045,
        n <= 2 * HIDDEN_BIT,
        den > 0,
        t > 0 ==> n >= HIDDEN_BIT && num >= den * (HIDDEN_BIT * pow2(t)),
        2 * (num - den * (n * pow2(t))) <= den * pow2(t),
        2 * (den * (n * pow2(t)) - num) <= den * pow2(t),
        2 * (num - den * (n * pow2(t))) == den * pow2(t) ==> n % 2 == 0,
        2 * (den * (n * pow2(t)) - num) == den * pow2(t) ==> n % 2 == 0,
    ensures
        t * HIDDEN_BIT + n <= INFINITY_BITS,
        abs_units((t * HIDDEN_BIT + n) as u64) == n * pow2(t),
        nearest_even((t * HIDDEN_BIT + n) as u64, num, den),
{
    let h = HIDDEN_BIT as int;
    let m = (t * HIDDEN_BIT + n) as u64;
    let g = pow2(t) as int;
    let c = den * (n * g);
    lemma_pow2_pos(t);
    lemma2_to64();
    lemma_size_of_packed(t, n);
    assert(m % 2 == n % 2) by {
        assert(h == 2 * 0x8_0000_0000_0000);
        assert(m as int == 2 * (t * 0x8_0000_0000_0000) + n);
    }
    if m < INFINITY_BITS {
        lemma_successor(m);
        let s = pow2(scale(m)) as int;
        assert(scale(m) >= t);
        if scale(m) > t {
            lemma_pow2_strictly_increases(t, scale(m));
        }
        assert(s >= g);
        let high = den * (abs_units(m) + abs_units((m + 1) as u64));
        assert(high == 2 * c + den * s) by (nonlinear_arith)
            requires
                high == den * ((n * g) + ((n * g) + s)),
                c == den * (n * g),
        ;
        assert(den * s >= den * g) by (nonlinear_arith)
            requires
                s >= g,
                den > 0,
        ;
    }
    if m > 0 {
        let k = (m - 1) as u64;
        lemma_successor(k);
        ieee::lemma_fields(k);
        let s = pow2(scale(k)) as int;
        lemma_pow2_pos(scale(k));
        let low = den * (abs_units(k) + abs_units(m));
        assert(low == 2 * c - den * s) by (nonlinear_arith)
            requires
                low == den * (((n * g) - s) + (n * g)),
                c == den * (n * g),
        ;
        if scale(k) >= t {
            if scale(k) > t {
                lemma_pow2_strictly_increases(t, scale(k));
            }
            assert(den * s >= den * g) by (nonlinear_arith)
                requires
                    s >= g,
                    den > 0,
            ;
        } else {
            // the magnitude is the first of its binade
            assert(t > 0);
            assert(n == h);
            assert(den * s > 0) by (nonlinear_arith)
                requires
                    s > 0,
                    den > 0,
            ;
            assert(n * g == h * g);
        }
    }
}

/// The fields and the size of the magnitude made of a scale and a
/// significand.
pub proof fn lemma_size_of_packed(t: nat, n: nat)
    requires
        t <= 2045,
        n <= 2 * HIDDEN_BIT,
        t > 0 ==> n >= HIDDEN_BIT,
    ensures
        t * HIDDEN_BIT + n <= INFINITY_BITS,
        abs_units((t * HIDDEN_BIT + n) as u64) == n * pow2(t),
        scale((t * HIDDEN_BIT + n) as u64) >= t,
        t * HIDDEN_BIT + n > 0 ==> (scale((t * HIDDEN_BIT + n - 1) as u64) >= t || (t > 0 && n
            == HIDDEN_BIT)),
{
    let h = HIDDEN_BIT as int;
    let m = (t * HIDDEN_BIT + n) as u64;
    let g = pow2(t) as int;
    lemma2_to64();
    ieee::lemma_fields(m);
    if n < h {
        assert(t == 0);
        lemma_fundamental_div_mod_converse(m as int, h, 0, n as int);
        assert(exponent_field(m) == 0);
        assert(abs_units(m) == n * pow2(0));
    } else if n < 2 * h {
        lemma_fundamental_div_mod_converse(m as int, h, t as int + 1, n - h);
        assert(exponent_field(m) == t + 1);
        assert(fraction_field(m) == n - h);
        assert(significand(m) == n);
    } else {
        lemma_fundamental_div_mod_converse(m as int, h, t as int + 2, 0);
        assert(exponent_field(m) == t + 2);
        assert(fraction_field(m) == 0);
        assert(scale(m) == t + 1);
        lemma_pow2_unfold(t + 1);
        assert(h * (2 * g) == (2 * h) * g) by (nonlinear_arith);
    }
    if m > 0 {
        let k = (m - 1) as u64;
        ieee::lemma_fields(k);
        if n > h || t == 0 {
            if n > h {
                lemma_fundamental_div_mod_converse(k as int, h, t as int + 1, n - 1 - h);
                assert(exponent_field(k) == t + 1);
            }
        }
    }
}

/// 2^127, above every exact significand that is rounded here.
pub const SIGNIFICAND_LIMIT: u128 = 0x8000_0000_0000_0000_0000_0000_0000_0000;

/// 2^54: an inexact significand has at least this size, so that the bit which
/// stands for what was left out lies below every place at which it is rounded.
pub const INEXACT_FROM: u128 = 0x40_0000_0000_0000;

/// Whether the exact size `num / den`, in units, is given by the significand
/// `p` and the exponent `e`: either it is `p * 2^e`, or `p` is odd and not
/// below 2^54 and the size lies strictly between `(p - 1) * 2^e` and
/// `(p + 1) * 2^e`. Both sides are scaled by 2^6000 to keep them whole.
pub open spec fn approximates(p: int, e: int, num: int, den: int) -> bool {
    let w = pow2((e + 6000) as nat) as int;
    let b = pow2(6000) as int;
    ||| num * b == den * (p * w)
    ||| (p % 2 == 1 && p >= INEXACT_FROM && den * ((p - 1) * w) < num * b < den * ((p + 1) * w))
}

/// The values of some powers of two.
pub proof fn lemma_powers()
    ensures
        pow2(0) == 1,
        pow2(1) == 2,
        pow2(52) == HIDDEN_BIT,
        pow2(53) == 2 * HIDDEN_BIT,
        pow2(54) == INEXACT_FROM,
        pow2(127) == SIGNIFICAND_LIMIT,
{
    lemma2_to64();
    lemma2_to64_rest();
    lemma_pow2_adds(64, 63);
}

/// One shifted left is a power of two.
proof fn lemma_shift_is_power(k: u32)
    requires
        k <= 127,
    ensures
        1u128 << k == pow2(k as nat),
    decreases k,
{
    lemma_powers();
    if k == 0 {
        assert(1u128 << 0u32 == 1) by (bit_vector);
    } else {
        let j = (k - 1) as u32;
        lemma_shift_is_power(j);
        lemma_pow2_unfold(k as nat);
        if k < 127 {
            lemma_pow2_strictly_increases(k as nat, 127);
        }
        assert(1u128 << k == 2 * (1u128 << j)) by (bit_vector)
            requires
                1 <= k <= 127,
                j == k - 1,
        ;
    }
}

/// The power of two with the given exponent.
pub(crate) fn power_of_two(k: u32) -> (r: u128)
    requires
        k <= 127,
    ensures
        r == pow2(k as nat),
        r > 0,
{
    proof {
        lemma_shift_is_power(k);
        lemma_pow2_pos(k as nat);
    }
    1u128 << k
}

/// The number of bits of a significand: the least `len` with `p < 2^len`.
pub(crate) fn bit_length(p: u128) -> (len: u32)
    requires
        p < SIGNIFICAND_LIMIT,
    ensures
        len <= 127,
        p < pow2(len as nat),
        len > 0 ==> pow2((len - 1) as nat) <= p,
{
    let mut len: u32 = 0;
    let mut bound: u128 = 1;
    proof {
        lemma_powers();
    }
    while bound <= p
        invariant
            p < SIGNIFICAND_LIMIT,
            len <= 127,
            bound == pow2(len as nat),
            len > 0 ==> pow2((len - 1) as nat) <= p,
        decreases 128 - len,
    {
        proof {
            lemma_powers();
            if len > 127 {
                lemma_pow2_strictly_increases(127, len as nat);
            }
            assert(len < 127);
            lemma_pow2_unfold((len + 1) as nat);
            lemma_pow2_strictly_increases(len as nat, 127);
        }
        bound = bound * 2;
        len = len + 1;
    }
    len
}

/// Rounding a whole number of steps: `n` is the count of steps of size `dd`
/// nearest to `p`, and of two that are equally near the even one.
proof fn lemma_nearest_step(p: int, dd: int, n: int)
    requires
        p >= 0,
        dd >= 2,
        dd % 2 == 0,
        n == p / dd + if p % dd > dd / 2 || (p % dd == dd / 2 && (p / dd) % 2 == 1) {
            1int
        } else {
            0int
        },
    ensures
        2 * (p - n * dd) <= dd,
        2 * (n * dd - p) <= dd,
        2 * (p - n * dd) == dd ==> n % 2 == 0,
        2 * (n * dd - p) == dd ==> n % 2 == 0,
        p % 2 == 1 && dd % 4 == 0 ==> 2 * (p + 1 - n * dd) <= dd && 2 * (n * dd - (p - 1)) <= dd,
{
    let q = p / dd;
    let r = p % dd;
    vstd::arithmetic::div_mod::lemma_fundamental_div_mod(p, dd);
    vstd::arithmetic::div_mod::lemma_mod_bound(p, dd);
    let h = dd / 2;
    assert(dd == 2 * h);
    assert(p == q * dd + r) by (nonlinear_arith)
        requires
            p == dd * q + r,
    ;
    assert((q + 1) * dd == q * dd + dd) by (nonlinear_arith);
    if p % 2 == 1 && dd % 4 == 0 {
        // an odd number is never halfway between two steps of four or more
        assert(h % 2 == 0);
        assert((q * dd) % 2 == 0) by (nonlinear_arith)
            requires
                dd == 2 * h,
        {
            assert(q * dd == 2 * (q * h));
        }
        assert(r % 2 == 1);
    }
}

/// Scaling both sides of a strict comparison.
pub proof fn lemma_scaled_order(a: int, b: int, c: int)
    requires
        c > 0,
        a < b,
    ensures
        a * c < b * c,
{
    lemma_cancel(a, b, c);
}

/// Cancelling a factor above zero on both sides of a comparison.
pub proof fn lemma_cancel(a: int, b: int, c: int)
    requires
        c > 0,
    ensures
        a * c <= b * c <==> a <= b,
        a * c == b * c <==> a == b,
        a * c < b * c <==> a < b,
{
    assert(a * c <= b * c <==> a <= b) by (nonlinear_arith)
        requires
            c > 0,
    ;
    assert(a * c == b * c <==> a == b) by (nonlinear_arith)
        requires
            c > 0,
    ;
}

/// A quotient lies between two numbers if the dividend lies between their
/// multiples of the divisor.
pub proof fn lemma_quotient_between(p: int, dd: int, low: int, high: int)
    requires
        dd > 0,
        low * dd <= p < high * dd,
    ensures
        low <= p / dd < high,
{
    assert(dd * high == high * dd) by (nonlinear_arith);
    assert(dd * low == low * dd) by (nonlinear_arith);
    vstd::arithmetic::div_mod::lemma_multiply_divide_lt(p, dd, high);
    vstd::arithmetic::div_mod::lemma_div_is_ordered(dd * low, p, dd);
    vstd::arithmetic::div_mod::lemma_div_multiples_vanish(low, dd);
}

/// From bounds on the exact size in steps of `dd * w` to the distance between
/// the exact size and `n` steps of `g`, where both kinds of step are the same
/// once the size is scaled by `b`.
proof fn lemma_within_half_step(
    pl: int,
    ph: int,
    n: int,
    dd: int,
    w: int,
    b: int,
    g: int,
    num: int,
    den: int,
    inexact: bool,
)
    requires
        den > 0,
        w > 0,
        b > 0,
        dd > 0,
        g > 0,
        g * b == dd * w,
        den * (pl * w) <= num * b <= den * (ph * w),
        inexact ==> den * (pl * w) < num * b < den * (ph * w),
        2 * (ph - n * dd) <= dd,
        2 * (n * dd - pl) <= dd,
        !inexact && (2 * (ph - n * dd) == dd || 2 * (n * dd - pl) == dd) ==> n % 2 == 0,
    ensures
        2 * (num - den * (n * g)) <= den * g,
        2 * (den * (n * g) - num) <= den * g,
        2 * (num - den * (n * g)) == den * g ==> n % 2 == 0,
        2 * (den * (n * g) - num) == den * g ==> n % 2 == 0,
{
    let x = num * b;
    let dw = den * w;
    assert(dw > 0) by (nonlinear_arith)
        requires
            dw == den * w,
            den > 0,
            w > 0,
    ;
    // the distance above, scaled by b
    let above = 2 * (num - den * (n * g));
    let step = den * g;
    assert(above * b == 2 * x - 2 * (n * dd) * dw) by (nonlinear_arith)
        requires
            above == 2 * (num - den * (n * g)),
            x == num * b,
            dw == den * w,
            g * b == dd * w,
    ;
    assert(step * b == dd * dw) by (nonlinear_arith)
        requires
            step == den * g,
            dw == den * w,
            g * b == dd * w,
    ;
    assert(den * (ph * w) == ph * dw) by (nonlinear_arith)
        requires
            dw == den * w,
    ;
    assert(den * (pl * w) == pl * dw) by (nonlinear_arith)
        requires
            dw == den * w,
    ;
    assert(2 * (ph * dw) - 2 * (n * dd) * dw == (2 * (ph - n * dd)) * dw) by (nonlinear_arith);
    assert(2 * (n * dd) * dw - 2 * (pl * dw) == (2 * (n * dd - pl)) * dw) by (nonlinear_arith);
    assert((2 * (ph - n * dd)) * dw <= dd * dw) by (nonlinear_arith)
        requires
            2 * (ph - n * dd) <= dd,
            dw > 0,
    ;
    assert((2 * (n * dd - pl)) * dw <= dd * dw) by (nonlinear_arith)
        requires
            2 * (n * dd - pl) <= dd,
            dw > 0,
    ;
    assert(above * b <= step * b);
    assert((-above) * b == -(above * b)) by (nonlinear_arith);
    assert((-above) * b <= step * b);
    lemma_cancel(above, step, b);
    lemma_cancel(-above, step, b);
    if above == step {
        assert(2 * x == 2 * (ph * dw));
        assert((2 * (ph - n * dd)) * dw == dd * dw);
        lemma_cancel(2 * (ph - n * dd), dd, dw);
    }
    if -above == step {
        assert(2 * x == 2 * (pl * dw));
        assert((2 * (n * dd - pl)) * dw == dd * dw);
        lemma_cancel(2 * (n * dd - pl), dd, dw);
    }
}

/// An exact size that is at least `2^k * 2^e` is at least that many units.
proof fn lemma_at_least(pl: int, k: nat, e: int, t: nat, num: int, den: int)
    requires
        den > 0,
        -6000 <= e,
        pl >= pow2(k),
        k + e >= 52 + t,
        num * pow2(6000) >= den * (pl * pow2((e + 6000) as nat)),
    ensures
        num >= den * (HIDDEN_BIT * pow2(t)),
{
    let b = pow2(6000) as int;
    let w = pow2((e + 6000) as nat) as int;
    let g = pow2(t) as int;
    let h = HIDDEN_BIT as int;
    let pk = pow2(k) as int;
    lemma_powers();
    lemma_pow2_pos(6000);
    lemma_pow2_pos((e + 6000) as nat);
    lemma_pow2_pos(t);
    lemma_pow2_pos(k);
    lemma_pow2_adds(k, (e + 6000) as nat);
    lemma_pow2_adds(52, t);
    lemma_pow2_adds(52 + t, 6000);
    if k + e > 52 + t {
        lemma_pow2_strictly_increases(52 + t + 6000, (k + e + 6000) as nat);
    }
    assert(pk * w >= (h * g) * b);
    assert(pl * w >= pk * w) by (nonlinear_arith)
        requires
            pl >= pk,
            w > 0,
    ;
    assert(den * (pl * w) >= den * ((h * g) * b)) by (nonlinear_arith)
        requires
            pl * w >= (h * g) * b,
            den > 0,
    ;
    assert(den * ((h * g) * b) == (den * (h * g)) * b) by (nonlinear_arith);
    lemma_cancel(den * (h * g), num, b);
}

/// Rounds the exact size given by a significand and an exponent to the
/// nearest magnitude of the format, ties to even. Too large a size gives the
/// magnitude of infinity, too small a one gives zero.
pub(crate) fn round_pack(p: u128, e: i64, Ghost(num): Ghost<int>, Ghost(den): Ghost<int>) -> (m:
    u64)
    requires
        p < SIGNIFICAND_LIMIT,
        -5000 <= e <= 5000,
        den > 0,
        approximates(p as int, e as int, num, den),
    ensures
        nearest_even(m, num, den),
{
    let ghost b = pow2(6000) as int;
    let ghost w = pow2((e + 6000) as nat) as int;
    let ghost inexact = num * b != den * (p * w);
    let ghost pl = if inexact { p - 1 } else { p as int };
    let ghost ph = if inexact { p + 1 } else { p as int };
    proof {
        lemma_powers();
        lemma_pow2_pos(6000);
        lemma_pow2_pos((e + 6000) as nat);
    }
    if p == 0 {
        proof {
            assert(num * b == den * (0 * w));
            assert(den * (0 * w) == 0) by (nonlinear_arith);
            assert(0 * b == 0);
            lemma_cancel(num, 0, b);
            ieee::lemma_abs_units_zero(1);
            ieee::lemma_abs_units_zero(0);
            assert(den * (abs_units(0) + abs_units(1)) > 0) by (nonlinear_arith)
                requires
                    den > 0,
                    abs_units(0) + abs_units(1) > 0,
            ;
        }
        return 0;
    }
    let len: i64 = bit_length(p) as i64;
    let t: i64 = if len + e > 53 {
        len + e - 53
    } else {
        0
    };
    proof {
        // the size is at least 2^(len - 1) * 2^e
        let k = (len - 1) as nat;
        if inexact {
            assert(len >= 55) by {
                if len < 55 {
                    if len < 54 {
                        lemma_pow2_strictly_increases(len as nat, 54);
                    }
                }
            }
            lemma_pow2_unfold(k);
            assert(pow2(k) % 2 == 0);
        }
        assert(pl >= pow2(k));
    }
    if t > 2045 {
        proof {
            lemma_at_least(pl, (len - 1) as nat, e as int, 2046, num, den);
            let top = (INFINITY_BITS - 1) as u64;
            ieee::lemma_abs_units_increasing(top, INFINITY_BITS);
            assert(exponent_field(INFINITY_BITS) == 2047);
            assert(fraction_field(INFINITY_BITS) == 0);
            assert(abs_units(INFINITY_BITS) == HIDDEN_BIT * pow2(2046));
            assert(den * (abs_units(top) + abs_units(INFINITY_BITS)) < 2 * (den * (HIDDEN_BIT
                * pow2(2046)))) by (nonlinear_arith)
                requires
                    den > 0,
                    abs_units(top) < abs_units(INFINITY_BITS),
                    abs_units(INFINITY_BITS) == HIDDEN_BIT * pow2(2046),
            ;
        }
        return INFINITY_BITS;
    }
    let d: i64 = t - e;
    let ghost g = pow2(t as nat) as int;
    proof {
        lemma_pow2_pos(t as nat);
        if t > 0 {
            lemma_at_least(pl, (len - 1) as nat, e as int, t as nat, num, den);
        }
    }
    let n: u64;
    if d <= 0 {
        // the significand is short: it is moved up, and nothing is lost
        let k: u128 = power_of_two((-d) as u32);
        proof {
            assert(!inexact) by {
                if inexact {
                    assert(len >= 55);
                }
            }
            assert(len - d <= 53);
            lemma_pow2_adds(len as nat, (-d) as nat);
            if len - d < 53 {
                lemma_pow2_strictly_increases((len - d) as nat, 53);
            }
            assert(p * k < pow2(len as nat) * k) by (nonlinear_arith)
                requires
                    p < pow2(len as nat),
                    k > 0,
            ;
            if t > 0 {
                lemma_pow2_adds((len - 1) as nat, (-d) as nat);
                assert(p * k >= pow2((len - 1) as nat) * k) by (nonlinear_arith)
                    requires
                        p >= pow2((len - 1) as nat),
                        k > 0,
                ;
            }
            lemma_pow2_adds((-d) as nat, (t + 6000) as nat);
            lemma_pow2_adds(t as nat, 6000);
            assert(w == k * (g * b));
            assert(den * (p * w) == den * ((p * k) * (g * b))) by (nonlinear_arith)
                requires
                    w == k * (g * b),
            ;
            assert(g * b > 0) by (nonlinear_arith)
                requires
                    g > 0,
                    b > 0,
            ;
        }
        n = (p * k) as u64;
        proof {
            lemma_within_half_step(n as int, n as int, n as int, 1, g * b, b, g, num, den, false);
        }
    } else {
        let ghost dd = pow2(d as nat) as int;
        proof {
            lemma_pow2_pos(d as nat);
            lemma_pow2_unfold(d as nat);
            lemma_pow2_pos((d - 1) as nat);
            lemma_pow2_adds(d as nat, (e + 6000) as nat);
            lemma_pow2_adds(t as nat, 6000);
            assert(g * b == dd * w);
            if inexact {
                assert(d >= 2);
                lemma_pow2_unfold((d - 1) as nat);
            }
            // p < 2^53 * 2^d, and p >= 2^52 * 2^d where the scale is not zero
            assert(len - d <= 53);
            lemma_pow2_adds(53, d as nat);
            if len < 53 + d {
                lemma_pow2_strictly_increases(len as nat, (53 + d) as nat);
            }
            if t > 0 {
                lemma_pow2_adds(52, d as nat);
            }
            lemma_quotient_between(
                p as int,
                dd,
                if t > 0 {
                    HIDDEN_BIT as int
                } else {
                    0
                },
                2 * HIDDEN_BIT,
            );
        }
        if d > 127 {
            proof {
                lemma_pow2_strictly_increases(127, d as nat);
                if d > 128 {
                    lemma_pow2_strictly_increases(127, (d - 1) as nat);
                }
                vstd::arithmetic::div_mod::lemma_basic_div(p as int, dd);
                vstd::arithmetic::div_mod::lemma_small_mod(p as nat, dd as nat);
            }
            n = 0;
        } else {
            let step: u128 = power_of_two(d as u32);
            let q: u128 = p / step;
            let rem: u128 = p % step;
            let half: u128 = step / 2;
            if rem > half || (rem == half && q % 2 == 1) {
                n = (q + 1) as u64;
            } else {
                n = q as u64;
            }
        }
        proof {
            lemma_nearest_step(p as int, dd, n as int);
            lemma_within_half_step(pl, ph, n as int, dd, w, b, g, num, den, inexact);
        }
    }
    proof {
        lemma_pack(t as nat, n as nat, num, den);
    }
    (t as u64) * HIDDEN_BIT + n
}

} // verus!
