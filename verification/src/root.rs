//! The square root of a raw value: the exact root, rounded to the nearest
//! value of the format.
//!
//! The root of a size of `u` units is the square root of `u * 2^1074` units,
//! so what is rounded here is given by its square. No root of a value of the
//! format lies halfway between two values, and none is subnormal or too
//! large.
use vstd::prelude::*;
use vstd::arithmetic::power2::lemma2_to64;
use vstd::arithmetic::power2::lemma2_to64_rest;
use vstd::arithmetic::power2::lemma_pow2_adds;
use vstd::arithmetic::power2::lemma_pow2_pos;
use vstd::arithmetic::power2::lemma_pow2_strictly_increases;
use vstd::arithmetic::power2::lemma_pow2_unfold;
use vstd::arithmetic::power2::pow2;
use crate::binary64::Binary64;
use crate::ieee;
use crate::ieee::abs_units;
use crate::ieee::HIDDEN_BIT;
use crate::ieee::INFINITY_BITS;
use crate::ieee::is_infinite;
use crate::ieee::is_nan;
use crate::ieee::is_zero;
use crate::ieee::QUIET_NAN_BITS;
use crate::ieee::scale;
use crate::ieee::sign_negative;
use crate::integral::one;
use crate::rounding::bit_length;
use crate::rounding::lemma_powers;
use crate::rounding::lemma_size_of_packed;
use crate::rounding::lemma_successor;
use crate::rounding::power_of_two;

verus! {

/// Whether the magnitude `m` is what the square root of `sq`, in units,
/// rounds to: the root lies between the middle of `m - 1` and `m` and the
/// middle of `m` and `m + 1`, and may lie on one of them only if `m` is even.
pub open spec fn nearest_even_root(m: u64, sq: int) -> bool {
    &&& m <= INFINITY_BITS
    &&& m > 0 ==> {
        let low = abs_units((m - 1) as u64) + abs_units(m);
        4 * sq > low * low || (4 * sq == low * low && m % 2 == 0)
    }
    &&& m < INFINITY_BITS ==> {
        let high = abs_units(m) + abs_units((m + 1) as u64);
        4 * sq < high * high || (4 * sq == high * high && m % 2 == 0)
    }
}

/// The magnitude that the square root of `sq`, in units, rounds to.
pub open spec fn round_root(sq: int) -> u64 {
    choose|m: u64| nearest_even_root(m, sq)
}

/// The square root of a pattern. It is NaN for NaN and for what is below
/// zero, the pattern itself for a zero of either sign and for positive
/// infinity, and else the exact root, rounded.
pub open spec fn root(a: u64) -> u64 {
    if is_nan(a) {
        QUIET_NAN_BITS
    } else if is_zero(a) {
        a
    } else if sign_negative(a) {
        QUIET_NAN_BITS
    } else if is_infinite(a) {
        a
    } else {
        round_root(abs_units(a) * one())
    }
}

/// Squares of numbers that are not below zero are ordered as the numbers.
proof fn lemma_square_order(x: int, y: int)
    requires
        0 <= x,
        0 <= y,
    ensures
        x < y <==> x * x < y * y,
        x == y <==> x * x == y * y,
{
    assert(x < y ==> x * x < y * y) by (nonlinear_arith)
        requires
            0 <= x,
            0 <= y,
    ;
    assert(y < x ==> y * y < x * x) by (nonlinear_arith)
        requires
            0 <= x,
            0 <= y,
    ;
}

/// Of two magnitudes that a root rounds to, the second is not the larger.
proof fn lemma_rounds_no_higher(m1: u64, m2: u64, sq: int)
    requires
        nearest_even_root(m1, sq),
        nearest_even_root(m2, sq),
    ensures
        m2 <= m1,
{
    if m1 < m2 {
        let high = abs_units(m1) + abs_units((m1 + 1) as u64);
        let low = abs_units((m2 - 1) as u64) + abs_units(m2);
        ieee::lemma_fields(m1);
        ieee::lemma_fields(m2);
        ieee::lemma_fields((m1 + 1) as u64);
        ieee::lemma_fields((m2 - 1) as u64);
        if m1 + 1 < m2 {
            ieee::lemma_abs_units_increasing(m1, (m2 - 1) as u64);
            ieee::lemma_abs_units_increasing((m1 + 1) as u64, m2);
        }
        lemma_square_order(high as int, low as int);
    }
}

/// A magnitude that a root rounds to is the one it rounds to.
pub proof fn lemma_round_root(m: u64, sq: int)
    requires
        nearest_even_root(m, sq),
    ensures
        round_root(sq) == m,
{
    lemma_rounds_no_higher(m, round_root(sq), sq);
    lemma_rounds_no_higher(round_root(sq), m, sq);
}

/// Every square that is not below zero has a root that rounds to a
/// magnitude.
pub proof fn lemma_root_exists(sq: int)
    requires
        sq >= 0,
    ensures
        nearest_even_root(round_root(sq), sq),
{
    let m = lemma_search(0, sq);
    assert(nearest_even_root(m, sq));
}

/// A magnitude that a root rounds to, found from one at whose lower side the
/// root lies.
proof fn lemma_search(m: u64, sq: int) -> (r: u64)
    requires
        sq >= 0,
        m <= INFINITY_BITS,
        m > 0 ==> {
            let low = abs_units((m - 1) as u64) + abs_units(m);
            4 * sq > low * low || (4 * sq == low * low && m % 2 == 0)
        },
    ensures
        nearest_even_root(r, sq),
    decreases INFINITY_BITS - m,
{
    if m == INFINITY_BITS {
        m
    } else {
        let high = abs_units(m) + abs_units((m + 1) as u64);
        if 4 * sq < high * high || (4 * sq == high * high && m % 2 == 0) {
            m
        } else {
            lemma_search((m + 1) as u64, sq)
        }
    }
}

/// The whole part of the square root of a number below 2^108.
fn integer_root(s: u128) -> (r: u128)
    requires
        s < 0x1000_0000_0000_0000_0000_0000_0000,
    ensures
        r * r <= s < (r + 1) * (r + 1),
        r < 0x40_0000_0000_0000,
{
    let mut r: u128 = 0;
    let mut bit: u32 = 54;
    proof {
        lemma_powers();
        assert(0x40_0000_0000_0000int * 0x40_0000_0000_0000int
            == 0x1000_0000_0000_0000_0000_0000_0000int);
    }
    while bit > 0
        invariant
            bit <= 54,
            s < 0x1000_0000_0000_0000_0000_0000_0000,
            r * r <= s,
            s < (r + pow2(bit as nat)) * (r + pow2(bit as nat)),
            r + pow2(bit as nat) <= 0x40_0000_0000_0000,
        decreases bit,
    {
        bit = bit - 1;
        let step: u128 = power_of_two(bit);
        proof {
            lemma_pow2_unfold((bit + 1) as nat);
            assert((r + step) * (r + step) <= 0x40_0000_0000_0000 * 0x40_0000_0000_0000)
                by (nonlinear_arith)
                requires
                    0 <= r + step <= 0x40_0000_0000_0000,
            ;
        }
        let candidate: u128 = r + step;
        if candidate * candidate <= s {
            r = candidate;
        }
    }
    proof {
        lemma_powers();
    }
    r
}

/// The magnitude made of a scale that is not zero and a significand which is
/// the rounded half of `r`, where the square of the exact root is `s` at the
/// scale of `r`.
proof fn lemma_root_rounds(r: int, s: int, n: int, t: nat, sq: int)
    requires
        0 < t <= 2045,
        2 * HIDDEN_BIT <= r < 4 * HIDDEN_BIT,
        r * r <= s < (r + 1) * (r + 1),
        s % 2 == 0,
        n == (r + 1) / 2,
        4 * sq == s * (pow2(t) * pow2(t)),
    ensures
        t * HIDDEN_BIT + n <= INFINITY_BITS,
        nearest_even_root((t * HIDDEN_BIT + n) as u64, sq),
{
    let h = HIDDEN_BIT as int;
    let m = (t * HIDDEN_BIT + n) as u64;
    let g = pow2(t) as int;
    lemma_pow2_pos(t);
    lemma_size_of_packed(t, n as nat);
    assert(abs_units(m) == n * g);
    // the square of the root lies strictly between those of 2n - 1 and 2n + 1
    assert(r % 2 == 1 ==> r * r != s) by {
        if r % 2 == 1 {
            let k = r / 2;
            assert(r * r == 2 * (2 * k * k + 2 * k) + 1) by (nonlinear_arith)
                requires
                    r == 2 * k + 1,
            ;
        }
    }
    assert((2 * n - 1) * (2 * n - 1) < s) by {
        if r % 2 == 0 {
            assert((r - 1) * (r - 1) < r * r) by (nonlinear_arith)
                requires
                    r >= 1,
            ;
        }
    }
    assert(s < (2 * n + 1) * (2 * n + 1)) by {
        if r % 2 == 1 {
            assert((r + 1) * (r + 1) < (r + 2) * (r + 2)) by (nonlinear_arith)
                requires
                    r >= 1,
            ;
        }
    }
    assert(forall|c: int| #[trigger] (c * g) * (c * g) == (c * c) * (g * g)) by (nonlinear_arith);
    assert(g * g > 0) by (nonlinear_arith)
        requires
            g > 0,
    ;
    if m < INFINITY_BITS {
        lemma_successor(m);
        let step = pow2(scale(m)) as int;
        if scale(m) > t {
            lemma_pow2_strictly_increases(t, scale(m));
        }
        let high = abs_units(m) + abs_units((m + 1) as u64);
        let bound = (2 * n + 1) * g;
        assert(high >= bound) by (nonlinear_arith)
            requires
                high == (n * g) + ((n * g) + step),
                bound == (2 * n + 1) * g,
                step >= g,
        ;
        assert(bound >= 0) by (nonlinear_arith)
            requires
                bound == (2 * n + 1) * g,
                n >= 0,
                g > 0,
        ;
        if high > bound {
            lemma_square_order(bound, high as int);
        }
        assert(bound * bound == ((2 * n + 1) * (2 * n + 1)) * (g * g));
        crate::rounding::lemma_scaled_order(s, (2 * n + 1) * (2 * n + 1), g * g);
    }
    if m > 0 {
        let k = (m - 1) as u64;
        lemma_successor(k);
        ieee::lemma_fields(k);
        let step = pow2(scale(k)) as int;
        lemma_pow2_pos(scale(k));
        let low = abs_units(k) + abs_units(m);
        assert(low >= 0);
        if scale(k) >= t {
            if scale(k) > t {
                lemma_pow2_strictly_increases(t, scale(k));
            }
            let bound = (2 * n - 1) * g;
            assert(low <= bound) by (nonlinear_arith)
                requires
                    low == ((n * g) - step) + (n * g),
                    bound == (2 * n - 1) * g,
                    step >= g,
            ;
            if low < bound {
                lemma_square_order(low as int, bound);
            }
            assert(bound * bound == ((2 * n - 1) * (2 * n - 1)) * (g * g));
            crate::rounding::lemma_scaled_order((2 * n - 1) * (2 * n - 1), s, g * g);
        } else {
            // the magnitude is the first of its binade
            assert(n == h);
            let bound = (2 * n) * g;
            assert(low < bound) by (nonlinear_arith)
                requires
                    low == ((n * g) - step) + (n * g),
                    bound == (2 * n) * g,
                    step > 0,
            ;
            lemma_square_order(low as int, bound);
            assert(bound * bound == ((2 * n) * (2 * n)) * (g * g));
            assert((2 * n) * (2 * n) <= r * r) by (nonlinear_arith)
                requires
                    0 <= 2 * n <= r,
            ;
            assert(((2 * n) * (2 * n)) * (g * g) <= s * (g * g)) by (nonlinear_arith)
                requires
                    (2 * n) * (2 * n) <= s,
                    g * g > 0,
            ;
        }
    }
}

impl Binary64 {
    /// The square root of the value, rounded to the nearest value of the
    /// format. It is NaN for what is below zero, and `-0.0` for `-0.0`.
    pub fn sqrt(self) -> (r: Binary64)
        ensures
            r.bits == root(self.bits),
    {
        proof {
            ieee::lemma_fields(self.bits);
        }
        if self.is_nan() {
            return Binary64::from_bits(QUIET_NAN_BITS);
        }
        if self.abs().to_bits() == 0 {
            return self;
        }
        if self.is_sign_negative() {
            return Binary64::from_bits(QUIET_NAN_BITS);
        }
        if self.is_infinite() {
            return self;
        }
        let (sig, sc) = self.parts();
        // the significand with its leading bit at 2^52
        let len: u32 = bit_length(sig as u128);
        proof {
            lemma_powers();
            if len > 53 {
                lemma_pow2_strictly_increases(53, (len - 1) as nat);
            }
            assert(1 <= len <= 53);
            if sc > 0 && len < 53 {
                lemma_pow2_strictly_increases(len as nat, 53);
                lemma_pow2_strictly_increases(len as nat, 54);
                if len < 52 {
                    lemma_pow2_strictly_increases(len as nat, 52);
                }
            }
        }
        let k1: u32 = 53 - len;
        // an even power of two is left over when 54 or 55 places are added
        let rest: i64 = sc - (k1 as i64) + 1020;
        let j: u32 = if rest % 2 == 0 {
            54
        } else {
            55
        };
        let e: i64 = if rest % 2 == 0 {
            rest / 2
        } else {
            (rest - 1) / 2
        };
        let k: u128 = power_of_two(k1 + j);
        proof {
            lemma_pow2_adds(len as nat, (k1 + j) as nat);
            lemma_pow2_adds((len - 1) as nat, (k1 + j) as nat);
            lemma_pow2_adds(64, 42);
            lemma_pow2_adds(64, 43);
            lemma_pow2_adds(64, 44);
            lemma2_to64();
            lemma2_to64_rest();
            assert(sig * k < pow2(len as nat) * k) by (nonlinear_arith)
                requires
                    sig < pow2(len as nat),
                    k > 0,
            ;
            assert(sig * k >= pow2((len - 1) as nat) * k) by (nonlinear_arith)
                requires
                    sig >= pow2((len - 1) as nat),
                    k > 0,
            ;
            lemma_pow2_unfold((k1 + j) as nat);
            assert((sig * k) % 2 == 0) by {
                let half = pow2((k1 + j - 1) as nat) as int;
                assert(sig * k == 2 * (sig * half)) by (nonlinear_arith)
                    requires
                        k == 2 * half,
                ;
            }
        }
        let s: u128 = (sig as u128) * k;
        let r: u128 = integer_root(s);
        let n: u64 = ((r + 1) / 2) as u64;
        let t: i64 = e + 1;
        proof {
            let ri = r as int;
            // 2^106 <= s < 2^108, so 2^53 <= r < 2^54
            assert(ri >= 2 * HIDDEN_BIT) by {
                if ri < 2 * HIDDEN_BIT {
                    assert((ri + 1) * (ri + 1) <= 0x20_0000_0000_0000 * 0x20_0000_0000_0000)
                        by (nonlinear_arith)
                        requires
                            0 <= ri + 1 <= 0x20_0000_0000_0000,
                    ;
                }
            }
            // the square of the root, at the scale of the result
            let g = pow2(t as nat) as int;
            let sq = abs_units(self.bits) * one();
            let pk = pow2((k1 + j) as nat) as int;
            let ps = pow2(sc as nat) as int;
            lemma_pow2_pos(t as nat);
            lemma_pow2_pos((k1 + j) as nat);
            lemma_pow2_pos(sc as nat);
            lemma_pow2_adds(t as nat, t as nat);
            lemma_pow2_adds((2 * t) as nat, (k1 + j) as nat);
            lemma_pow2_adds(sc as nat, 1074);
            lemma_pow2_adds(2, (sc + 1074) as nat);
            assert(2 * t + k1 + j == sc + 1076);
            assert((g * g) * pk == 4 * (ps * one()));
            assert((4 * sq) * pk == (s * (g * g)) * pk) by (nonlinear_arith)
                requires
                    sq == (sig * ps) * one(),
                    s == sig * pk,
                    (g * g) * pk == 4 * (ps * one()),
            ;
            crate::rounding::lemma_cancel(4 * sq, s * (g * g), pk);
            lemma_root_rounds(ri, s as int, n as int, t as nat, sq);
            lemma_round_root((t * HIDDEN_BIT + n) as u64, sq);
        }
        Binary64::from_bits((t as u64) * HIDDEN_BIT + n)
    }
}

} // verus!
