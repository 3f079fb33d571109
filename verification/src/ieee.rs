//! The IEEE 754 binary64 interchange format, as a mathematical model over
//! 64-bit patterns.
//!
//! A pattern has one sign bit, eleven exponent bits and fifty-two fraction
//! bits. A finite pattern denotes a whole number of *units*, one unit being
//! 2^-1074, the smallest positive value of the format; `number` gives the
//! number a pattern denotes and `less`, `same` and `at_most` are the
//! comparisons of the standard, under which NaN is unordered and the two
//! zeros are equal.
use vstd::prelude::*;
use vstd::arithmetic::power2::lemma_pow2_pos;
use vstd::arithmetic::power2::lemma_pow2_strictly_increases;
use vstd::arithmetic::power2::lemma_pow2_unfold;
use vstd::arithmetic::power2::pow2;

verus! {

/// The pattern with only the sign bit set; it is the pattern of `-0.0`.
pub const SIGN_BIT: u64 = 0x8000_0000_0000_0000;

/// The pattern of positive infinity: the exponent bits set, the rest clear.
pub const INFINITY_BITS: u64 = 0x7FF0_0000_0000_0000;

/// 2^52: the weight of the lowest exponent bit, and the implicit leading bit
/// of a normal significand.
pub const HIDDEN_BIT: u64 = 0x0010_0000_0000_0000;

/// The quiet NaN with a clear sign bit and an otherwise empty fraction.
pub const QUIET_NAN_BITS: u64 = 0x7FF8_0000_0000_0000;

/// The pattern of `1.0`.
pub const ONE_BITS: u64 = 0x3FF0_0000_0000_0000;

/// The exponent field of infinities and NaNs.
pub const EXPONENT_MAX: u64 = 2047;

/// Whether the sign bit is set. It is set in `-0.0` too.
pub open spec fn sign_negative(bits: u64) -> bool {
    bits >= SIGN_BIT
}

/// The pattern without its sign bit.
pub open spec fn magnitude(bits: u64) -> u64 {
    if bits >= SIGN_BIT {
        (bits - SIGN_BIT) as u64
    } else {
        bits
    }
}

/// The pattern with the magnitude of `bits` and the given sign.
pub open spec fn with_sign(bits: u64, negative: bool) -> u64 {
    if negative {
        (magnitude(bits) + SIGN_BIT) as u64
    } else {
        magnitude(bits)
    }
}

/// The eleven exponent bits, as a number from 0 to 2047.
pub open spec fn exponent_field(bits: u64) -> nat {
    (magnitude(bits) / HIDDEN_BIT) as nat
}

/// The fifty-two fraction bits, as a number below 2^52.
pub open spec fn fraction_field(bits: u64) -> nat {
    (magnitude(bits) % HIDDEN_BIT) as nat
}

/// NaN: the exponent bits all set and a fraction that is not zero.
pub open spec fn is_nan(bits: u64) -> bool {
    exponent_field(bits) == EXPONENT_MAX && fraction_field(bits) != 0
}

/// Positive or negative infinity: the exponent bits all set, the fraction zero.
pub open spec fn is_infinite(bits: u64) -> bool {
    exponent_field(bits) == EXPONENT_MAX && fraction_field(bits) == 0
}

/// Neither infinite nor NaN.
pub open spec fn is_finite(bits: u64) -> bool {
    exponent_field(bits) < EXPONENT_MAX
}

/// Positive or negative zero.
pub open spec fn is_zero(bits: u64) -> bool {
    exponent_field(bits) == 0 && fraction_field(bits) == 0
}

/// A value below the smallest normal one that is not zero.
pub open spec fn is_subnormal(bits: u64) -> bool {
    exponent_field(bits) == 0 && fraction_field(bits) != 0
}

/// Neither zero, subnormal, infinite nor NaN.
pub open spec fn is_normal(bits: u64) -> bool {
    0 < exponent_field(bits) < EXPONENT_MAX
}

/// The integer significand of a finite pattern: the fraction, with the
/// implicit leading bit where the pattern is normal.
pub open spec fn significand(bits: u64) -> nat {
    if exponent_field(bits) == 0 {
        fraction_field(bits)
    } else {
        HIDDEN_BIT as nat + fraction_field(bits)
    }
}

/// The power of two by which the significand of a finite pattern is
/// multiplied to give its size in units. Subnormal patterns and those with
/// exponent field 1 share the smallest scale.
pub open spec fn scale(bits: u64) -> nat {
    if exponent_field(bits) == 0 {
        0
    } else {
        (exponent_field(bits) - 1) as nat
    }
}

/// The size of a finite pattern in units of 2^-1074, without its sign.
pub open spec fn abs_units(bits: u64) -> nat {
    significand(bits) * pow2(scale(bits))
}

/// The value of a finite pattern in units of 2^-1074.
pub open spec fn units(bits: u64) -> int {
    if sign_negative(bits) {
        -(abs_units(bits) as int)
    } else {
        abs_units(bits) as int
    }
}

/// What a pattern denotes: an extended real number, or no number at all.
pub enum Number {
    /// Not a number.
    Nan,
    /// Below every finite number.
    NegInfinity,
    /// The real number `units` * 2^-1074.
    Finite { units: int },
    /// Above every finite number.
    PosInfinity,
}

/// The number that a pattern denotes. The two zeros denote the same number.
pub open spec fn number(bits: u64) -> Number {
    if is_nan(bits) {
        Number::Nan
    } else if is_infinite(bits) {
        if sign_negative(bits) {
            Number::NegInfinity
        } else {
            Number::PosInfinity
        }
    } else {
        Number::Finite { units: units(bits) }
    }
}

/// The number zero.
pub open spec fn zero() -> Number {
    Number::Finite { units: 0 }
}

/// `a < b` as the standard defines it: false where either is NaN.
pub open spec fn less(a: Number, b: Number) -> bool {
    match (a, b) {
        (Number::Nan, _) => false,
        (_, Number::Nan) => false,
        (_, Number::NegInfinity) => false,
        (Number::NegInfinity, _) => true,
        (Number::PosInfinity, _) => false,
        (_, Number::PosInfinity) => true,
        (Number::Finite { units: x }, Number::Finite { units: y }) => x < y,
    }
}

/// `a == b` as the standard defines it: false where either is NaN.
pub open spec fn same(a: Number, b: Number) -> bool {
    a != Number::Nan && a == b
}

/// `a <= b` as the standard defines it: false where either is NaN.
pub open spec fn at_most(a: Number, b: Number) -> bool {
    less(a, b) || same(a, b)
}

/// `bits >= 0.0` as the standard defines it: the pattern denotes a number,
/// and that number is not below zero.
pub open spec fn non_negative(bits: u64) -> bool {
    at_most(zero(), number(bits))
}

/// A whole number that orders the patterns which are not NaN as the numbers
/// they denote: the magnitude, negated where the sign bit is set.
pub open spec fn order_key(bits: u64) -> int {
    if sign_negative(bits) {
        -(magnitude(bits) as int)
    } else {
        magnitude(bits) as int
    }
}

/// A whole number that orders all patterns as the total order of the
/// standard does: negative NaNs first, then the numbers from negative to
/// positive infinity with `-0.0` before `+0.0`, then positive NaNs.
pub open spec fn total_order_key(bits: u64) -> int {
    if sign_negative(bits) {
        -(magnitude(bits) as int) - 1
    } else {
        magnitude(bits) as int
    }
}

/// The sign of a pattern as a pattern: NaN for NaN, else `1.0` with the sign
/// bit of `bits`.
pub open spec fn signum(bits: u64) -> u64 {
    if is_nan(bits) {
        QUIET_NAN_BITS
    } else {
        with_sign(ONE_BITS, sign_negative(bits))
    }
}

/// The larger of two patterns, a NaN giving way to the other. Where neither
/// is larger, as with the two zeros, it is `a`.
pub open spec fn maximum(a: u64, b: u64) -> u64 {
    if is_nan(a) {
        b
    } else if is_nan(b) {
        a
    } else if less(number(a), number(b)) {
        b
    } else {
        a
    }
}

/// The smaller of two patterns, a NaN giving way to the other. Where neither
/// is smaller, as with the two zeros, it is `a`.
pub open spec fn minimum(a: u64, b: u64) -> u64 {
    if is_nan(a) {
        b
    } else if is_nan(b) {
        a
    } else if less(number(b), number(a)) {
        b
    } else {
        a
    }
}

/// `x` held between `low` and `high`: `low` where `x` is below it, `high`
/// where `x` is above it, else `x` itself, NaN included.
pub open spec fn clamped(x: u64, low: u64, high: u64) -> u64 {
    if less(number(x), number(low)) {
        low
    } else if less(number(high), number(x)) {
        high
    } else {
        x
    }
}

/// The bounds of the fields, and how they make up the magnitude.
pub proof fn lemma_fields(bits: u64)
    ensures
        magnitude(bits) < SIGN_BIT,
        exponent_field(bits) <= EXPONENT_MAX,
        fraction_field(bits) < HIDDEN_BIT,
        magnitude(bits) == exponent_field(bits) * HIDDEN_BIT + fraction_field(bits),
        is_nan(bits) <==> magnitude(bits) > INFINITY_BITS,
        is_infinite(bits) <==> magnitude(bits) == INFINITY_BITS,
        is_finite(bits) <==> magnitude(bits) < INFINITY_BITS,
        is_zero(bits) <==> magnitude(bits) == 0,
{
}

/// A finite pattern is zero units in size exactly when its magnitude is zero.
pub proof fn lemma_abs_units_zero(bits: u64)
    requires
        is_finite(bits),
    ensures
        abs_units(bits) == 0 <==> magnitude(bits) == 0,
{
    lemma_fields(bits);
    lemma_pow2_pos(scale(bits));
    let s = significand(bits) as int;
    let p = pow2(scale(bits)) as int;
    assert(s == 0 ==> s * p == 0) by (nonlinear_arith);
    assert(s > 0 && p > 0 ==> s * p > 0) by (nonlinear_arith);
}

/// A larger magnitude has a larger size: the values of the format are
/// ordered as their magnitudes are. This holds up to the pattern of infinity,
/// taken as the value after the largest finite one.
pub proof fn lemma_abs_units_increasing(a: u64, b: u64)
    requires
        magnitude(a) < magnitude(b),
    ensures
        abs_units(a) < abs_units(b),
{
    lemma_fields(a);
    lemma_fields(b);
    let sa = significand(a) as int;
    let sb = significand(b) as int;
    let pa = pow2(scale(a)) as int;
    let pb = pow2(scale(b)) as int;
    lemma_pow2_pos(scale(a));
    lemma_pow2_pos(scale(b));
    if scale(a) == scale(b) {
        assert(sa < sb);
        assert(sa < sb && pa > 0 ==> sa * pa < sb * pa) by (nonlinear_arith);
    } else {
        assert(scale(a) < scale(b));
        assert(exponent_field(b) >= 1);
        let next = pow2(scale(a) + 1) as int;
        lemma_pow2_unfold(scale(a) + 1);
        assert(next == 2 * pa);
        if scale(a) + 1 < scale(b) {
            lemma_pow2_strictly_increases(scale(a) + 1, scale(b));
        }
        assert(next <= pb);
        let h = HIDDEN_BIT as int;
        assert(sa < 2 * h);
        assert(sb >= h);
        assert(sa < 2 * h && pa > 0 ==> sa * pa < 2 * h * pa) by (nonlinear_arith);
        assert(2 * h * pa == h * next) by (nonlinear_arith)
            requires
                next == 2 * pa,
        ;
        assert(h * next <= h * pb) by (nonlinear_arith)
            requires
                next <= pb,
                h >= 0,
        ;
        assert(h * pb <= sb * pb) by (nonlinear_arith)
            requires
                h <= sb,
                pb > 0,
        ;
    }
}

/// A finite pattern is known by its value in units and its sign bit.
pub proof fn lemma_pattern_unique(a: u64, b: u64)
    requires
        is_finite(a),
        is_finite(b),
        units(a) == units(b),
        sign_negative(a) == sign_negative(b),
    ensures
        a == b,
{
    lemma_fields(a);
    lemma_fields(b);
    if magnitude(a) < magnitude(b) {
        lemma_abs_units_increasing(a, b);
    }
    if magnitude(b) < magnitude(a) {
        lemma_abs_units_increasing(b, a);
    }
}

/// A pattern is not below zero exactly when it is neither NaN nor has its sign
/// bit set, or is `-0.0`.
pub proof fn lemma_non_negative(bits: u64)
    ensures
        non_negative(bits) <==> (bits <= INFINITY_BITS || bits == SIGN_BIT),
{
    lemma_fields(bits);
    if is_finite(bits) {
        lemma_abs_units_zero(bits);
    }
}

/// The order key orders as the numbers do, and is shared only by patterns that
/// denote the same number.
pub proof fn lemma_order_key(a: u64, b: u64)
    requires
        !is_nan(a),
        !is_nan(b),
    ensures
        less(number(a), number(b)) <==> order_key(a) < order_key(b),
        same(number(a), number(b)) <==> order_key(a) == order_key(b),
{
    lemma_fields(a);
    lemma_fields(b);
    if is_finite(a) && is_finite(b) {
        lemma_abs_units_zero(a);
        lemma_abs_units_zero(b);
        if magnitude(a) < magnitude(b) {
            lemma_abs_units_increasing(a, b);
        }
        if magnitude(b) < magnitude(a) {
            lemma_abs_units_increasing(b, a);
        }
    }
}

} // verus!
