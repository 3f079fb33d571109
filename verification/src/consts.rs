//! Bit patterns of the mathematical constants of the binary64 format. Each is
//! the pattern of the binary64 value nearest to the constant it is named for.
use vstd::prelude::*;

verus! {

/// Archimedes' constant, the ratio of a circle's circumference to its diameter.
pub const PI: u64 = 0x4009_21FB_5444_2D18;

/// Euler's number.
pub const E: u64 = 0x4005_BF0A_8B14_5769;

/// 1 / pi.
pub const FRAC_1_PI: u64 = 0x3FD4_5F30_6DC9_C883;

/// 1 / sqrt(2).
pub const FRAC_1_SQRT_2: u64 = 0x3FE6_A09E_667F_3BCD;

/// 2 / pi.
pub const FRAC_2_PI: u64 = 0x3FE4_5F30_6DC9_C883;

/// 2 / sqrt(pi).
pub const FRAC_2_SQRT_PI: u64 = 0x3FF2_0DD7_5042_9B6D;

/// pi / 2.
pub const FRAC_PI_2: u64 = 0x3FF9_21FB_5444_2D18;

/// pi / 3.
pub const FRAC_PI_3: u64 = 0x3FF0_C152_382D_7366;

/// pi / 4.
pub const FRAC_PI_4: u64 = 0x3FE9_21FB_5444_2D18;

/// pi / 6.
pub const FRAC_PI_6: u64 = 0x3FE0_C152_382D_7366;

/// pi / 8.
pub const FRAC_PI_8: u64 = 0x3FD9_21FB_5444_2D18;

/// The natural logarithm of 10.
pub const LN_10: u64 = 0x4002_6BB1_BBB5_5516;

/// The natural logarithm of 2.
pub const LN_2: u64 = 0x3FE6_2E42_FEFA_39EF;

/// The logarithm of e to base 10.
pub const LOG10_E: u64 = 0x3FDB_CB7B_1526_E50E;

/// The logarithm of e to base 2.
pub const LOG2_E: u64 = 0x3FF7_1547_652B_82FE;

/// The square root of 2.
pub const SQRT_2: u64 = 0x3FF6_A09E_667F_3BCD;

/// The full circle constant, 2 * pi.
pub const TAU: u64 = 0x4019_21FB_5444_2D18;

/// The machine epsilon: the difference between 1.0 and the next larger value.
pub const EPSILON: u64 = 0x3CB0_0000_0000_0000;

/// Positive infinity.
pub const INFINITY: u64 = 0x7FF0_0000_0000_0000;

/// Positive zero, the additive identity.
pub const ZERO: u64 = 0x0000_0000_0000_0000;

/// One, the multiplicative identity.
pub const ONE: u64 = 0x3FF0_0000_0000_0000;

} // verus!
