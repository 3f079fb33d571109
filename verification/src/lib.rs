//! Binary64 floating-point values that are guaranteed to be positive or
//! zero.
//!
//! `UnsignedF64` holds a value that has been checked to be `>= 0.0`. Its
//! operations return an `UnsignedF64` again where the result of an operation
//! on values that are positive or zero is positive or zero, and a raw
//! `Binary64` where it may be negative; the contracts state which is which,
//! and `closure` proves it.
//!
//! Values are held as bit patterns of the binary64 format of IEEE 754.
//! `ieee` gives the patterns their meaning, and the arithmetic is defined and
//! proved against that meaning: every result is the exact result, rounded to
//! the nearest value of the format.
pub mod arith;
pub mod binary64;
pub mod closure;
pub mod consts;
pub mod fused;
pub mod ieee;
pub mod integral;
pub mod order;
pub mod positive;
pub mod remainder;
pub mod root;
pub mod rounding;
pub mod unsigned;
pub mod wide;

pub use binary64::Binary64;
pub use positive::PositiveF64;
pub use unsigned::UnsignedF64;
