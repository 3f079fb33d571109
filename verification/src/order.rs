//! The comparisons of the binary64 format as values of `Ordering`.
use vstd::prelude::*;
use core::cmp::Ordering;
use crate::ieee::less;
use crate::ieee::Number;
use crate::ieee::same;
use crate::ieee::total_order_key;

verus! {

/// How two numbers compare under the standard: `None` where either is NaN.
pub open spec fn compare(a: Number, b: Number) -> Option<Ordering> {
    if less(a, b) {
        Some(Ordering::Less)
    } else if same(a, b) {
        Some(Ordering::Equal)
    } else if less(b, a) {
        Some(Ordering::Greater)
    } else {
        None
    }
}

/// How two patterns compare under the total order of the standard, which
/// tells apart every two patterns that differ.
pub open spec fn total_order(a: u64, b: u64) -> Ordering {
    if total_order_key(a) < total_order_key(b) {
        Ordering::Less
    } else if total_order_key(a) == total_order_key(b) {
        Ordering::Equal
    } else {
        Ordering::Greater
    }
}

/// Two numbers compare as equal, less or greater exactly when neither is NaN,
/// and then in one way only.
pub proof fn law_compare_matches_order(a: Number, b: Number)
    ensures
        compare(a, b) is None <==> (a == Number::Nan || b == Number::Nan),
        compare(a, b) == Some(Ordering::Less) <==> less(a, b),
        compare(a, b) == Some(Ordering::Equal) <==> same(a, b),
        compare(a, b) == Some(Ordering::Greater) <==> less(b, a),
{
}

/// The total order sets two patterns equal only where they are the same
/// pattern.
pub proof fn law_total_order_tells_patterns_apart(a: u64, b: u64)
    ensures
        total_order(a, b) == Ordering::Equal <==> a == b,
{
}

} // verus!
