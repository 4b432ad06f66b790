//! Doubles taken by their bit patterns, and their order.
//!
//! A pattern is a number unless it is a NaN. Among the numbers without sign
//! the order of the doubles is the order of the patterns; among those with the
//! sign bit set it is the reverse; every number with the sign bit set is at
//! most every number without, and the two zeros are at most each other. A NaN
//! is in no order with anything.

use vstd::prelude::*;

verus! {

/// The pattern of positive infinity: the largest number without sign.
pub const POSITIVE_INFINITY: u64 = 0x7FF0_0000_0000_0000;

/// The pattern of negative zero: the first pattern with the sign bit set.
pub const NEGATIVE_ZERO: u64 = 0x8000_0000_0000_0000;

/// The pattern of negative infinity: the last number with the sign bit set.
pub const NEGATIVE_INFINITY: u64 = 0xFFF0_0000_0000_0000;

/// Whether a pattern stands for a number: it is no NaN.
pub open spec fn is_number(bits: u64) -> bool {
    bits <= POSITIVE_INFINITY || (NEGATIVE_ZERO <= bits && bits <= NEGATIVE_INFINITY)
}

/// Whether the first double is at most the second. It is so for no pair that
/// holds a NaN.
pub open spec fn at_most(first: u64, second: u64) -> bool {
    &&& is_number(first)
    &&& is_number(second)
    &&& if first >= NEGATIVE_ZERO {
        second < NEGATIVE_ZERO || first >= second
    } else if second >= NEGATIVE_ZERO {
        first == 0 && second == NEGATIVE_ZERO
    } else {
        first <= second
    }
}

/// Decides whether the first double is at most the second.
pub fn is_at_most(first: u64, second: u64) -> (holds: bool)
    ensures
        holds == at_most(first, second),
{
    let first_is_number = first <= POSITIVE_INFINITY || (NEGATIVE_ZERO <= first && first
        <= NEGATIVE_INFINITY);
    let second_is_number = second <= POSITIVE_INFINITY || (NEGATIVE_ZERO <= second && second
        <= NEGATIVE_INFINITY);
    if !first_is_number || !second_is_number {
        false
    } else if first >= NEGATIVE_ZERO {
        second < NEGATIVE_ZERO || first >= second
    } else if second >= NEGATIVE_ZERO {
        first == 0 && second == NEGATIVE_ZERO
    } else {
        first <= second
    }
}

/// Every number is at most itself.
pub proof fn lemma_at_most_itself(bits: u64)
    requires
        is_number(bits),
    ensures
        at_most(bits, bits),
{
}

/// What is at most a double that is at most a third is at most the third.
pub proof fn lemma_at_most_goes_on(first: u64, second: u64, third: u64)
    requires
        at_most(first, second),
        at_most(second, third),
    ensures
        at_most(first, third),
{
}

/// Among the numbers without sign the order of the doubles is the order of
/// their patterns.
pub proof fn lemma_unsigned_numbers_order_as_patterns(first: u64, second: u64)
    requires
        first <= POSITIVE_INFINITY,
        second <= POSITIVE_INFINITY,
    ensures
        at_most(first, second) <==> first <= second,
{
}

/// A number with the sign bit set, negative zero among them, is at most every
/// number without.
pub proof fn lemma_signed_numbers_come_first(first: u64, second: u64)
    requires
        NEGATIVE_ZERO <= first <= NEGATIVE_INFINITY,
        second <= POSITIVE_INFINITY,
    ensures
        at_most(first, second),
{
}

} // verus!
