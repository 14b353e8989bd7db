//! The caps on acceleration and speed.
//!
//! Lengths and limits are ordered keys, as in the neighbour search: unsigned
//! integers that compare as the measured lengths do, with key zero standing
//! for length zero. What is decided here is the length a vector is rescaled
//! to; the rescaling itself keeps the vector's direction.

use vstd::prelude::*;

verus! {

/// The smaller of a length and a limit.
pub open spec fn capped(length: u32, limit: u32) -> u32 {
    if length <= limit {
        length
    } else {
        limit
    }
}

/// Decides how a vector of length `length` is rescaled under `limit`: one of
/// length zero has no direction and is left as it is (`None`); any other
/// gets the smaller of its own length and the limit.
pub fn capped_length(length: u32, limit: u32) -> (target: Option<u32>)
    ensures
        target == if length == 0 {
            None
        } else {
            Some(capped(length, limit))
        },
        target matches Some(rescaled) ==> rescaled <= limit && rescaled <= length,
{
    if length == 0 {
        None
    } else if length <= limit {
        Some(length)
    } else {
        Some(limit)
    }
}

/// No capped length exceeds the limit, one within the limit is unchanged,
/// and capping twice is capping once.
pub proof fn lemma_capped(length: u32, limit: u32)
    ensures
        capped(length, limit) <= limit,
        length <= limit ==> capped(length, limit) == length,
        capped(capped(length, limit), limit) == capped(length, limit),
{
}

} // verus!
