//! From escape-time results to pixel intensities.
//!
//! The escape-time evaluator reports, for one point of the plane, either
//! the iteration at which the orbit's squared magnitude first exceeded the
//! divergence threshold, or that it stayed bounded for the whole budget.
//! The iteration budget and the intensity ceiling are distinct parameters
//! that happen to share the value 255.

use vstd::prelude::*;

verus! {

/// How many iterations of `z := z * z + c` the evaluator may spend on one
/// point before declaring it bounded.
pub const ITERATION_LIMIT: u32 = 255;

/// The brightest intensity: the value of a pixel whose point escapes on the
/// very first iteration.
pub const INTENSITY_CEILING: u8 = 255;

/// The intensity a given escape-time result is drawn with: a point that
/// never escaped is black, and a point that escaped at iteration `i` is
/// brighter the smaller `i` is.
pub open spec fn spec_intensity(escape: Option<u32>) -> u8
    recommends
        escape matches Some(i) ==> i < ITERATION_LIMIT,
{
    match escape {
        Option::None => 0u8,
        Option::Some(i) => (INTENSITY_CEILING - i) as u8,
    }
}

/// Maps one escape-time result to its pixel intensity.
pub fn intensity(escape: Option<u32>) -> (r: u8)
    requires
        escape matches Some(i) ==> i < ITERATION_LIMIT,
    ensures
        r == spec_intensity(escape),
        escape is None ==> r == 0,
        escape matches Some(i) ==> r == INTENSITY_CEILING - i,
        escape is Some ==> 0 < r,
{
    match escape {
        None => 0,
        Some(i) => INTENSITY_CEILING - (i as u8),
    }
}

} // verus!
