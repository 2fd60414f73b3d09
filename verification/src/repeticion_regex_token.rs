//! The repetition range of a token.

use vstd::prelude::*;

verus! {

/// How many times in a row a token may match.
///
/// Each bound is optional: `None` means the range is unbounded on that side.
/// During matching a missing lower bound behaves as zero.
#[derive(Debug, PartialEq, Eq, Clone, Copy)]
pub struct RepeticionRegexToken {
    pub min: Option<usize>,
    pub max: Option<usize>,
}

impl RepeticionRegexToken {
    /// Builds a repetition range from its two optional bounds.
    pub fn new(min: Option<usize>, max: Option<usize>) -> (r: Self)
        ensures
            r.min == min,
            r.max == max,
    {
        Self { min, max }
    }

    /// The lower bound of the range.
    pub fn min(&self) -> (r: Option<usize>)
        ensures
            r == self.min,
    {
        self.min
    }

    /// The upper bound of the range.
    pub fn max(&self) -> (r: Option<usize>)
        ensures
            r == self.max,
    {
        self.max
    }
}

} // verus!
