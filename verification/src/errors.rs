//! The recoverable failures the coverage core reports to its callers.

use vstd::prelude::*;

verus! {

/// A typed, recoverable failure of the coverage core.
#[derive(Clone, Copy, PartialEq, Eq, Structural, Debug)]
pub enum CoverageError {
    /// A segment without a single point was handed to the interval set.
    InvalidSegment,
    /// A complement was requested over a range whose start lies beyond
    /// its end.
    OutOfBounds,
    /// No row of the search square leaves exactly one point uncovered.
    NoUniqueGap,
}

} // verus!
