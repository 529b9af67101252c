//! Whether two closed ranges of section numbers overlap.

use vstd::prelude::*;

verus! {

/// Whether the closed ranges `[first_start, first_stop]` and
/// `[second_start, second_stop]` share a section.
pub fn ranges_overlap(
    first_start: i32,
    first_stop: i32,
    second_start: i32,
    second_stop: i32,
) -> (r: bool)
    ensures
        r == ((first_start <= second_start && first_stop >= second_start) || (second_start
            <= first_start && second_stop >= first_start)),
{
    (first_start <= second_start && first_stop >= second_start) || (second_start <= first_start
        && second_stop >= first_start)
}

} // verus!
