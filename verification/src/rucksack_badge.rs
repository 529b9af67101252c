//! The badge of a group of rucksacks: the item letter that every bag of
//! the group holds.

use vstd::prelude::*;

use crate::rucksack::contains_char;

verus! {

/// Whether every listed bag holds the letter.
pub open spec fn all_contain(sets: Seq<Vec<char>>, c: char) -> bool {
    forall|i: int| 0 <= i < sets.len() ==> (#[trigger] sets[i])@.contains(c)
}

/// Whether every listed bag holds the letter, checked bag by bag.
fn contained_in_all(sets: &Vec<Vec<char>>, c: char) -> (r: bool)
    ensures
        r == all_contain(sets@, c),
{
    let n = sets.len();
    let mut i: usize = 0;
    while i < n
        invariant
            0 <= i <= n,
            n == sets@.len(),
            forall|j: int| 0 <= j < i ==> (#[trigger] sets@[j])@.contains(c),
        decreases n - i,
    {
        if !contains_char(&sets[i], c) {
            return false;
        }
        i = i + 1;
    }
    true
}

/// Find a letter that all bags of the group share, scanning the letters
/// of the last bag.
pub fn find_badge(compartments: &Vec<Vec<char>>) -> (r: char)
    requires
        compartments@.len() >= 1,
        exists|c: char| all_contain(compartments@, c),
    ensures
        all_contain(compartments@, r),
{
    let n = compartments.len();
    let m = compartments[n - 1].len();
    let mut i: usize = 0;
    while i < m
        invariant
            0 <= i <= m,
            n == compartments@.len(),
            n >= 1,
            m == compartments@[n - 1].len(),
            exists|c: char| all_contain(compartments@, c),
            forall|j: int|
                0 <= j < i ==> !all_contain(compartments@, (#[trigger] compartments@[n - 1]@[j])),
        decreases m - i,
    {
        let c = compartments[n - 1][i];
        if contained_in_all(compartments, c) {
            return c;
        }
        i = i + 1;
    }
    proof {
        let c = choose|c: char| all_contain(compartments@, c);
        assert(compartments@[n - 1]@.contains(c));
        let j = choose|j: int|
            0 <= j < compartments@[n - 1]@.len() && (#[trigger] compartments@[n - 1]@[j]) == c;
        assert(false);
    }
    ' '
}

} // verus!
