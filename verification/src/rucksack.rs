//! Rucksack compartments: split a line in half, collect the distinct
//! items of each side, and price the item both sides share.

use vstd::prelude::*;
use vstd::string::StrSliceExecFns;

verus! {

/// An item letter: one of `a`..`z` or `A`..`Z`.
pub open spec fn is_item(c: char) -> bool {
    ('a' <= c && c <= 'z') || ('A' <= c && c <= 'Z')
}

/// The priority of an item letter: 1 to 26 for the lower case letters,
/// 27 to 52 for the upper case ones.
pub open spec fn item_priority(c: char) -> int {
    if 'a' <= c && c <= 'z' {
        c as int - 'a' as int + 1
    } else {
        c as int - 'A' as int + 27
    }
}

/// Price one item letter.
pub fn get_item_priority(item: char) -> (r: i32)
    requires
        is_item(item),
    ensures
        r == item_priority(item),
{
    if item >= 'a' && item <= 'z' {
        (item as i32) - ('a' as i32) + 1
    } else {
        (item as i32) - ('A' as i32) + 27
    }
}

/// Split a line into its two halves.
pub fn split_line(line: &str) -> (r: (&str, &str))
    ensures
        r.0@ == line@.subrange(0, line@.len() as int / 2),
        r.1@ == line@.subrange(line@.len() as int / 2, line@.len() as int),
{
    let len = line.unicode_len();
    let half = len / 2;
    let first_slice = line.substring_char(0, half);
    let second_slice = line.substring_char(half, len);
    (first_slice, second_slice)
}

/// Whether the vector holds no letter twice.
pub open spec fn no_dups(s: Seq<char>) -> bool {
    forall|i: int, j: int| 0 <= i < j < s.len() ==> s[i] != s[j]
}

/// Whether the vector holds the letter.
pub fn contains_char(set: &Vec<char>, c: char) -> (r: bool)
    ensures
        r == set@.contains(c),
{
    let n = set.len();
    let mut i: usize = 0;
    while i < n
        invariant
            0 <= i <= n,
            n == set@.len(),
            forall|j: int| 0 <= j < i ==> set@[j] != c,
        decreases n - i,
    {
        if set[i] == c {
            return true;
        }
        i = i + 1;
    }
    false
}

/// Collect the distinct letters of a line.
pub fn str_to_set(line: &str) -> (set: Vec<char>)
    ensures
        no_dups(set@),
        forall|c: char| set@.contains(c) <==> line@.contains(c),
{
    let len = line.unicode_len();
    let mut set: Vec<char> = Vec::new();
    let mut i: usize = 0;
    while i < len
        invariant
            0 <= i <= len,
            len == line@.len(),
            no_dups(set@),
            forall|c: char| set@.contains(c) <==> line@.subrange(0, i as int).contains(c),
        decreases len - i,
    {
        let c = line.get_char(i);
        let ghost before = set@;
        if !contains_char(&set, c) {
            set.push(c);
        }
        proof {
            assert forall|cc: char| set@.contains(cc) <==> line@.subrange(0, i + 1).contains(
                cc,
            ) by {
                let prefix = line@.subrange(0, i as int);
                let longer = line@.subrange(0, i + 1);
                assert(longer =~= prefix.push(line@[i as int]));
                if set@.contains(cc) {
                    if before.contains(cc) {
                        assert(prefix.contains(cc));
                        let j = choose|j: int| 0 <= j < prefix.len() && prefix[j] == cc;
                        assert(longer[j] == cc);
                    } else {
                        assert(cc == c);
                        assert(longer[i as int] == cc);
                    }
                }
                if longer.contains(cc) {
                    let j = choose|j: int| 0 <= j < longer.len() && longer[j] == cc;
                    if j < i as int {
                        assert(prefix[j] == cc);
                        assert(before.contains(cc));
                        let k = choose|k: int| 0 <= k < before.len() && before[k] == cc;
                        assert(set@.contains(set@[k]));
                    } else {
                        assert(cc == line@[i as int]);
                        if before.contains(c) {
                            let k = choose|k: int| 0 <= k < before.len() && before[k] == c;
                            assert(set@.contains(set@[k]));
                        } else {
                            assert(set@.last() == c);
                            assert(set@.contains(set@[set@.len() - 1]));
                        }
                    }
                }
            }
        }
        i = i + 1;
    }
    proof {
        assert(line@.subrange(0, len as int) =~= line@);
    }
    set
}

/// Find the first letter of the right compartment that the left one
/// also holds.
pub fn find_duplicate(left_compartment: &Vec<char>, right_compartment: &str) -> (r: char)
    requires
        exists|j: int|
            0 <= j < right_compartment@.len() && left_compartment@.contains(
                #[trigger] right_compartment@[j],
            ),
    ensures
        left_compartment@.contains(r),
        right_compartment@.contains(r),
{
    let len = right_compartment.unicode_len();
    let mut i: usize = 0;
    while i < len
        invariant
            0 <= i <= len,
            len == right_compartment@.len(),
            exists|j: int|
                0 <= j < right_compartment@.len() && left_compartment@.contains(
                    #[trigger] right_compartment@[j],
                ),
            forall|j: int| 0 <= j < i ==> !left_compartment@.contains(
                #[trigger] right_compartment@[j],
            ),
        decreases len - i,
    {
        let c = right_compartment.get_char(i);
        if contains_char(left_compartment, c) {
            proof {
                assert(right_compartment@[i as int] == c);
            }
            return c;
        }
        i = i + 1;
    }
    proof {
        let j = choose|j: int|
            0 <= j < right_compartment@.len() && left_compartment@.contains(
                #[trigger] right_compartment@[j],
            );
        assert(false);
    }
    ' '
}

} // verus!
