//! The start-of-message marker: the first position whose preceding
//! window of characters holds no repeats.

use vstd::prelude::*;
use vstd::string::StrSliceExecFns;

verus! {

/// How many distinct characters in a row mark the start of a message.
pub const MARKER_SIZE: usize = 14;

/// All characters of the sequence differ from one another.
pub open spec fn all_distinct(s: Seq<char>) -> bool {
    forall|a: int, b: int| 0 <= a < b < s.len() ==> s[a] != s[b]
}

/// Whether the window of the marker size that ends at `pos` consists of
/// distinct characters; positions too early in the line never qualify.
pub fn predicate(line: &str, pos: usize) -> (r: Option<usize>)
    requires
        pos <= line@.len(),
    ensures
        r is Some <==> (pos > MARKER_SIZE && line@.len() > MARKER_SIZE && all_distinct(
            line@.subrange(pos - MARKER_SIZE, pos as int),
        )),
        r is Some ==> r->Some_0 == pos,
{
    if pos <= MARKER_SIZE {
        return None;
    }
    if line.unicode_len() <= MARKER_SIZE {
        return None;
    }
    let ghost win = line@.subrange(pos - MARKER_SIZE, pos as int);
    let lo = pos - MARKER_SIZE;
    let mut i: usize = 0;
    while i < MARKER_SIZE
        invariant
            MARKER_SIZE < pos <= line@.len(),
            lo == pos - MARKER_SIZE,
            win == line@.subrange(pos - MARKER_SIZE, pos as int),
            0 <= i <= MARKER_SIZE,
            forall|a: int, b: int| 0 <= a < i && a < b < MARKER_SIZE ==> win[a] != win[b],
        decreases MARKER_SIZE - i,
    {
        let c = line.get_char(lo + i);
        proof {
            assert(win[i as int] == line@[lo + i]);
        }
        let mut j: usize = i + 1;
        while j < MARKER_SIZE
            invariant
                MARKER_SIZE < pos <= line@.len(),
                lo == pos - MARKER_SIZE,
                win == line@.subrange(pos - MARKER_SIZE, pos as int),
                0 <= i < j <= MARKER_SIZE,
                c == win[i as int],
                forall|b: int| i < b < j ==> win[i as int] != win[b],
            decreases MARKER_SIZE - j,
        {
            let d = line.get_char(lo + j);
            proof {
                assert(win[j as int] == line@[lo + j]);
            }
            if c == d {
                return None;
            }
            j = j + 1;
        }
        i = i + 1;
    }
    Some(pos)
}

} // verus!
