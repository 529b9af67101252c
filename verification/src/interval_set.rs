//! A coalescing set of disjoint, non-adjacent integer segments.
//!
//! The set is kept in normal form at all times: entries are sorted by
//! start coordinate and no two stored segments overlap or even touch.
//! Every mutation states how it changes the set of covered coordinates,
//! and the normal form makes that set a unique representation.

use vstd::prelude::*;

use crate::geometry::Segment;
use crate::geometry::seg_contains;
use crate::geometry::seg_end;
use crate::geometry::seg_valid;

verus! {

/// Whether some entry with index in `[lo, hi)` covers coordinate `x`.
pub open spec fn seq_covers_range(s: Seq<Segment>, lo: int, hi: int, x: int) -> bool {
    exists|j: int| lo <= j < hi && seg_contains(#[trigger] s[j], x)
}

/// Whether any entry of `s` covers coordinate `x`.
pub open spec fn seq_covers(s: Seq<Segment>, x: int) -> bool {
    seq_covers_range(s, 0, s.len() as int, x)
}

/// Normal form: every entry is a valid segment, and entries are sorted
/// with a gap of at least one uncovered point between any two of them.
pub open spec fn wf_entries(s: Seq<Segment>) -> bool {
    &&& forall|i: int| 0 <= i < s.len() ==> seg_valid(#[trigger] s[i])
    &&& forall|i: int, j: int| 0 <= i < j < s.len() ==> seg_end(#[trigger] s[i]) < (
    #[trigger] s[j]).start
}

/// A coalescing set of disjoint, non-adjacent segments in normal form.
pub struct Segments {
    pub map: Vec<Segment>,
}

impl Segments {
    /// The normal-form invariant of the stored entries.
    pub open spec fn wf(self) -> bool {
        wf_entries(self.map@)
    }

    /// Whether coordinate `x` is covered by some stored segment.
    pub open spec fn covers(self, x: int) -> bool {
        seq_covers(self.map@, x)
    }

    /// The set of all covered coordinates.
    pub open spec fn covered_set(self) -> Set<int> {
        Set::new(|x: int| self.covers(x))
    }

    /// An empty set: nothing is covered.
    pub fn new() -> (s: Segments)
        ensures
            s.wf(),
            forall|x: int| !s.covers(x),
    {
        Segments { map: Vec::new() }
    }
}

impl Default for Segments {
    /// The empty set.
    fn default() -> (s: Segments)
        ensures
            s.wf(),
            forall|x: int| !s.covers(x),
    {
        Segments::new()
    }
}

/// The exclusive right edge of a segment, computed in a width that can
/// hold every `start + length`.
fn seg_end_i128(s: &Segment) -> (e: i128)
    ensures
        e == seg_end(*s),
{
    (s.start as i128) + (s.length as i128)
}

impl Segments {
    /// Insert a segment, merging it with every stored segment it overlaps
    /// or touches, so that the set stays in normal form.  Re-adding an
    /// already covered segment leaves the visible mapping unchanged.
    #[verifier::rlimit(60)]
    pub fn add_segment(&mut self, segment: Segment)
        requires
            old(self).wf(),
            seg_valid(segment),
        ensures
            final(self).wf(),
            forall|x: int|
                #![trigger final(self).covers(x)]
                final(self).covers(x) <==> old(self).covers(x) || seg_contains(segment, x),
    {
        let ghost orig = self.map@;
        let n = self.map.len();
        let mut out: Vec<Segment> = Vec::new();
        let mut i: usize = 0;
        while i < n && seg_end_i128(&self.map[i]) < (segment.start as i128)
            invariant
                self.map@ == orig,
                wf_entries(orig),
                seg_valid(segment),
                n == orig.len(),
                0 <= i <= n,
                out@ == orig.subrange(0, i as int),
                forall|j: int| 0 <= j < i ==> seg_end(#[trigger] orig[j]) < segment.start,
            decreases n - i,
        {
            let e = self.map[i];
            out.push(e);
            proof {
                assert(out@ =~= orig.subrange(0, i + 1));
            }
            i = i + 1;
        }
        let ghost p = i as int;
        let mut new_start: i128 = segment.start as i128;
        let mut new_end: i128 = seg_end_i128(&segment);
        while i < n && (self.map[i].start as i128) <= new_end
            invariant
                self.map@ == orig,
                wf_entries(orig),
                seg_valid(segment),
                n == orig.len(),
                0 <= p <= i <= n,
                out@ == orig.subrange(0, p),
                forall|j: int| 0 <= j < p ==> seg_end(#[trigger] orig[j]) < segment.start,
                p < n ==> seg_end(orig[p]) >= segment.start,
                i == p ==> new_start == segment.start && new_end == seg_end(segment),
                isize::MIN <= new_start <= segment.start,
                seg_end(segment) <= new_end <= isize::MAX,
                forall|j: int|
                    p <= j < i ==> new_start <= (#[trigger] orig[j]).start && seg_end(orig[j])
                        <= new_end,
                forall|x: int|
                    #![trigger seg_contains(segment, x)]
                    (new_start <= x < new_end) <==> (seg_contains(segment, x)
                        || seq_covers_range(orig, p, i as int, x)),
            decreases n - i,
        {
            let ghost ns0 = new_start as int;
            let ghost ne0 = new_end as int;
            let s_i = self.map[i].start as i128;
            let e_i = seg_end_i128(&self.map[i]);
            proof {
                // the incoming entry overlaps or touches the merged window
                if i as int > p {
                    assert(new_start <= orig[i as int - 1].start);
                    assert(seg_end(orig[i as int - 1]) < orig[i as int].start);
                }
                assert(e_i >= ns0);
            }
            if s_i < new_start {
                new_start = s_i;
            }
            if e_i > new_end {
                new_end = e_i;
            }
            proof {
                assert forall|x: int|
                    (new_start <= x < new_end) <==> (#[trigger] seg_contains(segment, x)
                        || seq_covers_range(orig, p, i + 1, x)) by {
                    if new_start <= x < new_end {
                        if ns0 <= x < ne0 {
                            if !seg_contains(segment, x) {
                                let j = choose|j: int|
                                    p <= j < i && seg_contains(#[trigger] orig[j], x);
                                assert(p <= j < i + 1 && seg_contains(orig[j], x));
                            }
                        } else {
                            assert(seg_contains(orig[i as int], x));
                        }
                    }
                    if seq_covers_range(orig, p, i + 1, x) {
                        let j = choose|j: int| p <= j < i + 1 && seg_contains(#[trigger] orig[j], x);
                        if j < i {
                            assert(ns0 <= orig[j].start && seg_end(orig[j]) <= ne0);
                        }
                        assert(new_start <= x < new_end);
                    }
                }
            }
            i = i + 1;
        }
        let ghost m = i as int;
        let merged = Segment {
            start: new_start as isize,
            length: (new_end - new_start) as usize,
        };
        proof {
            assert(seg_valid(merged));
            assert(seg_contains(merged, new_start as int));
        }
        out.push(merged);
        let ghost mid = out@;
        proof {
            assert(mid =~= orig.subrange(0, p) + seq![merged]);
        }
        while i < n
            invariant
                self.map@ == orig,
                n == orig.len(),
                0 <= p <= m <= i <= n,
                out@ == mid + orig.subrange(m, i as int),
                mid == orig.subrange(0, p) + seq![merged],
            decreases n - i,
        {
            let e = self.map[i];
            out.push(e);
            proof {
                assert(orig.subrange(m, i + 1) =~= orig.subrange(m, i as int).push(orig[i as int]));
                assert(out@ =~= mid + orig.subrange(m, i + 1));
            }
            i = i + 1;
        }
        proof {
            // exiting the merge loop means the rest starts beyond the window
            assert(m < n ==> orig[m].start > new_end);
        }
        self.map = out;
        proof {
            let fin = self.map@;
            assert(fin == orig.subrange(0, p) + seq![merged] + orig.subrange(m, n as int));
            assert forall|i1: int, j1: int| 0 <= i1 < j1 < fin.len() implies seg_end(
                #[trigger] fin[i1],
            ) < (#[trigger] fin[j1]).start by {
                if i1 < p {
                    assert(fin[i1] == orig[i1]);
                }
                if j1 < p {
                    assert(fin[j1] == orig[j1]);
                }
                if i1 > p {
                    assert(fin[i1] == orig[i1 - p - 1 + m]);
                }
                if j1 > p {
                    assert(fin[j1] == orig[j1 - p - 1 + m]);
                }
                if i1 < p && j1 == p {
                    // prefix entries end before both the segment and every
                    // absorbed entry, hence before the merged start
                    if new_start < segment.start {
                        assert(!seg_contains(segment, new_start as int));
                        assert(seq_covers_range(orig, p, m, new_start as int));
                        let j = choose|j: int|
                            p <= j < m && seg_contains(#[trigger] orig[j], new_start as int);
                        assert(orig[j].start >= new_start);
                        assert(seg_end(orig[i1]) < orig[j].start);
                    }
                }
                if i1 == p && j1 > p {
                    let jj = j1 - p - 1 + m;
                    if jj > m {
                        assert(seg_end(orig[m]) < orig[jj].start);
                    }
                }
            }
            assert(wf_entries(fin));
            assert forall|x: int| #[trigger]
                seq_covers(fin, x) <==> seq_covers(orig, x) || seg_contains(segment, x) by {
                assert(seg_contains(segment, x) ==> new_start <= x < new_end);
                if seq_covers(fin, x) {
                    let j = choose|j: int| 0 <= j < fin.len() && seg_contains(#[trigger] fin[j], x);
                    if j < p {
                        assert(seg_contains(orig[j], x));
                    } else if j == p {
                        assert(new_start <= x < new_end);
                        if !seg_contains(segment, x) {
                            let k = choose|k: int|
                                p <= k < m && seg_contains(#[trigger] orig[k], x);
                            assert(seg_contains(orig[k], x));
                        }
                    } else {
                        assert(seg_contains(orig[j - p - 1 + m], x));
                    }
                }
                if seg_contains(segment, x) {
                    assert(seg_contains(fin[p], x));
                }
                if seq_covers(orig, x) {
                    let j = choose|j: int| 0 <= j < orig.len() && seg_contains(#[trigger] orig[j], x);
                    if j < p {
                        assert(seg_contains(fin[j], x));
                    } else if j < m {
                        assert(seq_covers_range(orig, p, m, x));
                        assert(seg_contains(fin[p], x));
                    } else {
                        assert(seg_contains(fin[j - m + p + 1], x));
                    }
                }
            }
        }
    }
    /// Insert a segment after checking it, rejecting one that holds no
    /// point or whose right edge leaves machine range.
    pub fn try_add_segment(&mut self, segment: Segment) -> (r: Result<
        (),
        crate::errors::CoverageError,
    >)
        requires
            old(self).wf(),
        ensures
            final(self).wf(),
            r is Ok <==> seg_valid(segment),
            r is Err ==> *final(self) == *old(self) && r->Err_0
                == crate::errors::CoverageError::InvalidSegment,
            r is Ok ==> forall|x: int|
                #![trigger final(self).covers(x)]
                final(self).covers(x) <==> old(self).covers(x) || seg_contains(segment, x),
    {
        if segment.length >= 1 && (segment.start as i128) + (segment.length as i128) <= (
        isize::MAX as i128) {
            self.add_segment(segment);
            Ok(())
        } else {
            Err(crate::errors::CoverageError::InvalidSegment)
        }
    }

    /// Compute the complement after checking the range, rejecting one
    /// whose start lies beyond its end.
    pub fn try_get_inverse_on_range(&self, start: isize, end: isize) -> (r: Result<
        Segments,
        crate::errors::CoverageError,
    >)
        requires
            self.wf(),
            end < isize::MAX,
        ensures
            r is Ok <==> start <= end,
            r is Err ==> r->Err_0 == crate::errors::CoverageError::OutOfBounds,
            r is Ok ==> r->Ok_0.wf() && forall|x: int|
                #![trigger r->Ok_0.covers(x)]
                r->Ok_0.covers(x) <==> (start <= x <= end && !self.covers(x)),
    {
        if start <= end {
            Ok(self.get_inverse_on_range(start, end))
        } else {
            Err(crate::errors::CoverageError::OutOfBounds)
        }
    }

    /// Remove the single coordinate `pos` from whichever stored segment
    /// contains it; a no-op when `pos` is not covered.
    #[verifier::rlimit(60)]
    pub fn remove_dot(&mut self, pos: isize)
        requires
            old(self).wf(),
        ensures
            final(self).wf(),
            forall|x: int|
                #![trigger final(self).covers(x)]
                final(self).covers(x) <==> old(self).covers(x) && x != pos,
    {
        let ghost orig = self.map@;
        let n = self.map.len();
        let mut i: usize = 0;
        while i < n && !(self.map[i].start <= pos && (pos as i128) < seg_end_i128(&self.map[i]))
            invariant
                self.map@ == orig,
                wf_entries(orig),
                n == orig.len(),
                0 <= i <= n,
                forall|j: int| 0 <= j < i ==> !seg_contains(#[trigger] orig[j], pos as int),
            decreases n - i,
        {
            i = i + 1;
        }
        if i == n {
            proof {
                assert(forall|x: int|
                    #![trigger seq_covers(orig, x)]
                    seq_covers(orig, x) ==> x != pos);
            }
            return ;
        }
        let e = self.map[i];
        proof {
            assert(seg_contains(e, pos as int));
        }
        if e.length == 1 {
            self.map.remove(i);
            proof {
                let fin = self.map@;
                assert(fin == orig.remove(i as int));
                assert forall|i1: int, j1: int| 0 <= i1 < j1 < fin.len() implies seg_end(
                    #[trigger] fin[i1],
                ) < (#[trigger] fin[j1]).start by {
                    let oi = if i1 < i as int { i1 } else { i1 + 1 };
                    let oj = if j1 < i as int { j1 } else { j1 + 1 };
                    assert(fin[i1] == orig[oi] && fin[j1] == orig[oj]);
                }
                assert forall|x: int| #[trigger]
                    seq_covers(fin, x) <==> seq_covers(orig, x) && x != pos by {
                    if seq_covers(fin, x) {
                        let j = choose|j: int| 0 <= j < fin.len() && seg_contains(#[trigger] fin[j], x);
                        let oj = if j < i as int { j } else { j + 1 };
                        assert(seg_contains(orig[oj], x));
                        assert(oj != i ==> x != pos);
                    }
                    if seq_covers(orig, x) && x != pos {
                        let j = choose|j: int| 0 <= j < orig.len() && seg_contains(#[trigger] orig[j], x);
                        if j < i as int {
                            assert(seg_contains(fin[j], x));
                        } else if j > i as int {
                            assert(seg_contains(fin[j - 1], x));
                        }
                    }
                }
            }
        } else if pos == e.start {
            let shrunk = Segment { start: e.start + 1, length: e.length - 1 };
            self.map[i] = shrunk;
            proof {
                lemma_replace_entry(orig, i as int, shrunk, pos as int);
            }
        } else if (pos as i128) == seg_end_i128(&e) - 1 {
            let shrunk = Segment { start: e.start, length: e.length - 1 };
            self.map[i] = shrunk;
            proof {
                lemma_replace_entry(orig, i as int, shrunk, pos as int);
            }
        } else {
            let first_length = ((pos as i128) - (e.start as i128)) as usize;
            let second_length = ((seg_end_i128(&e) - (pos as i128)) - 1) as usize;
            let first = Segment { start: e.start, length: first_length };
            let second = Segment { start: pos + 1, length: second_length };
            self.map[i] = first;
            self.map.insert(i + 1, second);
            proof {
                let fin = self.map@;
                assert(fin == orig.update(i as int, first).insert(i + 1, second));
                assert(seg_end(second) == seg_end(e));
                assert forall|i1: int, j1: int| 0 <= i1 < j1 < fin.len() implies seg_end(
                    #[trigger] fin[i1],
                ) < (#[trigger] fin[j1]).start by {
                    let oi = if i1 <= i as int { i1 } else { i1 - 1 };
                    let oj = if j1 <= i as int { j1 } else { j1 - 1 };
                    assert(i1 < i ==> fin[i1] == orig[oi]);
                    assert(j1 > i + 1 ==> fin[j1] == orig[oj]);
                }
                assert(wf_entries(fin));
                assert forall|x: int| #[trigger]
                    seq_covers(fin, x) <==> seq_covers(orig, x) && x != pos by {
                    if seq_covers(fin, x) {
                        let j = choose|j: int| 0 <= j < fin.len() && seg_contains(#[trigger] fin[j], x);
                        if j < i as int {
                            assert(seg_contains(orig[j], x));
                        } else if j == i as int || j == i + 1 {
                            assert(seg_contains(orig[i as int], x));
                        } else {
                            assert(seg_contains(orig[j - 1], x));
                        }
                    }
                    if seq_covers(orig, x) && x != pos {
                        let j = choose|j: int| 0 <= j < orig.len() && seg_contains(#[trigger] orig[j], x);
                        if j < i as int {
                            assert(seg_contains(fin[j], x));
                        } else if j == i as int {
                            if x < pos {
                                assert(seg_contains(fin[i as int], x));
                            } else {
                                assert(seg_contains(fin[i + 1], x));
                            }
                        } else {
                            assert(seg_contains(fin[j + 1], x));
                        }
                    }
                }
            }
        }
    }
}

/// The total number of points of the entries, as a mathematical integer.
pub open spec fn sum_lens(s: Seq<Segment>) -> int
    decreases s.len(),
{
    if s.len() == 0 {
        0
    } else {
        sum_lens(s.drop_last()) + s.last().length
    }
}

/// In normal form the stored segments are pairwise disjoint, so the
/// covered set is finite and its size is the sum of the lengths.
pub proof fn lemma_covered_card(s: Seq<Segment>)
    requires
        wf_entries(s),
    ensures
        Set::new(|x: int| seq_covers(s, x)).finite(),
        Set::new(|x: int| seq_covers(s, x)).len() == sum_lens(s),
    decreases s.len(),
{
    let cs = Set::new(|x: int| seq_covers(s, x));
    if s.len() == 0 {
        assert(cs =~= Set::<int>::empty());
    } else {
        let t = s.drop_last();
        assert(wf_entries(t)) by {
            assert(forall|i: int| 0 <= i < t.len() ==> t[i] == s[i]);
        }
        lemma_covered_card(t);
        let ct = Set::new(|x: int| seq_covers(t, x));
        let last = s.last();
        let pl = vstd::set_lib::set_int_range(last.start as int, seg_end(last));
        vstd::set_lib::lemma_int_range(last.start as int, seg_end(last));
        assert(cs =~= ct + pl) by {
            assert forall|x: int| #[trigger] cs.contains(x) implies ct.contains(x) || pl.contains(
                x,
            ) by {
                let j = choose|j: int| 0 <= j < s.len() && seg_contains(#[trigger] s[j], x);
                if j < s.len() - 1 {
                    assert(seg_contains(t[j], x));
                }
            }
            assert forall|x: int| ct.contains(x) || pl.contains(x) implies cs.contains(x) by {
                if ct.contains(x) {
                    let j = choose|j: int| 0 <= j < t.len() && seg_contains(#[trigger] t[j], x);
                    assert(seg_contains(s[j], x));
                } else {
                    assert(seg_contains(s[s.len() - 1], x));
                }
            }
        }
        assert(ct.disjoint(pl)) by {
            assert forall|x: int| ct.contains(x) implies !pl.contains(x) by {
                let j = choose|j: int| 0 <= j < t.len() && seg_contains(#[trigger] t[j], x);
                assert(seg_end(s[j]) < last.start);
            }
        }
        vstd::set_lib::lemma_set_disjoint_lens(ct, pl);
        assert(sum_lens(s) == sum_lens(t) + last.length);
    }
}

impl Segments {
    /// The gaps: a fresh set covering exactly the coordinates of the
    /// closed range `[start, end]` that this set leaves uncovered.
    #[verifier::rlimit(60)]
    pub fn get_inverse_on_range(&self, start: isize, end: isize) -> (r: Segments)
        requires
            self.wf(),
            start <= end,
            end < isize::MAX,
        ensures
            r.wf(),
            forall|x: int|
                #![trigger r.covers(x)]
                r.covers(x) <==> (start <= x <= end && !self.covers(x)),
    {
        let entries = &self.map;
        let ghost s = entries@;
        let n = entries.len();
        let mut out: Vec<Segment> = Vec::new();
        let mut cursor: i128 = start as i128;
        let mut i: usize = 0;
        while i < n
            invariant
                s == entries@,
                wf_entries(s),
                n == s.len(),
                0 <= i <= n,
                start <= cursor <= isize::MAX,
                wf_entries(out@),
                forall|j: int| 0 <= j < out@.len() ==> seg_end(#[trigger] out@[j]) < cursor,
                forall|j: int|
                    0 <= j < out@.len() ==> (#[trigger] out@[j]).start >= start && seg_end(out@[j])
                        <= end + 1,
                forall|j: int|
                    0 <= j < i ==> seg_end(#[trigger] s[j]) <= cursor || s[j].start > end,
                forall|j: int| i <= j < n && (#[trigger] s[j]).start >= start ==> cursor <= s[j].start,
                forall|x: int|
                    #![trigger seq_covers(out@, x)]
                    seq_covers(out@, x) <==> (start <= x < cursor && !seq_covers(s, x)),
            decreases n - i,
        {
            let e = entries[i];
            let e_end = seg_end_i128(&e);
            let ghost c0 = cursor as int;
            if e.start < start {
                if e_end > cursor {
                    cursor = e_end;
                }
                proof {
                    assert forall|x: int| #[trigger]
                        seq_covers(out@, x) <==> (start <= x < cursor && !seq_covers(s, x)) by {
                        if start <= x < cursor && !(start <= x < c0) {
                            assert(seg_contains(s[i as int], x));
                        }
                    }
                }
            } else if e.start <= end {
                proof {
                    assert(cursor <= e.start);
                }
                if (e.start as i128) > cursor {
                    let gap = Segment {
                        start: cursor as isize,
                        length: ((e.start as i128) - cursor) as usize,
                    };
                    let ghost out0 = out@;
                    out.push(gap);
                    proof {
                        assert(out@ == out0.push(gap));
                        assert forall|x: int| #[trigger]
                            seq_covers(out@, x) <==> (start <= x < e.start && !seq_covers(s, x)) by {
                            if seq_covers(out@, x) {
                                let j = choose|j: int|
                                    0 <= j < out@.len() && seg_contains(#[trigger] out@[j], x);
                                if j < out0.len() {
                                    assert(seq_covers(out0, x));
                                } else {
                                    assert(seg_contains(gap, x));
                                    assert(!seq_covers(s, x)) by {
                                        if seq_covers(s, x) {
                                            let k = choose|k: int|
                                                0 <= k < n && seg_contains(#[trigger] s[k], x);
                                            if k < i as int {
                                                assert(seg_end(s[k]) <= c0 || s[k].start > end);
                                                assert(s[k].start < e.start);
                                            } else {
                                                assert(s[k].start >= s[i as int].start);
                                            }
                                        }
                                    }
                                }
                            }
                            if start <= x < e.start && !seq_covers(s, x) {
                                if x < c0 {
                                    assert(seq_covers(out0, x));
                                    let j = choose|j: int|
                                        0 <= j < out0.len() && seg_contains(#[trigger] out0[j], x);
                                    assert(seg_contains(out@[j], x));
                                } else {
                                    assert(seg_contains(gap, x));
                                    assert(seg_contains(out@[out0.len() as int], x));
                                }
                            }
                        }
                    }
                }
                cursor = e_end;
                proof {
                    assert forall|x: int| #[trigger]
                        seq_covers(out@, x) <==> (start <= x < cursor && !seq_covers(s, x)) by {
                        if start <= x < cursor && !(start <= x < e.start) {
                            assert(seg_contains(s[i as int], x));
                        }
                        if seq_covers(out@, x) {
                            let j = choose|j: int|
                                0 <= j < out@.len() && seg_contains(#[trigger] out@[j], x);
                            assert(seg_end(out@[j]) < cursor);
                        }
                    }
                }
            } else {
                // the entry starts beyond the range; it covers nothing of it
            }
            i = i + 1;
        }
        if cursor <= (end as i128) {
            let gap = Segment {
                start: cursor as isize,
                length: (((end as i128) + 1) - cursor) as usize,
            };
            let ghost out0 = out@;
            out.push(gap);
            proof {
                assert(out@ == out0.push(gap));
                assert forall|x: int| #[trigger]
                    seq_covers(out@, x) <==> (start <= x <= end && !seq_covers(s, x)) by {
                    if seq_covers(out@, x) {
                        let j = choose|j: int|
                            0 <= j < out@.len() && seg_contains(#[trigger] out@[j], x);
                        if j < out0.len() {
                            assert(seq_covers(out0, x));
                        } else {
                            assert(seg_contains(gap, x));
                            assert(!seq_covers(s, x)) by {
                                if seq_covers(s, x) {
                                    let k = choose|k: int|
                                        0 <= k < n && seg_contains(#[trigger] s[k], x);
                                }
                            }
                        }
                    }
                    if start <= x <= end && !seq_covers(s, x) {
                        if x < cursor {
                            assert(seq_covers(out0, x));
                            let j = choose|j: int|
                                0 <= j < out0.len() && seg_contains(#[trigger] out0[j], x);
                            assert(seg_contains(out@[j], x));
                        } else {
                            assert(seg_contains(gap, x));
                            assert(seg_contains(out@[out0.len() as int], x));
                        }
                    }
                }
            }
            Segments { map: out }
        } else {
            proof {
                assert forall|x: int| #[trigger]
                    seq_covers(out@, x) <==> (start <= x <= end && !seq_covers(s, x)) by {
                    if start <= x <= end && !seq_covers(s, x) {
                        assert(start <= x < cursor);
                    }
                    if seq_covers(out@, x) {
                        let j = choose|j: int|
                            0 <= j < out@.len() && seg_contains(#[trigger] out@[j], x);
                    }
                }
            }
            Segments { map: out }
        }
    }

    /// The total number of distinct covered coordinates.
    pub fn get_covered(&self) -> (r: usize)
        requires
            self.wf(),
        ensures
            self.covered_set().finite(),
            r == self.covered_set().len(),
    {
        let ghost s = self.map@;
        let n = self.map.len();
        let mut sum: usize = 0;
        let mut i: usize = 0;
        while i < n
            invariant
                s == self.map@,
                wf_entries(s),
                n == s.len(),
                0 <= i <= n,
                sum == sum_lens(s.subrange(0, i as int)),
                i > 0 ==> sum <= seg_end(s[i as int - 1]) - s[0].start,
            decreases n - i,
        {
            proof {
                assert(s.subrange(0, i + 1).drop_last() =~= s.subrange(0, i as int));
                assert(s.subrange(0, i + 1).last() == s[i as int]);
                if i > 0 {
                    assert(seg_end(s[i as int - 1]) < s[i as int].start);
                    assert(s[0].start <= s[i as int].start) by {
                        if i > 1 {
                            assert(seg_end(s[0]) < s[i as int].start);
                        }
                    }
                }
            }
            sum = sum + self.map[i].length;
            i = i + 1;
        }
        proof {
            assert(s.subrange(0, n as int) =~= s);
            lemma_covered_card(s);
            assert(self.covered_set() =~= Set::new(|x: int| seq_covers(s, x)));
        }
        sum
    }
}

/// Replacing the entry at `i` with a segment that covers the same points
/// except `pos` keeps the normal form and removes exactly `pos`.
proof fn lemma_replace_entry(orig: Seq<Segment>, i: int, shrunk: Segment, pos: int)
    requires
        wf_entries(orig),
        0 <= i < orig.len(),
        seg_contains(orig[i], pos),
        seg_valid(shrunk),
        orig[i].start <= shrunk.start,
        seg_end(shrunk) <= seg_end(orig[i]),
        forall|x: int| seg_contains(shrunk, x) <==> (seg_contains(#[trigger] orig[i], x) && x != pos),
    ensures
        wf_entries(orig.update(i, shrunk)),
        forall|x: int|
            #![trigger seq_covers(orig.update(i, shrunk), x)]
            seq_covers(orig.update(i, shrunk), x) <==> seq_covers(orig, x) && x != pos,
{
    let fin = orig.update(i, shrunk);
    assert forall|i1: int, j1: int| 0 <= i1 < j1 < fin.len() implies seg_end(#[trigger] fin[i1])
        < (#[trigger] fin[j1]).start by {
        assert(i1 != i ==> fin[i1] == orig[i1]);
        assert(j1 != i ==> fin[j1] == orig[j1]);
    }
    assert forall|x: int| #[trigger]
        seq_covers(fin, x) <==> seq_covers(orig, x) && x != pos by {
        if seq_covers(fin, x) {
            let j = choose|j: int| 0 <= j < fin.len() && seg_contains(#[trigger] fin[j], x);
            assert(seg_contains(orig[j], x));
            if j != i {
                // `pos` lies in entry `i`, and distinct entries are disjoint
                if j < i {
                    assert(seg_end(orig[j]) < orig[i].start);
                } else {
                    assert(seg_end(orig[i]) < orig[j].start);
                }
                assert(x != pos);
            }
        }
        if seq_covers(orig, x) && x != pos {
            let j = choose|j: int| 0 <= j < orig.len() && seg_contains(#[trigger] orig[j], x);
            if j == i {
                assert(seg_contains(fin[i], x));
            } else {
                assert(seg_contains(fin[j], x));
            }
        }
    }
}

/// Every stored segment has at least one point, so the sum of lengths is
/// at least the number of entries.
pub proof fn lemma_sum_lens_at_least_len(s: Seq<Segment>)
    requires
        wf_entries(s),
    ensures
        sum_lens(s) >= s.len(),
    decreases s.len(),
{
    if s.len() > 0 {
        let t = s.drop_last();
        assert(wf_entries(t)) by {
            assert(forall|i: int| 0 <= i < t.len() ==> t[i] == s[i]);
        }
        lemma_sum_lens_at_least_len(t);
        assert(s.last().length >= 1);
    }
}

/// The union of the points of a collection of segments.
pub open spec fn segs_union(segs: Seq<Segment>) -> Set<int> {
    Set::new(|x: int| exists|j: int| 0 <= j < segs.len() && seg_contains(#[trigger] segs[j], x))
}

/// Coverage conservation: once a set covers exactly the points of some
/// collection of possibly overlapping segments, its covered set is
/// their union, so `get_covered` reports the size of that union.  The
/// premise is what `add_segment`'s postcondition accumulates to.
pub proof fn lemma_coverage_conservation(s: Segments, segs: Seq<Segment>)
    requires
        forall|x: int| #![trigger s.covers(x)] s.covers(x) <==> segs_union(segs).contains(x),
    ensures
        s.covered_set() == segs_union(segs),
{
    assert(s.covered_set() =~= segs_union(segs));
}

/// Normal form is canonical: two well-formed entry sequences that cover
/// the same coordinates are the same sequence.
pub proof fn lemma_normal_form_unique(a: Seq<Segment>, b: Seq<Segment>)
    requires
        wf_entries(a),
        wf_entries(b),
        forall|x: int| #[trigger] seq_covers(a, x) <==> seq_covers(b, x),
    ensures
        a == b,
    decreases a.len(),
{
    if a.len() == 0 && b.len() == 0 {
        assert(a =~= b);
    } else if a.len() == 0 {
        assert(seg_contains(b[0], b[0].start as int));
        assert(seq_covers(b, b[0].start as int));
        assert(seq_covers(a, b[0].start as int));
        let j = choose|j: int| 0 <= j < a.len() && seg_contains(#[trigger] a[j], b[0].start as int);
        assert(false);
    } else if b.len() == 0 {
        assert(seg_contains(a[0], a[0].start as int));
        assert(seq_covers(a, a[0].start as int));
        assert(seq_covers(b, a[0].start as int));
        let j = choose|j: int| 0 <= j < b.len() && seg_contains(#[trigger] b[j], a[0].start as int);
        assert(false);
    } else {
        let a0 = a[0];
        let b0 = b[0];
        // the least covered coordinate is the first start, on both sides
        assert(a0.start == b0.start) by {
            assert(seg_contains(a[0], a0.start as int));
            assert(seq_covers(a, a0.start as int));
            assert(seq_covers(b, a0.start as int));
            let j = choose|j: int|
                0 <= j < b.len() && seg_contains(#[trigger] b[j], a0.start as int);
            if j > 0 {
                assert(seg_end(b[0]) < b[j].start);
            }
            assert(seg_contains(b[0], b0.start as int));
            assert(seq_covers(b, b0.start as int));
            assert(seq_covers(a, b0.start as int));
            let k = choose|k: int|
                0 <= k < a.len() && seg_contains(#[trigger] a[k], b0.start as int);
            if k > 0 {
                assert(seg_end(a[0]) < a[k].start);
            }
        }
        // the first uncovered coordinate above it is the first end, on both sides
        assert(seg_end(a0) == seg_end(b0)) by {
            if seg_end(a0) < seg_end(b0) {
                assert(seg_contains(b[0], seg_end(a0)));
                assert(seq_covers(b, seg_end(a0)));
                assert(seq_covers(a, seg_end(a0)));
                let j = choose|j: int| 0 <= j < a.len() && seg_contains(#[trigger] a[j], seg_end(a0));
                if j > 0 {
                    assert(seg_end(a[0]) < a[j].start);
                }
                assert(false);
            }
            if seg_end(b0) < seg_end(a0) {
                assert(seg_contains(a[0], seg_end(b0)));
                assert(seq_covers(a, seg_end(b0)));
                assert(seq_covers(b, seg_end(b0)));
                let j = choose|j: int| 0 <= j < b.len() && seg_contains(#[trigger] b[j], seg_end(b0));
                if j > 0 {
                    assert(seg_end(b[0]) < b[j].start);
                }
                assert(false);
            }
        }
        assert(a0 == b0);
        let at = a.subrange(1, a.len() as int);
        let bt = b.subrange(1, b.len() as int);
        assert(wf_entries(at)) by {
            assert(forall|i: int| 0 <= i < at.len() ==> at[i] == a[i + 1]);
        }
        assert(wf_entries(bt)) by {
            assert(forall|i: int| 0 <= i < bt.len() ==> bt[i] == b[i + 1]);
        }
        assert forall|x: int| #[trigger] seq_covers(at, x) <==> seq_covers(bt, x) by {
            if seq_covers(at, x) {
                let j = choose|j: int| 0 <= j < at.len() && seg_contains(#[trigger] at[j], x);
                assert(seg_contains(a[j + 1], x));
                assert(seq_covers(a, x));
                assert(x > seg_end(a0)) by {
                    assert(seg_end(a[0]) < a[j + 1].start);
                }
                assert(seq_covers(b, x));
                let k = choose|k: int| 0 <= k < b.len() && seg_contains(#[trigger] b[k], x);
                assert(k > 0);
                assert(seg_contains(bt[k - 1], x));
            }
            if seq_covers(bt, x) {
                let j = choose|j: int| 0 <= j < bt.len() && seg_contains(#[trigger] bt[j], x);
                assert(seg_contains(b[j + 1], x));
                assert(seq_covers(b, x));
                assert(x > seg_end(b0)) by {
                    assert(seg_end(b[0]) < b[j + 1].start);
                }
                assert(seq_covers(a, x));
                let k = choose|k: int| 0 <= k < a.len() && seg_contains(#[trigger] a[k], x);
                assert(k > 0);
                assert(seg_contains(at[k - 1], x));
            }
        }
        lemma_normal_form_unique(at, bt);
        assert(a =~= b) by {
            assert(a.len() == b.len());
            assert(forall|i: int| 1 <= i < a.len() ==> a[i] == at[i - 1] && b[i] == bt[i - 1]);
        }
    }
}

/// Idempotence: adding a segment a second time leaves the stored entries
/// exactly as they were after the first addition.  The premises are the
/// postconditions of two consecutive `add_segment(seg)` calls.
pub proof fn lemma_add_segment_idempotent(once: Segments, twice: Segments, seg: Segment)
    requires
        once.wf(),
        twice.wf(),
        forall|x: int| #![trigger twice.covers(x)] twice.covers(x) <==> once.covers(x) || seg_contains(seg, x),
        forall|x: int| #![trigger once.covers(x)] seg_contains(seg, x) ==> once.covers(x),
    ensures
        twice.map@ == once.map@,
{
    assert forall|x: int| #[trigger] seq_covers(twice.map@, x) <==> seq_covers(once.map@, x) by {
        assert(twice.covers(x) <==> once.covers(x) || seg_contains(seg, x));
        if seg_contains(seg, x) {
            assert(once.covers(x));
        }
    }
    lemma_normal_form_unique(twice.map@, once.map@);
}

/// Complement round trip: complementing twice over the same closed range
/// `[lo, hi]` yields exactly the original coverage clipped to that range.
/// The premises are the postconditions of the two `get_inverse_on_range`
/// calls that produced `inv` from `s` and `back` from `inv`.
pub proof fn lemma_inverse_round_trip(s: Segments, inv: Segments, back: Segments, lo: int, hi: int)
    requires
        forall|x: int| #![trigger inv.covers(x)] inv.covers(x) <==> (lo <= x <= hi && !s.covers(x)),
        forall|x: int|
            #![trigger back.covers(x)]
            back.covers(x) <==> (lo <= x <= hi && !inv.covers(x)),
    ensures
        forall|x: int|
            #![trigger back.covers(x)]
            back.covers(x) <==> (lo <= x <= hi && s.covers(x)),
{
}

/// Complement round trip, exactly: when the original set already lies
/// within `[lo, hi]`, complementing twice over that range returns the
/// very same stored entries, because the normal form is canonical.
pub proof fn lemma_inverse_round_trip_exact(
    s: Segments,
    inv: Segments,
    back: Segments,
    lo: int,
    hi: int,
)
    requires
        s.wf(),
        back.wf(),
        forall|x: int| #![trigger s.covers(x)] s.covers(x) ==> lo <= x <= hi,
        forall|x: int| #![trigger inv.covers(x)] inv.covers(x) <==> (lo <= x <= hi && !s.covers(x)),
        forall|x: int|
            #![trigger back.covers(x)]
            back.covers(x) <==> (lo <= x <= hi && !inv.covers(x)),
    ensures
        back.map@ == s.map@,
{
    lemma_inverse_round_trip(s, inv, back, lo, hi);
    assert forall|x: int| #[trigger] seq_covers(back.map@, x) <==> seq_covers(s.map@, x) by {
        assert(back.covers(x) <==> (lo <= x <= hi && s.covers(x)));
        if s.covers(x) {
            assert(lo <= x <= hi);
        }
    }
    lemma_normal_form_unique(back.map@, s.map@);
}

} // verus!
