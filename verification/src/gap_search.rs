//! The two search strategies over a set of coverage records: a dense
//! row scan built on the interval set, and a sparse walk along each
//! diamond's outer boundary.

use vstd::prelude::*;

use crate::geometry::Couple;
use crate::geometry::Pos;
use crate::geometry::abs_int;
use crate::geometry::get_intersection_disk_row;
use crate::geometry::seg_contains;
use crate::interval_set::Segments;
use crate::interval_set::lemma_covered_card;
use crate::interval_set::lemma_sum_lens_at_least_len;
use crate::interval_set::seq_covers;
use crate::interval_set::sum_lens;
use crate::perimeter::circle_count;
use crate::perimeter::circle_point;
use crate::perimeter::lemma_circle_points;

verus! {

/// Whether the lattice point `(x, y)` lies inside the diamond of the
/// given coverage record.
pub open spec fn in_diamond(c: Couple, x: int, y: int) -> bool {
    abs_int(x - c.sensor.x) + abs_int(y - c.sensor.y) <= c.distance
}

/// Whether one of the first `n` records covers `(x, y)`.
pub open spec fn covered_upto(cs: Seq<Couple>, n: int, x: int, y: int) -> bool {
    exists|i: int| 0 <= i < n && in_diamond(#[trigger] cs[i], x, y)
}

/// Whether any record covers `(x, y)`.
pub open spec fn covered_at(cs: Seq<Couple>, x: int, y: int) -> bool {
    covered_upto(cs, cs.len() as int, x, y)
}

/// The uncovered coordinates of row `y` within `[0, bound]`.
pub open spec fn row_uncovered(cs: Seq<Couple>, bound: int, y: int) -> Set<int> {
    Set::new(|x: int| 0 <= x <= bound && !covered_at(cs, x, y))
}

/// The record's diamond stays within machine range on every row slice.
pub open spec fn couple_fits_row(c: Couple) -> bool {
    &&& c.sensor.x - c.distance >= isize::MIN
    &&& c.sensor.x + c.distance < isize::MAX
}

/// The walk one step outside the record's diamond stays in machine range.
pub open spec fn couple_fits_walk(c: Couple) -> bool {
    &&& c.distance < usize::MAX
    &&& c.sensor.y + c.distance + 1 <= isize::MAX
    &&& c.sensor.y - c.distance - 2 >= isize::MIN
    &&& c.sensor.x - c.distance - 2 >= isize::MIN
    &&& c.sensor.x + c.distance + 1 <= isize::MAX
}

/// Whether the point lies within the diamond of the record, computed in
/// a width that cannot overflow.
fn within_coverage(c: &Couple, p: &Pos) -> (r: bool)
    ensures
        r == in_diamond(*c, p.x as int, p.y as int),
{
    let dx = if c.sensor.x >= p.x {
        (c.sensor.x as i128) - (p.x as i128)
    } else {
        (p.x as i128) - (c.sensor.x as i128)
    };
    let dy = if c.sensor.y >= p.y {
        (c.sensor.y as i128) - (p.y as i128)
    } else {
        (p.y as i128) - (c.sensor.y as i128)
    };
    dx + dy <= (c.distance as i128)
}

/// Whether any record covers the point.
fn covered_by_any(couples: &Vec<Couple>, p: &Pos) -> (r: bool)
    ensures
        r == covered_at(couples@, p.x as int, p.y as int),
{
    let n = couples.len();
    let mut j: usize = 0;
    while j < n
        invariant
            0 <= j <= n,
            n == couples@.len(),
            !covered_upto(couples@, j as int, p.x as int, p.y as int),
        decreases n - j,
    {
        if within_coverage(&couples[j], p) {
            proof {
                assert(in_diamond(couples@[j as int], p.x as int, p.y as int));
            }
            return true;
        }
        j = j + 1;
    }
    false
}

/// Build the interval set of everything the records cover on one row.
fn row_coverage(couples: &Vec<Couple>, row: isize) -> (s: Segments)
    requires
        forall|i: int| 0 <= i < couples@.len() ==> couple_fits_row(#[trigger] couples@[i]),
    ensures
        s.wf(),
        forall|x: int|
            #![trigger s.covers(x)]
            s.covers(x) <==> covered_at(couples@, x, row as int),
{
    let ghost cs = couples@;
    let n = couples.len();
    let mut segments = Segments::new();
    let mut i: usize = 0;
    while i < n
        invariant
            cs == couples@,
            n == cs.len(),
            0 <= i <= n,
            forall|k: int| 0 <= k < cs.len() ==> couple_fits_row(#[trigger] cs[k]),
            segments.wf(),
            forall|x: int|
                #![trigger segments.covers(x)]
                segments.covers(x) <==> covered_upto(cs, i as int, x, row as int),
        decreases n - i,
    {
        let c = &couples[i];
        let slice = get_intersection_disk_row(&c.sensor, c.distance, row);
        match slice {
            Some(seg) => {
                let ghost before = segments;
                segments.add_segment(seg);
                proof {
                    assert forall|x: int| #[trigger]
                        segments.covers(x) <==> covered_upto(cs, i + 1, x, row as int) by {
                        assert(segments.covers(x) <==> before.covers(x) || seg_contains(seg, x));
                        assert(seg_contains(seg, x) <==> in_diamond(cs[i as int], x, row as int));
                        if covered_upto(cs, i + 1, x, row as int) {
                            let k = choose|k: int|
                                0 <= k < i + 1 && in_diamond(#[trigger] cs[k], x, row as int);
                            if k < i as int {
                                assert(covered_upto(cs, i as int, x, row as int));
                            }
                        }
                    }
                }
            },
            None => {
                proof {
                    assert forall|x: int| #[trigger]
                        segments.covers(x) <==> covered_upto(cs, i + 1, x, row as int) by {
                        assert(abs_int(cs[i as int].sensor.y - row) > cs[i as int].distance);
                        if covered_upto(cs, i + 1, x, row as int) {
                            let k = choose|k: int|
                                0 <= k < i + 1 && in_diamond(#[trigger] cs[k], x, row as int);
                            if k < i as int {
                                assert(covered_upto(cs, i as int, x, row as int));
                            }
                        }
                    }
                }
            },
        }
        i = i + 1;
    }
    segments
}

/// Count the covered positions of one row after excluding the positions
/// where a known beacon sits on that row.
pub fn count_covered_on_row(couples: &Vec<Couple>, row: isize) -> (r: usize)
    requires
        forall|i: int| 0 <= i < couples@.len() ==> couple_fits_row(#[trigger] couples@[i]),
    ensures
        r == Set::new(
            |x: int|
                covered_at(couples@, x, row as int) && !exists|i: int|
                    0 <= i < couples@.len() && (#[trigger] couples@[i]).beacon.y == row
                        && couples@[i].beacon.x == x,
        ).len(),
{
    let ghost cs = couples@;
    let n = couples.len();
    let mut segments = row_coverage(couples, row);
    let ghost excluded_upto = |k: int, x: int|
        exists|i2: int|
            0 <= i2 < k && (#[trigger] cs[i2]).beacon.y == row && cs[i2].beacon.x == x;
    let mut i: usize = 0;
    while i < n
        invariant
            cs == couples@,
            n == cs.len(),
            0 <= i <= n,
            segments.wf(),
            excluded_upto == (|k: int, x: int|
                exists|i2: int|
                    0 <= i2 < k && (#[trigger] cs[i2]).beacon.y == row && cs[i2].beacon.x == x),
            forall|x: int|
                #![trigger segments.covers(x)]
                segments.covers(x) <==> covered_at(cs, x, row as int) && !excluded_upto(
                    i as int,
                    x,
                ),
        decreases n - i,
    {
        let c = &couples[i];
        if c.beacon.y == row {
            let ghost before = segments;
            segments.remove_dot(c.beacon.x);
            proof {
                assert forall|x: int| #[trigger]
                    segments.covers(x) <==> covered_at(cs, x, row as int) && !excluded_upto(
                        i + 1,
                        x,
                    ) by {
                    assert(segments.covers(x) <==> before.covers(x) && x != c.beacon.x);
                    if excluded_upto(i + 1, x) && !excluded_upto(i as int, x) {
                        let k = choose|k: int|
                            0 <= k < i + 1 && (#[trigger] cs[k]).beacon.y == row && cs[k].beacon.x
                                == x;
                        assert(k == i as int);
                    }
                    if excluded_upto(i as int, x) {
                        let k = choose|k: int|
                            0 <= k < i && (#[trigger] cs[k]).beacon.y == row && cs[k].beacon.x == x;
                        assert(excluded_upto(i + 1, x));
                    }
                }
            }
        } else {
            proof {
                assert forall|x: int| #[trigger]
                    segments.covers(x) <==> covered_at(cs, x, row as int) && !excluded_upto(
                        i + 1,
                        x,
                    ) by {
                    if excluded_upto(i + 1, x) && !excluded_upto(i as int, x) {
                        let k = choose|k: int|
                            0 <= k < i + 1 && (#[trigger] cs[k]).beacon.y == row && cs[k].beacon.x
                                == x;
                        assert(k == i as int);
                        assert(false);
                    }
                    if excluded_upto(i as int, x) {
                        let k = choose|k: int|
                            0 <= k < i && (#[trigger] cs[k]).beacon.y == row && cs[k].beacon.x == x;
                        assert(excluded_upto(i + 1, x));
                    }
                }
            }
        }
        i = i + 1;
    }
    let r = segments.get_covered();
    proof {
        assert(segments.covered_set() =~= Set::new(
            |x: int|
                covered_at(cs, x, row as int) && !exists|i: int|
                    0 <= i < cs.len() && (#[trigger] cs[i]).beacon.y == row && cs[i].beacon.x == x,
        ));
    }
    r
}

impl Segments {
    /// A set in normal form holds exactly one coordinate exactly when it
    /// stores one segment of length one.
    proof fn lemma_single_point(self)
        requires
            self.wf(),
        ensures
            self.covered_set().finite(),
            (self.covered_set().len() == 1) <==> (self.map@.len() == 1 && self.map@[0].length
                == 1),
    {
        let s = self.map@;
        lemma_covered_card(s);
        assert(self.covered_set() =~= Set::new(|x: int| seq_covers(s, x)));
        if s.len() == 0 {
        } else if s.len() == 1 {
            assert(sum_lens(s) == sum_lens(s.drop_last()) + s.last().length);
            assert(s.drop_last().len() == 0);
            assert(s.last() == s[0]);
        } else {
            lemma_sum_lens_at_least_len(s);
        }
    }
}

/// Scan the square row by row, and accept the first row on which exactly
/// one point of `[0, bound]` is left uncovered.
pub fn find_gap_by_row_scan(couples: &Vec<Couple>, bound: isize) -> (r: Option<Pos>)
    requires
        0 <= bound < isize::MAX,
        forall|i: int| 0 <= i < couples@.len() ==> couple_fits_row(#[trigger] couples@[i]),
    ensures
        r is Some ==> {
            let p = r->Some_0;
            &&& 0 <= p.x <= bound
            &&& 0 <= p.y <= bound
            &&& !covered_at(couples@, p.x as int, p.y as int)
            &&& forall|x: int| 0 <= x <= bound && x != p.x ==> covered_at(couples@, x, p.y as int)
        },
        r is None ==> forall|y: int|
            0 <= y <= bound ==> (#[trigger] row_uncovered(couples@, bound as int, y)).finite()
                && row_uncovered(couples@, bound as int, y).len() != 1,
{
    let ghost cs = couples@;
    let mut y: isize = 0;
    while y <= bound
        invariant
            cs == couples@,
            0 <= y <= bound + 1,
            bound < isize::MAX,
            forall|i: int| 0 <= i < cs.len() ==> couple_fits_row(#[trigger] cs[i]),
            forall|yy: int|
                0 <= yy < y ==> (#[trigger] row_uncovered(cs, bound as int, yy)).finite()
                    && row_uncovered(cs, bound as int, yy).len() != 1,
        decreases bound - y + 1,
    {
        let segments = row_coverage(couples, y);
        let inverse = segments.get_inverse_on_range(0, bound);
        proof {
            assert(row_uncovered(cs, bound as int, y as int) =~= inverse.covered_set());
        }
        if inverse.map.len() == 1 && inverse.map[0].length == 1 {
            let p = Pos { x: inverse.map[0].start, y };
            proof {
                assert(seg_contains(inverse.map@[0], p.x as int));
                assert(inverse.covers(p.x as int));
                assert forall|x: int| 0 <= x <= bound && x != p.x implies covered_at(
                    cs,
                    x,
                    y as int,
                ) by {
                    if !covered_at(cs, x, y as int) {
                        assert(inverse.covers(x));
                        let j = choose|j: int|
                            0 <= j < inverse.map@.len() && seg_contains(
                                #[trigger] inverse.map@[j],
                                x,
                            );
                        assert(j == 0);
                    }
                }
            }
            return Some(p);
        }
        proof {
            inverse.lemma_single_point();
        }
        y = y + 1;
    }
    None
}

/// Walk one step outside every record's diamond and accept the first
/// candidate inside the square that no record covers.
pub fn find_gap_by_perimeter_search(couples: &Vec<Couple>, bound: isize) -> (r: Option<Pos>)
    requires
        0 <= bound,
        forall|i: int| 0 <= i < couples@.len() ==> couple_fits_walk(#[trigger] couples@[i]),
    ensures
        r is Some ==> {
            let p = r->Some_0;
            &&& 0 <= p.x <= bound
            &&& 0 <= p.y <= bound
            &&& !covered_at(couples@, p.x as int, p.y as int)
            &&& exists|i: int|
                0 <= i < couples@.len() && abs_int(p.x - (#[trigger] couples@[i]).sensor.x)
                    + abs_int(p.y - couples@[i].sensor.y) == couples@[i].distance + 1
        },
        r is None ==> forall|i: int, k: nat|
            0 <= i < couples@.len() && k < circle_count((couples@[i].distance + 1) as nat) ==> {
                let q = #[trigger] circle_point(
                    (#[trigger] couples@[i]).sensor,
                    (couples@[i].distance + 1) as nat,
                    k,
                );
                (0 <= q.0 <= bound && 0 <= q.1 <= bound) ==> covered_at(couples@, q.0, q.1)
            },
{
    let ghost cs = couples@;
    let n = couples.len();
    let mut i: usize = 0;
    while i < n
        invariant
            cs == couples@,
            n == cs.len(),
            0 <= i <= n,
            0 <= bound,
            forall|k: int| 0 <= k < cs.len() ==> couple_fits_walk(#[trigger] cs[k]),
            forall|i2: int, k: nat|
                0 <= i2 < i && k < circle_count((cs[i2].distance + 1) as nat) ==> {
                    let q = #[trigger] circle_point(
                        (#[trigger] cs[i2]).sensor,
                        (cs[i2].distance + 1) as nat,
                        k,
                    );
                    (0 <= q.0 <= bound && 0 <= q.1 <= bound) ==> covered_at(cs, q.0, q.1)
                },
        decreases n - i,
    {
        let c = &couples[i];
        let radius = c.distance + 1;
        let mut it = c.sensor.get_circle_iter(radius);
        let ghost total = circle_count(radius as nat);
        loop
            invariant
                cs == couples@,
                n == cs.len(),
                0 <= i < n,
                0 <= bound,
                it.wf(),
                it.center == cs[i as int].sensor,
                it.radius == cs[i as int].distance + 1,
                total == circle_count(it.radius as nat),
                forall|k: nat|
                    k < it.emitted() ==> {
                        let q = #[trigger] circle_point(it.center, it.radius as nat, k);
                        (0 <= q.0 <= bound && 0 <= q.1 <= bound) ==> covered_at(cs, q.0, q.1)
                    },
            ensures
                it.center == cs[i as int].sensor,
                it.radius == cs[i as int].distance + 1,
                forall|k: nat|
                    k < circle_count(it.radius as nat) ==> {
                        let q = #[trigger] circle_point(it.center, it.radius as nat, k);
                        (0 <= q.0 <= bound && 0 <= q.1 <= bound) ==> covered_at(cs, q.0, q.1)
                    },
            decreases total - it.emitted(),
        {
            let ghost before = it;
            let next = it.next();
            match next {
                None => {
                    break ;
                },
                Some(pos) => {
                    proof {
                        assert(before.emitted() < total);
                    }
                    if pos.x >= 0 && pos.x <= bound && pos.y >= 0 && pos.y <= bound {
                        if !covered_by_any(couples, &pos) {
                            proof {
                                lemma_circle_points(it.center, it.radius as nat);
                                assert(abs_int(pos.x - cs[i as int].sensor.x) + abs_int(
                                    pos.y - cs[i as int].sensor.y,
                                ) == cs[i as int].distance + 1);
                            }
                            return Some(pos);
                        }
                    }
                    proof {
                        assert forall|k: nat| k < it.emitted() implies {
                            let q = #[trigger] circle_point(it.center, it.radius as nat, k);
                            (0 <= q.0 <= bound && 0 <= q.1 <= bound) ==> covered_at(cs, q.0, q.1)
                        } by {
                            if k == before.emitted() {
                                assert(circle_point(it.center, it.radius as nat, k) == (
                                pos.x as int,
                                pos.y as int,
                                ));
                            }
                        }
                    }
                },
            }
        }
        i = i + 1;
    }
    None
}

/// Find the unique uncovered point of the square by the row scan,
/// surfacing the absence of a conclusive row as a typed error.
pub fn find_unique_gap(couples: &Vec<Couple>, bound: isize) -> (r: Result<
    Pos,
    crate::errors::CoverageError,
>)
    requires
        0 <= bound < isize::MAX,
        forall|i: int| 0 <= i < couples@.len() ==> couple_fits_row(#[trigger] couples@[i]),
    ensures
        r is Ok ==> {
            let p = r->Ok_0;
            &&& 0 <= p.x <= bound
            &&& 0 <= p.y <= bound
            &&& !covered_at(couples@, p.x as int, p.y as int)
            &&& forall|x: int| 0 <= x <= bound && x != p.x ==> covered_at(couples@, x, p.y as int)
        },
        r is Err ==> r->Err_0 == crate::errors::CoverageError::NoUniqueGap && forall|y: int|
            0 <= y <= bound ==> (#[trigger] row_uncovered(couples@, bound as int, y)).finite()
                && row_uncovered(couples@, bound as int, y).len() != 1,
{
    match find_gap_by_row_scan(couples, bound) {
        Some(p) => Ok(p),
        None => Err(crate::errors::CoverageError::NoUniqueGap),
    }
}

} // verus!
