//! Lattice points, Manhattan distance, and the row slice of a diamond.

use vstd::prelude::*;

verus! {

/// A lattice point with signed coordinates.
#[derive(Hash, Clone, Copy, PartialEq, Eq, Structural, Debug)]
pub struct Pos {
    pub x: isize,
    pub y: isize,
}

/// The absolute value of a mathematical integer.
pub open spec fn abs_int(a: int) -> int {
    if a >= 0 {
        a
    } else {
        -a
    }
}

/// Manhattan distance between two points, as a mathematical integer.
pub open spec fn manhattan(a: Pos, b: Pos) -> int {
    abs_int(a.x - b.x) + abs_int(a.y - b.y)
}

/// |a - b| over machine integers, widened into `usize` (where it always fits).
pub fn abs_diff_isize(a: isize, b: isize) -> (r: usize)
    ensures
        r == abs_int(a as int - b as int),
{
    if a >= b {
        if b >= 0 || a < 0 {
            (a - b) as usize
        } else {
            (a as usize) + ((-(b + 1)) as usize + 1)
        }
    } else {
        if a >= 0 || b < 0 {
            (b - a) as usize
        } else {
            (b as usize) + ((-(a + 1)) as usize + 1)
        }
    }
}

impl Pos {
    /// Manhattan distance to another point.
    pub fn get_distance(&self, other: &Self) -> (d: usize)
        requires
            manhattan(*self, *other) <= usize::MAX,
        ensures
            d == manhattan(*self, *other),
    {
        abs_diff_isize(self.x, other.x) + abs_diff_isize(self.y, other.y)
    }
}

/// A run of consecutive lattice coordinates: the half-open range
/// `[start, start + length)`.
#[derive(Clone, Copy, PartialEq, Eq, Structural, Debug)]
pub struct Segment {
    pub start: isize,
    pub length: usize,
}

/// Whether coordinate `x` lies inside the segment.
pub open spec fn seg_contains(s: Segment, x: int) -> bool {
    s.start <= x < s.start + s.length
}

/// The exclusive right edge of the segment.
pub open spec fn seg_end(s: Segment) -> int {
    s.start + s.length
}

/// A segment the interval set accepts: at least one point, and a right
/// edge that still fits in a machine integer.
pub open spec fn seg_valid(s: Segment) -> bool {
    &&& 1 <= s.length
    &&& s.start + s.length <= isize::MAX
}

impl Segment {
    /// Validate and build a segment: it must hold at least one point,
    /// and its right edge must stay within machine range.
    pub fn new(start: isize, length: usize) -> (r: Result<Segment, crate::errors::CoverageError>)
        ensures
            r is Ok <==> (1 <= length && start + length <= isize::MAX),
            r is Ok ==> r->Ok_0 == (Segment { start, length }),
            r is Err ==> r->Err_0 == crate::errors::CoverageError::InvalidSegment,
    {
        if length >= 1 && (start as i128) + (length as i128) <= (isize::MAX as i128) {
            Ok(Segment { start, length })
        } else {
            Err(crate::errors::CoverageError::InvalidSegment)
        }
    }
}

/// Intersect the diamond of the given center and radius with the row `y`.
/// Returns the covered slice of that row, or `None` when the row misses
/// the diamond.
pub fn get_intersection_disk_row(center: &Pos, radius: usize, y: isize) -> (r: Option<Segment>)
    requires
        center.x - radius >= isize::MIN,
        center.x + radius < isize::MAX,
    ensures
        r is Some <==> abs_int(center.y - y) <= radius,
        r is Some ==> {
            let half = radius - abs_int(center.y - y);
            r->Some_0.start == center.x - half && r->Some_0.length == 2 * half + 1
        },
        r is Some ==> seg_valid(r->Some_0),
        forall|x: int|
            #![trigger seg_contains(r->Some_0, x)]
            r is Some ==> (seg_contains(r->Some_0, x) <==> abs_int(x - center.x) + abs_int(
                center.y - y,
            ) <= radius),
{
    let y_diff = abs_diff_isize(center.y, y);
    if y_diff > radius {
        return None;
    }
    let half = radius - y_diff;
    let start = center.x - (half as isize);
    let length = 2 * half + 1;
    Some(Segment { start, length })
}

/// A sensor with its nearest beacon and the Manhattan distance between
/// the two, which is the radius of the area the sensor covers.
pub struct Couple {
    pub sensor: Pos,
    pub beacon: Pos,
    pub distance: usize,
}

impl Couple {
    /// The stored radius really is the sensor-beacon distance.
    pub open spec fn wf(self) -> bool {
        self.distance == manhattan(self.sensor, self.beacon)
    }

    /// Bundle a sensor and its nearest beacon, computing the radius.
    pub fn new(sensor: Pos, beacon: Pos) -> (c: Couple)
        requires
            manhattan(sensor, beacon) <= usize::MAX,
        ensures
            c.sensor == sensor,
            c.beacon == beacon,
            c.wf(),
    {
        let distance = sensor.get_distance(&beacon);
        Couple { sensor, beacon, distance }
    }
}

} // verus!
