//! A lazy walk over the boundary of a diamond: every lattice point at
//! Manhattan distance exactly `radius` from a center, visited once.
//!
//! The walk starts at the top vertex and sweeps row by row downwards,
//! visiting the left edge point and then the right edge point of each
//! row, and ends at the bottom vertex.  For radius zero it yields just
//! the center.

use vstd::prelude::*;

use crate::geometry::Pos;
use crate::geometry::abs_int;

verus! {

/// How many points the walk of the given radius yields.
pub open spec fn circle_count(radius: nat) -> nat {
    if radius == 0 {
        1
    } else {
        4 * radius
    }
}

/// The `k`-th point of the walk, as a pair of mathematical coordinates.
pub open spec fn circle_point(center: Pos, radius: nat, k: nat) -> (int, int) {
    let cx = center.x as int;
    let cy = center.y as int;
    let r = radius as int;
    if r == 0 {
        (cx, cy)
    } else if k == 0 {
        (cx, cy + r)
    } else if k == 4 * r - 1 {
        (cx, cy - r)
    } else {
        let j = (k + 1) as int / 2;
        let off = r - abs_int(r - j);
        let y = cy + r - j;
        if k % 2 == 1 {
            (cx - off, y)
        } else {
            (cx + off, y)
        }
    }
}

/// A cursor walking the boundary of the diamond around `center` with the
/// given `radius`.
pub struct CircleIterator {
    pub center: Pos,
    pub radius: usize,
    pub x: isize,
    pub y: isize,
}

impl CircleIterator {
    /// The machine bounds under which every cursor move stays in range.
    pub open spec fn bounds_ok(self) -> bool {
        &&& self.center.y + self.radius <= isize::MAX
    &&& self.center.y - self.radius - 1 >= isize::MIN
    &&& self.center.x - self.radius - 1 >= isize::MIN
    &&& self.center.x + self.radius <= isize::MAX
    }

    /// The row the cursor stands on, counted from the top vertex.
    pub open spec fn row(self) -> int {
        self.center.y + self.radius - self.y
    }

    /// The cursor is one of the walk's states: on a vertex, on one of the
    /// two edge points of a middle row, or just past the bottom vertex.
    pub open spec fn wf(self) -> bool {
        let r = self.radius as int;
        let cx = self.center.x as int;
        let j = self.row();
        &&& self.bounds_ok()
    &&& 0 <= j <= 2 * r + 1
    &&& (j == 0 ==> self.x == cx)
    &&& (r > 0 && j == 2 * r ==> self.x == cx)
    &&& (r > 0 && 0 < j < 2 * r ==> self.x == cx - (r - abs_int(r - j)) || self.x == cx + (r
        - abs_int(r - j)))
    &&& (j == 2 * r + 1 ==> self.x == cx - 1)
    }

    /// How many points the walk has already yielded in this state.
    pub open spec fn emitted(self) -> nat {
        let r = self.radius as int;
        let cx = self.center.x as int;
        let j = self.row();
        if j <= 0 {
            0
        } else if j == 2 * r + 1 {
            circle_count(self.radius as nat)
        } else if j == 2 * r {
            (4 * r - 1) as nat
        } else if self.x == cx - (r - abs_int(r - j)) {
            (2 * j - 1) as nat
        } else {
            (2 * j) as nat
        }
    }

    /// Start the walk at the top vertex of the diamond.
    pub fn new(center: Pos, radius: usize) -> (it: CircleIterator)
        requires
            center.y + radius <= isize::MAX,
            center.y - radius - 1 >= isize::MIN,
            center.x - radius - 1 >= isize::MIN,
            center.x + radius <= isize::MAX,
        ensures
            it.wf(),
            it.center == center,
            it.radius == radius,
            it.emitted() == 0,
    {
        let x = center.x;
        let y = center.y + (radius as isize);
        CircleIterator { center, radius, x, y }
    }

    /// Half the width of the diamond on the cursor's current row.
    pub fn get_x_offset(&self) -> (off: usize)
        requires
            abs_int(self.y - self.center.y) <= self.radius,
        ensures
            off == self.radius - abs_int(self.y - self.center.y),
    {
        self.radius - crate::geometry::abs_diff_isize(self.y, self.center.y)
    }

    /// Yield the next boundary point, or `None` once the walk is done.
    pub fn next(&mut self) -> (r: Option<Pos>)
        requires
            old(self).wf(),
        ensures
            final(self).wf(),
            final(self).center == old(self).center,
            final(self).radius == old(self).radius,
            old(self).emitted() < circle_count(old(self).radius as nat) ==> {
                &&& r is Some
                &&& (r->Some_0.x as int, r->Some_0.y as int) == circle_point(
                    old(self).center,
                    old(self).radius as nat,
                    old(self).emitted(),
                )
                &&& final(self).emitted() == old(self).emitted() + 1
            },
            old(self).emitted() >= circle_count(old(self).radius as nat) ==> {
                &&& r is None
                &&& final(self).emitted() == old(self).emitted()
            },
    {
        if crate::geometry::abs_diff_isize(self.y, self.center.y) > self.radius {
            return None;
        }
        let pos = Pos { x: self.x, y: self.y };
        if self.x == self.center.x {
            self.x = self.center.x - 1;
            self.y = self.y - 1;
        } else {
            let x_offset = self.get_x_offset();
            if self.x == self.center.x - (x_offset as isize) {
                self.x = self.center.x + (x_offset as isize);
            } else {
                self.y = self.y - 1;
                let x_offset = self.get_x_offset();
                self.x = self.center.x - (x_offset as isize);
            }
        }
        Some(pos)
    }
}

impl Pos {
    /// Walk the boundary of the diamond around this point.
    pub fn get_circle_iter(&self, radius: usize) -> (it: CircleIterator)
        requires
            self.y + radius <= isize::MAX,
            self.y - radius - 1 >= isize::MIN,
            self.x - radius - 1 >= isize::MIN,
            self.x + radius <= isize::MAX,
        ensures
            it.wf(),
            it.center == *self,
            it.radius == radius,
            it.emitted() == 0,
    {
        CircleIterator::new(self.clone(), radius)
    }
}

/// Perimeter completeness: the walk of a given radius yields
/// `max(1, 4*radius)` points, pairwise distinct, and every one of them
/// lies at Manhattan distance exactly `radius` from the center.
pub proof fn lemma_circle_points(center: Pos, radius: nat)
    ensures
        forall|k: nat|
            k < circle_count(radius) ==> {
                let p = #[trigger] circle_point(center, radius, k);
                abs_int(p.0 - center.x) + abs_int(p.1 - center.y) == radius
            },
        forall|k1: nat, k2: nat|
            k1 < k2 < circle_count(radius) ==> #[trigger] circle_point(center, radius, k1)
                != #[trigger] circle_point(center, radius, k2),
{
    assert forall|k: nat| k < circle_count(radius) implies {
        let p = #[trigger] circle_point(center, radius, k);
        abs_int(p.0 - center.x) + abs_int(p.1 - center.y) == radius
    } by {
        let r = radius as int;
        if r > 0 && 0 < k < 4 * r - 1 {
            let j = (k + 1) as int / 2;
            assert(1 <= j <= 2 * r - 1);
        }
    }
    assert forall|k1: nat, k2: nat| k1 < k2 < circle_count(radius) implies #[trigger] circle_point(
        center,
        radius,
        k1,
    ) != #[trigger] circle_point(center, radius, k2) by {
        let r = radius as int;
        if r > 0 {
            let j1 = if k1 == 0 {
                0
            } else if k1 == 4 * r - 1 {
                2 * r
            } else {
                (k1 + 1) as int / 2
            };
            let j2 = if k2 == 0 {
                0
            } else if k2 == 4 * r - 1 {
                2 * r
            } else {
                (k2 + 1) as int / 2
            };
            assert(circle_point(center, radius, k1).1 == center.y + r - j1);
            assert(circle_point(center, radius, k2).1 == center.y + r - j2);
            if j1 == j2 {
                assert(0 < j1 < 2 * r);
                assert(k2 == k1 + 1 && k1 % 2 == 1);
                assert(r - abs_int(r - j1) >= 1);
            }
        }
    }
}

} // verus!
