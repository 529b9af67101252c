//! A rectangular forest of tree heights, and the visibility of a tree
//! from outside the grid.

use vstd::prelude::*;
use vstd::string::StrSliceExecFns;

use crate::parsing::is_digit;

verus! {

/// A spot in the grid.
#[derive(Clone, Copy)]
pub struct Position {
    pub column_idx: usize,
    pub row_idx: usize,
}

/// The grid of tree heights, stored row by row.
pub struct Forest {
    pub rows: Vec<Vec<u8>>,
}

/// The heights of one column slice, rows `from` (inclusive) to `to`
/// (exclusive).
pub open spec fn column_between(rows: Seq<Vec<u8>>, col: int, from: int, to: int) -> Seq<u8> {
    Seq::new((to - from) as nat, |k: int| rows[from + k]@[col])
}

/// Every entry is strictly lower than the given height.
pub open spec fn all_lower(s: Seq<u8>, h: u8) -> bool {
    forall|t: int| 0 <= t < s.len() ==> s[t] < h
}

impl Forest {
    /// All rows have the same width.
    pub open spec fn wf(self) -> bool {
        forall|i: int| 0 <= i < self.rows@.len() ==> (#[trigger] self.rows@[i])@.len()
            == self.rows@[0]@.len()
    }

    /// The position points at a tree of the grid.
    pub open spec fn pos_valid(self, pos: Position) -> bool {
        pos.row_idx < self.rows@.len() && pos.column_idx < self.rows@[0]@.len()
    }

    /// An empty forest.
    pub fn new() -> (f: Forest)
        ensures
            f.wf(),
            f.rows@.len() == 0,
    {
        Forest { rows: Vec::new() }
    }

    /// Append one row of digit heights; its width must match the grid.
    pub fn add_line(&mut self, line: &str)
        requires
            old(self).wf(),
            forall|k: int| 0 <= k < line@.len() ==> is_digit(#[trigger] line@[k]),
            old(self).rows@.len() > 0 ==> line@.len() == old(self).rows@[0]@.len(),
        ensures
            final(self).wf(),
            final(self).rows@.len() == old(self).rows@.len() + 1,
            forall|i: int|
                0 <= i < old(self).rows@.len() ==> #[trigger] final(self).rows@[i] == old(self).rows@[i],
            final(self).rows@.last()@.len() == line@.len(),
            forall|k: int|
                0 <= k < line@.len() ==> final(self).rows@.last()@[k] == line@[k] as int - '0' as int,
    {
        let len = line.unicode_len();
        let mut row: Vec<u8> = Vec::new();
        let mut i: usize = 0;
        while i < len
            invariant
                len == line@.len(),
                0 <= i <= len,
                forall|k: int| 0 <= k < line@.len() ==> is_digit(#[trigger] line@[k]),
                row@.len() == i,
                forall|k: int| 0 <= k < i ==> row@[k] == line@[k] as int - '0' as int,
            decreases len - i,
        {
            let c = line.get_char(i);
            let d = ((c as u32) - ('0' as u32)) as u8;
            row.push(d);
            i = i + 1;
        }
        self.rows.push(row);
    }

    /// How many rows the grid has.
    pub fn get_height(&self) -> (r: usize)
        ensures
            r == self.rows@.len(),
    {
        self.rows.len()
    }

    /// How many columns the grid has.
    pub fn get_width(&self) -> (r: usize)
        requires
            self.rows@.len() > 0,
        ensures
            r == self.rows@[0]@.len(),
    {
        self.rows[0].len()
    }

    /// The height of the tree at the position.
    pub fn get_tree_size(&self, pos: &Position) -> (r: u8)
        requires
            self.wf(),
            self.pos_valid(*pos),
        ensures
            r == self.rows@[pos.row_idx as int]@[pos.column_idx as int],
    {
        self.rows[pos.row_idx][pos.column_idx]
    }

    /// The heights left of the position, left to right.
    pub fn get_left_trees(&self, pos: &Position) -> (r: Vec<u8>)
        requires
            self.wf(),
            self.pos_valid(*pos),
        ensures
            r@ == self.rows@[pos.row_idx as int]@.subrange(0, pos.column_idx as int),
    {
        let row = &self.rows[pos.row_idx];
        let mut r: Vec<u8> = Vec::new();
        let mut i: usize = 0;
        while i < pos.column_idx
            invariant
                pos.column_idx <= row@.len(),
                0 <= i <= pos.column_idx,
                r@ == row@.subrange(0, i as int),
            decreases pos.column_idx - i,
        {
            r.push(row[i]);
            proof {
                assert(r@ =~= row@.subrange(0, i + 1));
            }
            i = i + 1;
        }
        r
    }

    /// The heights right of the position, left to right.
    pub fn get_right_trees(&self, pos: &Position) -> (r: Vec<u8>)
        requires
            self.wf(),
            self.pos_valid(*pos),
        ensures
            r@ == self.rows@[pos.row_idx as int]@.subrange(
                pos.column_idx + 1,
                self.rows@[0]@.len() as int,
            ),
    {
        let row = &self.rows[pos.row_idx];
        let w = row.len();
        let mut r: Vec<u8> = Vec::new();
        let mut i: usize = pos.column_idx + 1;
        while i < w
            invariant
                pos.column_idx < i <= w || i == pos.column_idx + 1,
                w == row@.len(),
                i <= w || i == w + 1 || (pos.column_idx + 1 == i),
                pos.column_idx + 1 <= i,
                i <= if w > pos.column_idx + 1 {
                    w as int
                } else {
                    pos.column_idx + 1
                },
                r@ == row@.subrange(pos.column_idx + 1, i as int),
            decreases w - i,
        {
            r.push(row[i]);
            proof {
                assert(r@ =~= row@.subrange(pos.column_idx + 1, i + 1));
            }
            i = i + 1;
        }
        proof {
            if w <= pos.column_idx + 1 {
                assert(r@ =~= row@.subrange(pos.column_idx + 1, w as int));
            }
        }
        r
    }

    /// The heights above the position, top to bottom.
    pub fn get_top_trees(&self, pos: &Position) -> (r: Vec<u8>)
        requires
            self.wf(),
            self.pos_valid(*pos),
        ensures
            r@ == column_between(self.rows@, pos.column_idx as int, 0, pos.row_idx as int),
    {
        let mut r: Vec<u8> = Vec::new();
        let mut i: usize = 0;
        while i < pos.row_idx
            invariant
                self.wf(),
                self.pos_valid(*pos),
                0 <= i <= pos.row_idx,
                r@ == column_between(self.rows@, pos.column_idx as int, 0, i as int),
            decreases pos.row_idx - i,
        {
            r.push(self.rows[i][pos.column_idx]);
            proof {
                assert(r@ =~= column_between(self.rows@, pos.column_idx as int, 0, i + 1));
            }
            i = i + 1;
        }
        r
    }

    /// The heights below the position, top to bottom.
    pub fn get_bottom_trees(&self, pos: &Position) -> (r: Vec<u8>)
        requires
            self.wf(),
            self.pos_valid(*pos),
        ensures
            r@ == column_between(
                self.rows@,
                pos.column_idx as int,
                pos.row_idx + 1,
                self.rows@.len() as int,
            ),
    {
        let h = self.rows.len();
        let mut r: Vec<u8> = Vec::new();
        let mut i: usize = pos.row_idx + 1;
        while i < h
            invariant
                self.wf(),
                self.pos_valid(*pos),
                h == self.rows@.len(),
                pos.row_idx + 1 <= i,
                i <= h || i == pos.row_idx + 1,
                r@ == column_between(self.rows@, pos.column_idx as int, pos.row_idx + 1, i as int),
            decreases h - i,
        {
            r.push(self.rows[i][pos.column_idx]);
            proof {
                assert(r@ =~= column_between(
                    self.rows@,
                    pos.column_idx as int,
                    pos.row_idx + 1,
                    i + 1,
                ));
            }
            i = i + 1;
        }
        proof {
            if h <= pos.row_idx + 1 {
                assert(r@ =~= column_between(
                    self.rows@,
                    pos.column_idx as int,
                    pos.row_idx + 1,
                    h as int,
                ));
            }
        }
        r
    }

    /// A tree is visible when it sits on the border, or when every tree
    /// in at least one of the four directions is strictly lower.
    pub fn is_tree_visible(&self, pos: &Position) -> (r: bool)
        requires
            self.wf(),
            self.pos_valid(*pos),
        ensures
            r == {
                let row = self.rows@[pos.row_idx as int]@;
                let h = row[pos.column_idx as int];
                ||| pos.row_idx == 0
                ||| pos.row_idx == self.rows@.len() - 1
                ||| pos.column_idx == 0
                ||| pos.column_idx == self.rows@[0]@.len() - 1
                ||| all_lower(column_between(self.rows@, pos.column_idx as int, 0, pos.row_idx as int), h)
                ||| all_lower(
                    column_between(
                        self.rows@,
                        pos.column_idx as int,
                        pos.row_idx + 1,
                        self.rows@.len() as int,
                    ),
                    h,
                )
                ||| all_lower(row.subrange(0, pos.column_idx as int), h)
                ||| all_lower(row.subrange(pos.column_idx + 1, self.rows@[0]@.len() as int), h)
            },
    {
        if pos.row_idx == 0 || pos.row_idx == self.get_height() - 1 || pos.column_idx == 0
            || pos.column_idx == self.get_width() - 1 {
            return true;
        }
        let tree_size = self.get_tree_size(pos);
        let top = self.get_top_trees(pos);
        if all_lower_exec(&top, tree_size) {
            return true;
        }
        let bottom = self.get_bottom_trees(pos);
        if all_lower_exec(&bottom, tree_size) {
            return true;
        }
        let left = self.get_left_trees(pos);
        if all_lower_exec(&left, tree_size) {
            return true;
        }
        let right = self.get_right_trees(pos);
        all_lower_exec(&right, tree_size)
    }

    /// Walk every position of the grid.
    pub fn get_trees_iter(&self) -> (it: PositionsIterator)
        requires
            self.wf(),
            self.rows@.len() > 0,
        ensures
            it.forest == *self,
            it.pos.column_idx == 0,
            it.pos.row_idx == 0,
    {
        PositionsIterator::new(self)
    }
}

/// Every entry strictly lower than the given height, checked one by one.
fn all_lower_exec(v: &Vec<u8>, h: u8) -> (r: bool)
    ensures
        r == all_lower(v@, h),
{
    let n = v.len();
    let mut i: usize = 0;
    while i < n
        invariant
            0 <= i <= n,
            n == v@.len(),
            forall|t: int| 0 <= t < i ==> v@[t] < h,
        decreases n - i,
    {
        if v[i] >= h {
            return false;
        }
        i = i + 1;
    }
    true
}

/// A cursor over the positions of a forest, walking each column from
/// top to bottom before moving right.
pub struct PositionsIterator<'a> {
    pub forest: &'a Forest,
    pub pos: Position,
}

impl<'a> PositionsIterator<'a> {
    /// Start at the top-left corner.
    pub fn new(forest: &'a Forest) -> (it: PositionsIterator<'a>)
        requires
            forest.wf(),
            forest.rows@.len() > 0,
        ensures
            it.forest == forest,
            it.pos.column_idx == 0,
            it.pos.row_idx == 0,
    {
        let pos = Position { column_idx: 0, row_idx: 0 };
        PositionsIterator { pos, forest }
    }

    /// Yield the current position and step down the column, or report
    /// the end of the walk.
    pub fn next(&mut self) -> (r: Option<Position>)
        requires
            old(self).forest.wf(),
            old(self).forest.rows@.len() > 0,
            old(self).pos.row_idx < usize::MAX,
            old(self).pos.column_idx < usize::MAX,
        ensures
            final(self).forest == old(self).forest,
            r is Some <==> (old(self).pos.column_idx < old(self).forest.rows@[0]@.len() && old(self).pos.row_idx < old(self).forest.rows@.len()),
            r is Some ==> {
                &&& r->Some_0.column_idx == old(self).pos.column_idx
                &&& r->Some_0.row_idx == old(self).pos.row_idx
                &&& (if old(self).pos.row_idx + 1 >= old(self).forest.rows@[0]@.len() {
                    final(self).pos.row_idx == 0 && final(self).pos.column_idx == old(self).pos.column_idx + 1
                } else {
                    final(self).pos.row_idx == old(self).pos.row_idx + 1 && final(self).pos.column_idx == old(self).pos.column_idx
                })
            },
            r is None ==> *final(self) == *old(self),
    {
        if self.pos.column_idx >= self.forest.get_width() || self.pos.row_idx
            >= self.forest.get_height() {
            return None;
        }
        let item = self.pos.clone();
        proof {
            assert(item.column_idx == self.pos.column_idx && item.row_idx == self.pos.row_idx);
        }
        self.pos.row_idx = self.pos.row_idx + 1;
        if self.pos.row_idx >= self.forest.get_width() {
            self.pos.row_idx = 0;
            self.pos.column_idx = self.pos.column_idx + 1;
        }
        Some(item)
    }
}

} // verus!
