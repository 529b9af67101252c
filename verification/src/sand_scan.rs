//! A cave scan filled with rock lines, and grains of sand that fall
//! from a source until they settle or drop past the deepest rock.

use vstd::prelude::*;

verus! {

/// What occupies a square of the cave.
#[derive(PartialEq, Eq, Structural, Clone, Copy, Debug)]
pub enum Tile {
    Rock,
    Sand,
    Air,
}

/// A difference of two cave positions.
pub struct PosDiff {
    pub x: isize,
    pub y: isize,
}

/// The sign of a mathematical integer.
pub open spec fn sign_of(v: int) -> int {
    if v > 0 {
        1
    } else if v < 0 {
        -1
    } else {
        0
    }
}

impl PosDiff {
    /// The difference reduced to one step: each component becomes its
    /// sign.
    pub fn to_normal(&self) -> (r: Self)
        ensures
            r.x == sign_of(self.x as int),
            r.y == sign_of(self.y as int),
    {
        let x: isize = if self.x > 0 {
            1
        } else if self.x < 0 {
            -1
        } else {
            0
        };
        let y: isize = if self.y > 0 {
            1
        } else if self.y < 0 {
            -1
        } else {
            0
        };
        PosDiff { x, y }
    }
}

/// A cave position: column and depth.
#[derive(Hash, Clone, Copy, PartialEq, Eq, Structural, Debug)]
pub struct Pos {
    pub x: usize,
    pub y: usize,
}

impl Pos {
    /// Where the sand pours in.
    pub fn new_sand() -> (r: Self)
        ensures
            r.x == 500 && r.y == 0,
    {
        Pos { x: 500, y: 0 }
    }

    /// This position shifted by a difference.
    pub fn add(&self, other: &PosDiff) -> (r: Self)
        requires
            0 <= self.x + other.x <= usize::MAX,
            0 <= self.y + other.y <= usize::MAX,
        ensures
            r.x == self.x + other.x,
            r.y == self.y + other.y,
    {
        Pos {
            x: ((self.x as i128 + other.x as i128) as usize),
            y: ((self.y as i128 + other.y as i128) as usize),
        }
    }

    /// The difference from another position.
    pub fn sub(&self, other: &Self) -> (r: PosDiff)
        requires
            isize::MIN <= self.x - other.x <= isize::MAX,
            isize::MIN <= self.y - other.y <= isize::MAX,
        ensures
            r.x == self.x - other.x,
            r.y == self.y - other.y,
    {
        PosDiff {
            x: ((self.x as i128 - other.x as i128) as isize),
            y: ((self.y as i128 - other.y as i128) as isize),
        }
    }
}

/// Whether the scan records something at this position.
pub open spec fn has_pos(content: Seq<(Pos, Tile)>, p: Pos) -> bool {
    exists|i: int| 0 <= i < content.len() && (#[trigger] content[i]).0 == p
}

/// Where the record of this position sits.
pub open spec fn pos_index(content: Seq<(Pos, Tile)>, p: Pos) -> int {
    choose|i: int| 0 <= i < content.len() && (#[trigger] content[i]).0 == p
}

/// What the scan holds at this position; unrecorded squares are air.
pub open spec fn tile_at(content: Seq<(Pos, Tile)>, p: Pos) -> Tile {
    if has_pos(content, p) {
        content[pos_index(content, p)].1
    } else {
        Tile::Air
    }
}

/// Each position is recorded at most once.
pub open spec fn keys_unique(content: Seq<(Pos, Tile)>) -> bool {
    forall|i: int, j: int|
        0 <= i < j < content.len() ==> (#[trigger] content[i]).0 != (#[trigger] content[j]).0
}

/// Where a falling grain moves next: straight down when free, else down
/// left, else down right, and nowhere when all three are taken.
pub open spec fn spec_move(content: Seq<(Pos, Tile)>, p: Pos) -> Option<Pos> {
    let down = Pos { x: p.x, y: (p.y + 1) as usize };
    let down_left = Pos { x: (p.x - 1) as usize, y: (p.y + 1) as usize };
    let down_right = Pos { x: (p.x + 1) as usize, y: (p.y + 1) as usize };
    if tile_at(content, down) == Tile::Air {
        Some(down)
    } else if p.x > 0 && tile_at(content, down_left) == Tile::Air {
        Some(down_left)
    } else if tile_at(content, down_right) == Tile::Air {
        Some(down_right)
    } else {
        None
    }
}

/// Whether a position lies on the straight, axis-aligned line between
/// two corners, ends included.
pub open spec fn on_line(a: Pos, b: Pos, p: Pos) -> bool {
    if a.x == b.x {
        p.x == a.x && (a.y <= p.y <= b.y || b.y <= p.y <= a.y)
    } else {
        p.y == a.y && (a.x <= p.x <= b.x || b.x <= p.x <= a.x)
    }
}

/// The number of steps between two positions of one line.
pub open spec fn line_dist(a: Pos, b: Pos) -> int {
    (if a.x >= b.x {
        a.x - b.x
    } else {
        b.x - a.x
    }) + (if a.y >= b.y {
        a.y - b.y
    } else {
        b.y - a.y
    })
}

/// One more than the deeper end of a rock line.
pub open spec fn seg_depth(a: Pos, b: Pos) -> int {
    1 + if a.y >= b.y {
        a.y as int
    } else {
        b.y as int
    }
}

/// The scan: the recorded squares and the depth just below the deepest
/// rock.
pub struct Scan {
    pub depth: usize,
    pub content: Vec<(Pos, Tile)>,
}

/// A record holding this key sits at the unique position allowed.
proof fn lemma_pos_index_unique(content: Seq<(Pos, Tile)>, p: Pos, i: int)
    requires
        keys_unique(content),
        0 <= i < content.len(),
        content[i].0 == p,
    ensures
        has_pos(content, p),
        pos_index(content, p) == i,
{
    assert(has_pos(content, p));
}

impl Scan {
    /// Every square is recorded at most once.
    pub open spec fn wf(self) -> bool {
        keys_unique(self.content@)
    }

    /// An empty scan of depth one.
    pub fn new() -> (s: Scan)
        ensures
            s.wf(),
            s.depth == 1,
            s.content@.len() == 0,
    {
        Scan { depth: 1, content: Vec::new() }
    }

    /// What the scan holds at a position.
    pub fn get_tile_content(&self, pos: &Pos) -> (r: Tile)
        requires
            self.wf(),
        ensures
            r == tile_at(self.content@, *pos),
    {
        let n = self.content.len();
        let mut i: usize = 0;
        while i < n
            invariant
                self.wf(),
                n == self.content@.len(),
                0 <= i <= n,
                forall|j: int| 0 <= j < i ==> (#[trigger] self.content@[j]).0 != *pos,
            decreases n - i,
        {
            if self.content[i].0.x == pos.x && self.content[i].0.y == pos.y {
                proof {
                    lemma_pos_index_unique(self.content@, *pos, i as int);
                }
                return self.content[i].1;
            }
            i = i + 1;
        }
        proof {
            if has_pos(self.content@, *pos) {
                let j = pos_index(self.content@, *pos);
                assert(false);
            }
        }
        Tile::Air
    }

    /// Whether a square is free.
    pub fn is_air(&self, pos: &Pos) -> (r: bool)
        requires
            self.wf(),
        ensures
            r == (tile_at(self.content@, *pos) == Tile::Air),
    {
        let tile = self.get_tile_content(pos);
        match tile {
            Tile::Air => true,
            _ => false,
        }
    }

    /// Record a tile at a square, replacing what was there.
    #[verifier::rlimit(60)]
    fn set_tile(&mut self, pos: &Pos, tile: Tile)
        requires
            old(self).wf(),
        ensures
            final(self).wf(),
            final(self).depth == old(self).depth,
            tile_at(final(self).content@, *pos) == tile,
            forall|q: Pos|
                q != *pos ==> #[trigger] tile_at(final(self).content@, q) == tile_at(
                    old(self).content@,
                    q,
                ),
    {
        let ghost orig = self.content@;
        let n = self.content.len();
        let mut i: usize = 0;
        while i < n
            invariant
                self.content@ == orig,
                orig == old(self).content@,
                self.depth == old(self).depth,
                keys_unique(orig),
                n == orig.len(),
                0 <= i <= n,
                forall|j: int| 0 <= j < i ==> (#[trigger] orig[j]).0 != *pos,
            decreases n - i,
        {
            if self.content[i].0.x == pos.x && self.content[i].0.y == pos.y {
                self.content[i] = (Pos { x: pos.x, y: pos.y }, tile);
                proof {
                    let fin = self.content@;
                    assert(fin == orig.update(i as int, (Pos { x: pos.x, y: pos.y }, tile)));
                    assert(forall|j: int|
                        0 <= j < fin.len() ==> (#[trigger] fin[j]).0 == orig[j].0);
                    assert(keys_unique(fin));
                    lemma_pos_index_unique(fin, *pos, i as int);
                    assert forall|q: Pos| q != *pos implies #[trigger] tile_at(fin, q) == tile_at(
                        orig,
                        q,
                    ) by {
                        if has_pos(orig, q) {
                            let j = pos_index(orig, q);
                            lemma_pos_index_unique(fin, q, j);
                        }
                        if has_pos(fin, q) {
                            let j = pos_index(fin, q);
                            lemma_pos_index_unique(orig, q, j);
                        }
                    }
                }
                return ;
            }
            i = i + 1;
        }
        let copy = Pos { x: pos.x, y: pos.y };
        self.content.push((copy, tile));
        proof {
            let fin = self.content@;
            assert(fin == orig.push((copy, tile)));
            assert(fin[orig.len() as int].0 == *pos);
            assert forall|i1: int, j1: int| 0 <= i1 < j1 < fin.len() implies (
            #[trigger] fin[i1]).0 != (#[trigger] fin[j1]).0 by {
                if j1 < orig.len() {
                    assert(fin[i1] == orig[i1] && fin[j1] == orig[j1]);
                } else {
                    assert(fin[i1] == orig[i1]);
                }
            }
            lemma_pos_index_unique(fin, *pos, orig.len() as int);
            assert forall|q: Pos| q != *pos implies #[trigger] tile_at(fin, q) == tile_at(
                orig,
                q,
            ) by {
                if has_pos(orig, q) {
                    let j = pos_index(orig, q);
                    lemma_pos_index_unique(fin, q, j);
                }
                if has_pos(fin, q) {
                    let j = pos_index(fin, q);
                    assert(j != orig.len());
                    lemma_pos_index_unique(orig, q, j);
                }
            }
        }
    }

    /// Record one rock and deepen the scan down to it.
    pub fn add_rock(&mut self, pos: &Pos)
        requires
            old(self).wf(),
            pos.y < usize::MAX,
        ensures
            final(self).wf(),
            tile_at(final(self).content@, *pos) == Tile::Rock,
            forall|q: Pos|
                q != *pos ==> #[trigger] tile_at(final(self).content@, q) == tile_at(
                    old(self).content@,
                    q,
                ),
            final(self).depth == (if old(self).depth >= pos.y + 1 {
                old(self).depth as int
            } else {
                pos.y + 1
            }),
    {
        self.set_tile(pos, Tile::Rock);
        if pos.y + 1 > self.depth {
            self.depth = pos.y + 1;
        }
    }

    /// Draw one straight rock line between two aligned corners, both
    /// ends included.
    pub fn add_rocks_line(&mut self, from_pos: &Pos, to_pos: &Pos)
        requires
            old(self).wf(),
            from_pos.x == to_pos.x || from_pos.y == to_pos.y,
            from_pos.y < usize::MAX && to_pos.y < usize::MAX,
            isize::MIN < to_pos.x - from_pos.x < isize::MAX,
            isize::MIN < to_pos.y - from_pos.y < isize::MAX,
        ensures
            final(self).wf(),
            forall|q: Pos|
                #[trigger] tile_at(final(self).content@, q) == (if on_line(*from_pos, *to_pos, q) {
                    Tile::Rock
                } else {
                    tile_at(old(self).content@, q)
                }),
            final(self).depth == (if old(self).depth >= seg_depth(*from_pos, *to_pos) {
                old(self).depth as int
            } else {
                seg_depth(*from_pos, *to_pos)
            }),
    {
        let ghost orig = self.content@;
        let ghost d0 = self.depth as int;
        let mut pos = Pos { x: from_pos.x, y: from_pos.y };
        let vector = to_pos.sub(from_pos).to_normal();
        while !(pos.x == to_pos.x && pos.y == to_pos.y)
            invariant
                self.wf(),
                from_pos.x == to_pos.x || from_pos.y == to_pos.y,
                from_pos.y < usize::MAX && to_pos.y < usize::MAX,
                on_line(*from_pos, *to_pos, pos),
                vector.x == sign_of(to_pos.x - from_pos.x),
                vector.y == sign_of(to_pos.y - from_pos.y),
                forall|q: Pos|
                    #[trigger] tile_at(self.content@, q) == (if on_line(*from_pos, *to_pos, q)
                        && line_dist(*from_pos, q) < line_dist(*from_pos, pos) {
                        Tile::Rock
                    } else {
                        tile_at(orig, q)
                    }),
                d0 <= self.depth,
                self.depth as int <= (if d0 >= seg_depth(*from_pos, *to_pos) {
                    d0
                } else {
                    seg_depth(*from_pos, *to_pos)
                }),
                line_dist(*from_pos, pos) > 0 ==> self.depth >= from_pos.y + 1,
            decreases line_dist(pos, *to_pos),
        {
            self.add_rock(&pos);
            pos = pos.add(&vector);
        }
        self.add_rock(&pos);
        proof {
            assert forall|q: Pos| #[trigger]
                tile_at(self.content@, q) == (if on_line(*from_pos, *to_pos, q) {
                    Tile::Rock
                } else {
                    tile_at(orig, q)
                }) by {
                if on_line(*from_pos, *to_pos, q) {
                    assert(line_dist(*from_pos, q) <= line_dist(*from_pos, *to_pos));
                }
            }
        }
    }

    /// Draw the rock lines of one scanned path: every pair of adjacent
    /// corners becomes one straight line.
    pub fn add_rocks_lines(&mut self, rocks_lines: &Vec<Pos>)
        requires
            old(self).wf(),
            forall|i: int|
                1 <= i < rocks_lines@.len() ==> ((#[trigger] rocks_lines@[i]).x == rocks_lines@[i
                    - 1].x || rocks_lines@[i].y == rocks_lines@[i - 1].y),
            forall|i: int|
                0 <= i < rocks_lines@.len() ==> (#[trigger] rocks_lines@[i]).y < usize::MAX && (
                rocks_lines@[i]).x < usize::MAX - 1,
            forall|i: int|
                1 <= i < rocks_lines@.len() ==> isize::MIN < (#[trigger] rocks_lines@[i]).x
                    - rocks_lines@[i - 1].x < isize::MAX && isize::MIN < rocks_lines@[i].y
                    - rocks_lines@[i - 1].y < isize::MAX,
        ensures
            final(self).wf(),
            forall|q: Pos|
                #[trigger] tile_at(final(self).content@, q) == (if exists|i: int|
                    1 <= i < rocks_lines@.len() && on_line(
                        #[trigger] rocks_lines@[i - 1],
                        rocks_lines@[i],
                        q,
                    ) {
                    Tile::Rock
                } else {
                    tile_at(old(self).content@, q)
                }),
    {
        let ghost orig = self.content@;
        let ghost rs = rocks_lines@;
        let n = rocks_lines.len();
        let mut i: usize = 1;
        while i < n
            invariant
                self.wf(),
                rs == rocks_lines@,
                n == rs.len(),
                1 <= i <= n || (i == 1 && n == 0),
                forall|k: int|
                    1 <= k < n ==> ((#[trigger] rs[k]).x == rs[k - 1].x || rs[k].y == rs[k - 1].y),
                forall|k: int|
                    0 <= k < n ==> (#[trigger] rs[k]).y < usize::MAX && (rs[k]).x < usize::MAX - 1,
                forall|k: int|
                    1 <= k < n ==> isize::MIN < (#[trigger] rs[k]).x - rs[k - 1].x < isize::MAX
                        && isize::MIN < rs[k].y - rs[k - 1].y < isize::MAX,
                forall|q: Pos|
                    #[trigger] tile_at(self.content@, q) == (if exists|k: int|
                        1 <= k < i && on_line(#[trigger] rs[k - 1], rs[k], q) {
                        Tile::Rock
                    } else {
                        tile_at(orig, q)
                    }),
            decreases n - i,
        {
            let previous_rock = &rocks_lines[i - 1];
            let rock = &rocks_lines[i];
            let ghost before = self.content@;
            self.add_rocks_line(previous_rock, rock);
            proof {
                assert forall|q: Pos| #[trigger]
                    tile_at(self.content@, q) == (if exists|k: int|
                        1 <= k < i + 1 && on_line(#[trigger] rs[k - 1], rs[k], q) {
                        Tile::Rock
                    } else {
                        tile_at(orig, q)
                    }) by {
                    if exists|k: int| 1 <= k < i + 1 && on_line(#[trigger] rs[k - 1], rs[k], q) {
                        let k = choose|k: int|
                            1 <= k < i + 1 && on_line(#[trigger] rs[k - 1], rs[k], q);
                        if k < i {
                            assert(tile_at(before, q) == Tile::Rock);
                        } else {
                            assert(on_line(rs[i - 1], rs[i as int], q));
                        }
                    }
                }
            }
            i = i + 1;
        }
    }

    /// Drop one grain from the source: the result tells whether it came
    /// to rest inside the scan.
    #[verifier::rlimit(60)]
    pub fn try_generate_sand(&mut self) -> (r: bool)
        requires
            old(self).wf(),
            old(self).depth < usize::MAX - 503,
            tile_at(old(self).content@, Pos { x: 500, y: 0 }) != Tile::Rock,
        ensures
            final(self).wf(),
            final(self).depth == old(self).depth,
            !r ==> *final(self) == *old(self),
            r ==> exists|p: Pos|
                {
                    &&& spec_move(old(self).content@, p) is None
                    &&& tile_at(old(self).content@, p) != Tile::Rock
                    &&& tile_at(final(self).content@, p) == Tile::Sand
                    &&& (forall|q: Pos|
                        q != p ==> #[trigger] tile_at(final(self).content@, q) == tile_at(
                            old(self).content@,
                            q,
                        ))
                },
    {
        let mut pos = Pos::new_sand();
        loop
            invariant
                self.wf(),
                *self == *old(self),
                self.depth < usize::MAX - 503,
                pos.y <= self.depth,
                pos.x <= 500 + pos.y,
                pos == (Pos { x: 500, y: 0 }) || tile_at(self.content@, pos) == Tile::Air,
                tile_at(self.content@, Pos { x: 500, y: 0 }) != Tile::Rock,
            ensures
                self.wf(),
                *self == *old(self),
                spec_move(self.content@, pos) is None,
                tile_at(self.content@, pos) != Tile::Rock,
            decreases self.depth + 1 - pos.y,
        {
            let new_pos = self.try_move_sand(&pos);
            match new_pos {
                Some(some_new_pos) => {
                    pos = some_new_pos;
                },
                None => {
                    break ;
                },
            }
            if pos.y > self.depth {
                return false;
            }
        }
        self.try_add_sand(&pos)
    }

    /// Where a grain standing at a square moves next, if anywhere.
    pub fn try_move_sand(&self, incoming_sand_pos: &Pos) -> (r: Option<Pos>)
        requires
            self.wf(),
            incoming_sand_pos.y < usize::MAX,
            incoming_sand_pos.x < usize::MAX,
        ensures
            r == spec_move(self.content@, *incoming_sand_pos),
            r is Some ==> r->Some_0.y == incoming_sand_pos.y + 1,
            r is Some ==> incoming_sand_pos.x - 1 <= r->Some_0.x <= incoming_sand_pos.x + 1,
            r is Some ==> tile_at(self.content@, r->Some_0) == Tile::Air,
    {
        let y = incoming_sand_pos.y + 1;
        let down = Pos { x: incoming_sand_pos.x, y };
        if self.is_air(&down) {
            return Some(down);
        }
        if incoming_sand_pos.x > 0 {
            let down_left = Pos { x: incoming_sand_pos.x - 1, y };
            if self.is_air(&down_left) {
                return Some(down_left);
            }
        }
        let down_right = Pos { x: incoming_sand_pos.x + 1, y };
        if self.is_air(&down_right) {
            return Some(down_right);
        }
        None
    }

    /// Let a grain come to rest at a square, unless sand already fills
    /// it; resting on top of rock in place is a fault of the caller.
    pub fn try_add_sand(&mut self, pos: &Pos) -> (r: bool)
        requires
            old(self).wf(),
            tile_at(old(self).content@, *pos) != Tile::Rock,
        ensures
            final(self).wf(),
            final(self).depth == old(self).depth,
            r == (tile_at(old(self).content@, *pos) != Tile::Sand),
            !r ==> *final(self) == *old(self),
            r ==> tile_at(final(self).content@, *pos) == Tile::Sand,
            r ==> forall|q: Pos|
                q != *pos ==> #[trigger] tile_at(final(self).content@, q) == tile_at(
                    old(self).content@,
                    q,
                ),
    {
        let tile = self.get_tile_content(pos);
        match tile {
            Tile::Sand => false,
            _ => {
                self.set_tile(pos, Tile::Sand);
                true
            },
        }
    }
}

} // verus!
