//! A two-knot rope on a grid: the head is steered step by step and the
//! tail drags behind, never more than one square away on either axis.

use vstd::prelude::*;
use vstd::string::StrSliceExecFns;

verus! {

/// A direction the head can be steered in.
pub enum Direction {
    Up,
    Down,
    Left,
    Right,
}

/// The unit step of a direction.
pub open spec fn step_of(d: Direction) -> (int, int) {
    match d {
        Direction::Up => (0int, 1int),
        Direction::Down => (0int, -1int),
        Direction::Right => (1int, 0int),
        Direction::Left => (-1int, 0int),
    }
}

/// The letters that encode a direction.
pub open spec fn is_direction_char(c: char) -> bool {
    c == 'R' || c == 'L' || c == 'U' || c == 'D'
}

/// The direction a letter encodes.
pub open spec fn direction_of_char(c: char) -> Direction {
    if c == 'R' {
        Direction::Right
    } else if c == 'L' {
        Direction::Left
    } else if c == 'U' {
        Direction::Up
    } else {
        Direction::Down
    }
}

impl Direction {
    /// Decode a direction from its letter.
    pub fn from_char(c: char) -> (r: Direction)
        requires
            is_direction_char(c),
        ensures
            r == direction_of_char(c),
    {
        match c {
            'R' => Direction::Right,
            'L' => Direction::Left,
            'U' => Direction::Up,
            _ => Direction::Down,
        }
    }
}

/// A steering command: a direction and how many steps to take.
pub struct Command {
    pub direction: Direction,
    pub nb_steps: usize,
}

impl Command {
    /// Read a command from a line shaped like "R 4": the direction
    /// letter, a blank, and the number of steps.
    pub fn from_str(text: &str) -> (r: Command)
        requires
            text@.len() >= 3,
            is_direction_char(text@[0]),
            text@[1] == ' ',
            forall|k: int| 2 <= k < text@.len() ==> crate::parsing::is_digit(#[trigger] text@[k]),
            crate::parsing::digits_val(text@.subrange(2, text@.len() as int)) <= usize::MAX,
        ensures
            r.direction == direction_of_char(text@[0]),
            r.nb_steps == crate::parsing::digits_val(text@.subrange(2, text@.len() as int)),
    {
        let first_char = text.get_char(0);
        let direction = Direction::from_char(first_char);
        let len = text.unicode_len();
        let nb_steps = crate::parsing::parse_usize(text, 2, len);
        Command { direction, nb_steps }
    }
}

/// A knot position, or a difference of two of them.
#[derive(Clone, Copy, PartialEq, Eq, Structural, Hash, Debug)]
pub struct Position {
    pub x: i16,
    pub y: i16,
}

/// The absolute value of a mathematical integer.
pub open spec fn abs_val(a: int) -> int {
    if a >= 0 {
        a
    } else {
        -a
    }
}

/// One component of the move that closes a two-square gap: the sign of
/// the difference when it spans two squares, the difference itself
/// otherwise.
pub open spec fn catch_component(v: int) -> int {
    if v >= 2 {
        1
    } else if v <= -2 {
        -1
    } else {
        v
    }
}

/// Where the tail ends up after the head moved: in place while it is
/// still adjacent, one step along the closing move otherwise.
pub open spec fn follow(head: Position, tail: Position) -> Position {
    let dx = head.x - tail.x;
    let dy = head.y - tail.y;
    if abs_val(dx) <= 1 && abs_val(dy) <= 1 {
        tail
    } else {
        Position {
            x: (tail.x + catch_component(dx)) as i16,
            y: (tail.y + catch_component(dy)) as i16,
        }
    }
}

/// The head after one step in the direction.
pub open spec fn head_after(head: Position, d: Direction) -> Position {
    Position { x: (head.x + step_of(d).0) as i16, y: (head.y + step_of(d).1) as i16 }
}

/// Head and tail after `n` steps of the head in one direction, the tail
/// dragged along after every step.
pub open spec fn walk(head: Position, tail: Position, d: Direction, n: nat) -> (Position, Position)
    decreases n,
{
    if n == 0 {
        (head, tail)
    } else {
        let prev = walk(head, tail, d, (n - 1) as nat);
        let h = head_after(prev.0, d);
        (h, follow(h, prev.1))
    }
}

impl Position {
    /// Whether this difference spans more than one square on some axis.
    pub fn is_too_far(&self) -> (r: bool)
        ensures
            r == (abs_val(self.x as int) > 1 || abs_val(self.y as int) > 1),
    {
        (self.x > 1 || self.x < -1) || (self.y > 1 || self.y < -1)
    }

    /// The componentwise difference of two positions.
    pub fn sub(&self, b: &Self) -> (r: Self)
        requires
            i16::MIN <= self.x - b.x <= i16::MAX,
            i16::MIN <= self.y - b.y <= i16::MAX,
        ensures
            r.x == self.x - b.x,
            r.y == self.y - b.y,
    {
        let x = self.x - b.x;
        let y = self.y - b.y;
        Position { x, y }
    }

    /// The move that closes this gap by one step per axis.
    pub fn get_catchup_move(&self) -> (r: Self)
        requires
            -2 <= self.x <= 2,
            -2 <= self.y <= 2,
        ensures
            r.x == catch_component(self.x as int),
            r.y == catch_component(self.y as int),
    {
        let x = if self.x >= 2 || self.x <= -2 {
            self.x / 2
        } else {
            self.x
        };
        let y = if self.y >= 2 || self.y <= -2 {
            self.y / 2
        } else {
            self.y
        };
        Position { x, y }
    }

    /// Shift this position by a difference.
    pub fn apply_diff(&mut self, diff: &Self)
        requires
            i16::MIN <= old(self).x + diff.x <= i16::MAX,
            i16::MIN <= old(self).y + diff.y <= i16::MAX,
        ensures
            final(self).x == old(self).x + diff.x,
            final(self).y == old(self).y + diff.y,
    {
        self.x = self.x + diff.x;
        self.y = self.y + diff.y;
    }
}

/// The rope: head, tail, and every square the tail has visited.
pub struct RopeMap {
    pub pos_head: Position,
    pub pos_tail: Position,
    pub pos_tail_history: Vec<Position>,
}

impl RopeMap {
    /// The tail is adjacent to the head, and the visited squares are
    /// recorded once each and include the tail.
    pub open spec fn wf(self) -> bool {
        &&& abs_val(self.pos_head.x - self.pos_tail.x) <= 1
    &&& abs_val(self.pos_head.y - self.pos_tail.y) <= 1
    &&& (forall|i: int, j: int|
        0 <= i < j < self.pos_tail_history@.len() ==> self.pos_tail_history@[i]
            != self.pos_tail_history@[j])
    &&& self.pos_tail_history@.contains(self.pos_tail)
    }

    /// Both knots at the origin, which is already visited.
    pub fn new() -> (m: RopeMap)
        ensures
            m.wf(),
            m.pos_head == (Position { x: 0i16, y: 0i16 }),
            m.pos_tail == (Position { x: 0i16, y: 0i16 }),
            m.pos_tail_history@ =~= seq![Position { x: 0i16, y: 0i16 }],
    {
        let mut pos_tail_history: Vec<Position> = Vec::new();
        let pos_tail = Position { x: 0, y: 0 };
        pos_tail_history.push(pos_tail.clone());
        proof {
            assert(pos_tail_history@.contains(pos_tail_history@[0]));
        }
        RopeMap { pos_head: pos_tail.clone(), pos_tail, pos_tail_history }
    }

    /// Move the head one step.
    fn move_head(&mut self, direction: &Direction)
        requires
            i16::MIN < old(self).pos_head.x < i16::MAX,
            i16::MIN < old(self).pos_head.y < i16::MAX,
        ensures
            final(self).pos_head == head_after(old(self).pos_head, *direction),
            final(self).pos_tail == old(self).pos_tail,
            final(self).pos_tail_history == old(self).pos_tail_history,
    {
        match direction {
            Direction::Up => self.pos_head.y = self.pos_head.y + 1,
            Direction::Down => self.pos_head.y = self.pos_head.y - 1,
            Direction::Right => self.pos_head.x = self.pos_head.x + 1,
            Direction::Left => self.pos_head.x = self.pos_head.x - 1,
        }
    }

    /// Drag the tail one step after the head when it fell behind.
    fn update_tail(&mut self)
        requires
            abs_val(old(self).pos_head.x - old(self).pos_tail.x) <= 2,
            abs_val(old(self).pos_head.y - old(self).pos_tail.y) <= 2,
        ensures
            final(self).pos_tail == follow(old(self).pos_head, old(self).pos_tail),
            final(self).pos_head == old(self).pos_head,
            final(self).pos_tail_history == old(self).pos_tail_history,
            abs_val(final(self).pos_head.x - final(self).pos_tail.x) <= 1,
            abs_val(final(self).pos_head.y - final(self).pos_tail.y) <= 1,
    {
        let diff = self.pos_head.sub(&self.pos_tail);
        if !diff.is_too_far() {
            return ;
        }
        let catchup_move = diff.get_catchup_move();
        self.pos_tail.apply_diff(&catchup_move);
    }

    /// Record the square the tail stands on, once.
    fn record_tail_pos(&mut self)
        requires
            forall|i: int, j: int|
                0 <= i < j < old(self).pos_tail_history@.len() ==> old(self).pos_tail_history@[i]
                    != old(self).pos_tail_history@[j],
        ensures
            final(self).pos_head == old(self).pos_head,
            final(self).pos_tail == old(self).pos_tail,
            forall|i: int, j: int|
                0 <= i < j < final(self).pos_tail_history@.len() ==> final(self).pos_tail_history@[i] != final(self).pos_tail_history@[j],
            forall|p: Position|
                #[trigger] final(self).pos_tail_history@.contains(p) <==> (old(self).pos_tail_history@.contains(p) || p == old(self).pos_tail),
    {
        let ghost before = self.pos_tail_history@;
        let mut found = false;
        let n = self.pos_tail_history.len();
        let mut i: usize = 0;
        while i < n
            invariant
                n == self.pos_tail_history@.len(),
                0 <= i <= n,
                self.pos_tail_history@ == before,
                found <==> exists|j: int| 0 <= j < i && before[j] == self.pos_tail,
            decreases n - i,
        {
            if self.pos_tail_history[i].x == self.pos_tail.x && self.pos_tail_history[i].y
                == self.pos_tail.y {
                proof {
                    assert(before[i as int] == self.pos_tail);
                }
                found = true;
            }
            i = i + 1;
        }
        if !found {
            let copy = Position { x: self.pos_tail.x, y: self.pos_tail.y };
            self.pos_tail_history.push(copy);
            proof {
                assert(self.pos_tail_history@ == before.push(self.pos_tail));
                assert forall|p: Position| #[trigger]
                    self.pos_tail_history@.contains(p) <==> (before.contains(p) || p
                        == self.pos_tail) by {
                    if self.pos_tail_history@.contains(p) {
                        let j = choose|j: int|
                            0 <= j < self.pos_tail_history@.len() && self.pos_tail_history@[j] == p;
                        if j < before.len() {
                            assert(before[j] == p);
                        }
                    }
                    if before.contains(p) {
                        let j = choose|j: int| 0 <= j < before.len() && before[j] == p;
                        assert(self.pos_tail_history@[j] == p);
                    }
                    if p == self.pos_tail {
                        assert(self.pos_tail_history@.last() == p);
                    }
                }
            }
        } else {
            proof {
                let j = choose|j: int| 0 <= j < n && before[j] == self.pos_tail;
                assert(before.contains(self.pos_tail));
            }
        }
    }

    /// One head step with the tail dragged along and its square noted.
    pub fn process_move(&mut self, direction: &Direction)
        requires
            old(self).wf(),
            i16::MIN < old(self).pos_head.x < i16::MAX,
            i16::MIN < old(self).pos_head.y < i16::MAX,
        ensures
            final(self).wf(),
            final(self).pos_head == head_after(old(self).pos_head, *direction),
            final(self).pos_tail == follow(
                head_after(old(self).pos_head, *direction),
                old(self).pos_tail,
            ),
            forall|p: Position|
                #[trigger] final(self).pos_tail_history@.contains(p) <==> (old(self).pos_tail_history@.contains(p) || p == final(self).pos_tail),
    {
        self.move_head(direction);
        self.update_tail();
        self.record_tail_pos();
    }

    /// Run a whole command: the head walks `nb_steps` squares in the
    /// commanded direction and the tail follows every step.
    pub fn process_command(&mut self, command: &Command)
        requires
            old(self).wf(),
            i16::MIN + command.nb_steps < old(self).pos_head.x,
            old(self).pos_head.x + command.nb_steps < i16::MAX,
            i16::MIN + command.nb_steps < old(self).pos_head.y,
            old(self).pos_head.y + command.nb_steps < i16::MAX,
        ensures
            final(self).wf(),
            (final(self).pos_head, final(self).pos_tail) == walk(
                old(self).pos_head,
                old(self).pos_tail,
                command.direction,
                command.nb_steps as nat,
            ),
            forall|p: Position|
                #[trigger] final(self).pos_tail_history@.contains(p) <==> (old(self).pos_tail_history@.contains(p) || exists|k: nat|
                    1 <= k <= command.nb_steps && p == walk(
                        old(self).pos_head,
                        old(self).pos_tail,
                        command.direction,
                        k,
                    ).1),
    {
        let ghost h0 = self.pos_head;
        let ghost t0 = self.pos_tail;
        let ghost hist0 = self.pos_tail_history@;
        let n = command.nb_steps;
        let mut s: usize = 0;
        while s < n
            invariant
                0 <= s <= n,
                self.wf(),
                i16::MIN + n < h0.x,
                h0.x + n < i16::MAX,
                i16::MIN + n < h0.y,
                h0.y + n < i16::MAX,
                abs_val(self.pos_head.x - h0.x) <= s,
                abs_val(self.pos_head.y - h0.y) <= s,
                (self.pos_head, self.pos_tail) == walk(h0, t0, command.direction, s as nat),
                forall|p: Position|
                    #[trigger] self.pos_tail_history@.contains(p) <==> (hist0.contains(p) || exists|
                        k: nat,
                    |
                        1 <= k <= s && p == walk(h0, t0, command.direction, k).1),
            decreases n - s,
        {
            self.process_move(&command.direction);
            proof {
                assert((self.pos_head, self.pos_tail) == walk(h0, t0, command.direction, (s
                    + 1) as nat));
                assert forall|p: Position| #[trigger]
                    self.pos_tail_history@.contains(p) <==> (hist0.contains(p) || exists|k: nat|
                        1 <= k <= s + 1 && p == walk(h0, t0, command.direction, k).1) by {
                    if self.pos_tail_history@.contains(p) {
                        if !hist0.contains(p) {
                            if p == self.pos_tail {
                                assert(p == walk(h0, t0, command.direction, (s + 1) as nat).1);
                                assert(1 <= (s + 1) as nat <= s + 1);
                            } else {
                                let k = choose|k: nat|
                                    1 <= k <= s && p == walk(h0, t0, command.direction, k).1;
                                assert(1 <= k <= s + 1 && p == walk(h0, t0, command.direction, k).1);
                            }
                        }
                    }
                    if exists|k: nat| 1 <= k <= s + 1 && p == walk(h0, t0, command.direction, k).1 {
                        let k = choose|k: nat|
                            1 <= k <= s + 1 && p == walk(h0, t0, command.direction, k).1;
                        if k <= s {
                        } else {
                            assert(p == self.pos_tail);
                        }
                    }
                }
            }
            s = s + 1;
        }
    }
}

} // verus!
