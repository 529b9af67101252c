//! A rope of ten knots: the head is steered and every further knot
//! drags behind its predecessor.

use vstd::prelude::*;

use crate::rope_single::Command;
use crate::rope_single::Direction;
use crate::rope_single::Position;
use crate::rope_single::abs_val;
use crate::rope_single::follow;
use crate::rope_single::head_after;

verus! {

/// How many knots the rope has.
pub const ROPE_SIZE: usize = 10;

/// The position of knot `i` once every knot up to it has caught up.
pub open spec fn chain_updated(s: Seq<Position>, i: int) -> Position
    decreases i,
{
    if i <= 0 {
        s[0]
    } else {
        follow(chain_updated(s, i - 1), s[i])
    }
}

/// The whole rope after every knot caught up in turn.
pub open spec fn chain_after(s: Seq<Position>) -> Seq<Position> {
    Seq::new(s.len(), |i: int| chain_updated(s, i))
}

/// The rope after one head step and the ripple that follows it.
pub open spec fn chain_move(s: Seq<Position>, d: Direction) -> Seq<Position> {
    chain_after(s.update(0, head_after(s[0], d)))
}

/// The rope after `n` head steps in one direction.
pub open spec fn chain_walk(s: Seq<Position>, d: Direction, n: nat) -> Seq<Position>
    decreases n,
{
    if n == 0 {
        s
    } else {
        chain_move(chain_walk(s, d, (n - 1) as nat), d)
    }
}

/// The rope with its knots and every square its tail has visited.
pub struct RopeMap {
    pub knots: Vec<Position>,
    pub pos_tail_history: Vec<Position>,
}

impl RopeMap {
    /// Knot pairs stay adjacent, and the visited squares are recorded
    /// once each and include the tail.
    pub open spec fn wf(self) -> bool {
        &&& self.knots@.len() == ROPE_SIZE
    &&& (forall|j: int|
        1 <= j < self.knots@.len() ==> abs_val(
            (#[trigger] self.knots@[j]).x - self.knots@[j - 1].x,
        ) <= 1 && abs_val(self.knots@[j].y - self.knots@[j - 1].y) <= 1)
    &&& (forall|i: int, j: int|
        0 <= i < j < self.pos_tail_history@.len() ==> self.pos_tail_history@[i]
            != self.pos_tail_history@[j])
    &&& self.pos_tail_history@.contains(self.knots@.last())
    }

    /// All knots at the origin, which is already visited.
    pub fn new() -> (m: RopeMap)
        ensures
            m.wf(),
            forall|j: int| 0 <= j < ROPE_SIZE ==> m.knots@[j] == (Position { x: 0i16, y: 0i16 }),
            m.pos_tail_history@ =~= seq![Position { x: 0i16, y: 0i16 }],
    {
        let initial_pos = Position { x: 0, y: 0 };
        let mut knots: Vec<Position> = Vec::new();
        let mut k: usize = 0;
        while k < ROPE_SIZE
            invariant
                0 <= k <= ROPE_SIZE,
                knots@.len() == k,
                forall|j: int| 0 <= j < k ==> knots@[j] == (Position { x: 0i16, y: 0i16 }),
            decreases ROPE_SIZE - k,
        {
            knots.push(Position { x: 0, y: 0 });
            k = k + 1;
        }
        let mut pos_tail_history: Vec<Position> = Vec::new();
        pos_tail_history.push(initial_pos);
        proof {
            assert(pos_tail_history@.contains(pos_tail_history@[0]));
        }
        RopeMap { knots, pos_tail_history }
    }

    /// Move the head knot one step.
    fn move_head(&mut self, direction: &Direction)
        requires
            old(self).knots@.len() > 0,
            i16::MIN < old(self).knots@[0].x < i16::MAX,
            i16::MIN < old(self).knots@[0].y < i16::MAX,
        ensures
            final(self).knots@ == old(self).knots@.update(
                0,
                head_after(old(self).knots@[0], *direction),
            ),
            final(self).pos_tail_history == old(self).pos_tail_history,
    {
        let h = self.knots[0];
        let moved = match direction {
            Direction::Up => Position { x: h.x, y: h.y + 1 },
            Direction::Down => Position { x: h.x, y: h.y - 1 },
            Direction::Right => Position { x: h.x + 1, y: h.y },
            Direction::Left => Position { x: h.x - 1, y: h.y },
        };
        self.knots[0] = moved;
    }

    /// Let every knot after the head catch up with its predecessor.
    #[verifier::rlimit(100)]
    fn update_knots(&mut self)
        requires
            old(self).knots@.len() > 0,
            abs_val(old(self).knots@[0].x - old(self).knots@[1].x) <= 2 || old(self).knots@.len() == 1,
            forall|j: int|
                1 <= j < old(self).knots@.len() ==> abs_val(
                    (#[trigger] old(self).knots@[j]).x - old(self).knots@[j - 1].x,
                ) <= 2 && abs_val(old(self).knots@[j].y - old(self).knots@[j - 1].y) <= 2,
            forall|j: int|
                2 <= j < old(self).knots@.len() ==> abs_val(
                    (#[trigger] old(self).knots@[j]).x - old(self).knots@[j - 1].x,
                ) <= 1 && abs_val(old(self).knots@[j].y - old(self).knots@[j - 1].y) <= 1,
            forall|j: int|
                0 <= j < old(self).knots@.len() ==> i16::MIN < (#[trigger] old(self).knots@[j]).x < i16::MAX && i16::MIN < old(self).knots@[j].y < i16::MAX,
        ensures
            final(self).knots@ == chain_after(old(self).knots@),
            final(self).pos_tail_history == old(self).pos_tail_history,
            forall|j: int|
                1 <= j < final(self).knots@.len() ==> abs_val(
                    (#[trigger] final(self).knots@[j]).x - final(self).knots@[j - 1].x,
                ) <= 1 && abs_val(final(self).knots@[j].y - final(self).knots@[j - 1].y) <= 1,
            forall|j: int|
                0 <= j < final(self).knots@.len() ==> abs_val(
                    (#[trigger] final(self).knots@[j]).x - old(self).knots@[j].x,
                ) <= 1 && abs_val(final(self).knots@[j].y - old(self).knots@[j].y) <= 1,
    {
        let ghost orig = self.knots@;
        let n = self.knots.len();
        let mut i: usize = 1;
        while i < n
            invariant
                self.pos_tail_history == old(self).pos_tail_history,
                n == self.knots@.len(),
                n == orig.len(),
                1 <= i <= n || (i == 1 && n == 1),
                i >= 1,
                forall|j: int| 0 <= j < i ==> #[trigger] self.knots@[j] == chain_updated(orig, j),
                forall|j: int| i <= j < n ==> #[trigger] self.knots@[j] == orig[j],
                forall|j: int|
                    1 <= j < i ==> abs_val(
                        (#[trigger] self.knots@[j]).x - self.knots@[j - 1].x,
                    ) <= 1 && abs_val(self.knots@[j].y - self.knots@[j - 1].y) <= 1,
                forall|j: int|
                    0 <= j < i ==> abs_val((#[trigger] self.knots@[j]).x - orig[j].x) <= 1
                        && abs_val(self.knots@[j].y - orig[j].y) <= 1,
                abs_val(orig[0].x - orig[1].x) <= 2 || n == 1,
                forall|j: int|
                    1 <= j < n ==> abs_val((#[trigger] orig[j]).x - orig[j - 1].x) <= 2 && abs_val(
                        orig[j].y - orig[j - 1].y,
                    ) <= 2,
                forall|j: int|
                    2 <= j < n ==> abs_val((#[trigger] orig[j]).x - orig[j - 1].x) <= 1 && abs_val(
                        orig[j].y - orig[j - 1].y,
                    ) <= 1,
                forall|j: int|
                    0 <= j < n ==> i16::MIN < (#[trigger] orig[j]).x < i16::MAX && i16::MIN
                        < orig[j].y < i16::MAX,
            decreases n - i,
        {
            let previous_knot = self.knots[i - 1];
            let knot = self.knots[i];
            proof {
                assert(previous_knot == chain_updated(orig, i - 1));
                assert(knot == orig[i as int]);
                if i >= 2 {
                    assert(abs_val(orig[i as int].x - orig[i as int - 1].x) <= 1);
                    assert(abs_val(self.knots@[i - 1].x - orig[i - 1].x) <= 1);
                }
            }
            let diff = previous_knot.sub(&knot);
            if diff.is_too_far() {
                let catchup_move = diff.get_catchup_move();
                let mut moved = knot;
                moved.apply_diff(&catchup_move);
                self.knots[i] = moved;
            }
            proof {
                assert(self.knots@[i as int] == follow(previous_knot, orig[i as int]));
                assert(self.knots@[i as int] == chain_updated(orig, i as int));
            }
            i = i + 1;
        }
        proof {
            assert(self.knots@ =~= chain_after(orig));
        }
    }

    /// Record the square the tail knot stands on, once.
    fn record_tail_pos(&mut self)
        requires
            old(self).knots@.len() > 0,
            forall|i: int, j: int|
                0 <= i < j < old(self).pos_tail_history@.len() ==> old(self).pos_tail_history@[i]
                    != old(self).pos_tail_history@[j],
        ensures
            final(self).knots == old(self).knots,
            forall|i: int, j: int|
                0 <= i < j < final(self).pos_tail_history@.len() ==> final(self).pos_tail_history@[i] != final(self).pos_tail_history@[j],
            forall|p: Position|
                #[trigger] final(self).pos_tail_history@.contains(p) <==> (old(self).pos_tail_history@.contains(p) || p == old(self).knots@.last()),
    {
        let ghost before = self.pos_tail_history@;
        let tail = self.knots[self.knots.len() - 1];
        let mut found = false;
        let n = self.pos_tail_history.len();
        let mut i: usize = 0;
        while i < n
            invariant
                n == self.pos_tail_history@.len(),
                0 <= i <= n,
                self.pos_tail_history@ == before,
                tail == self.knots@.last(),
                self.knots@.len() > 0,
                found <==> exists|j: int| 0 <= j < i && before[j] == tail,
            decreases n - i,
        {
            if self.pos_tail_history[i].x == tail.x && self.pos_tail_history[i].y == tail.y {
                proof {
                    assert(before[i as int] == tail);
                }
                found = true;
            }
            i = i + 1;
        }
        if !found {
            self.pos_tail_history.push(tail);
            proof {
                assert(self.pos_tail_history@ == before.push(tail));
                assert forall|p: Position| #[trigger]
                    self.pos_tail_history@.contains(p) <==> (before.contains(p) || p == tail) by {
                    if self.pos_tail_history@.contains(p) {
                        let j = choose|j: int|
                            0 <= j < self.pos_tail_history@.len() && self.pos_tail_history@[j] == p;
                        if j < before.len() {
                            assert(before[j] == p);
                        }
                    }
                    if before.contains(p) {
                        let j = choose|j: int| 0 <= j < before.len() && before[j] == p;
                        assert(self.pos_tail_history@[j] == p);
                    }
                    if p == tail {
                        assert(self.pos_tail_history@.last() == p);
                    }
                }
            }
        } else {
            proof {
                let j = choose|j: int| 0 <= j < n && before[j] == tail;
                assert(before.contains(tail));
            }
        }
    }

    /// One head step, the ripple down the rope, and the tail's square.
    pub fn process_move(&mut self, direction: &Direction)
        requires
            old(self).wf(),
            forall|j: int|
                0 <= j < old(self).knots@.len() ==> i16::MIN + 1 < (#[trigger] old(self).knots@[j]).x < i16::MAX - 1 && i16::MIN + 1 < old(self).knots@[j].y < i16::MAX
                    - 1,
        ensures
            final(self).wf(),
            final(self).knots@ == chain_move(old(self).knots@, *direction),
            forall|j: int|
                0 <= j < final(self).knots@.len() ==> abs_val(
                    (#[trigger] final(self).knots@[j]).x - old(self).knots@[j].x,
                ) <= 1 && abs_val(final(self).knots@[j].y - old(self).knots@[j].y) <= 1,
            forall|p: Position|
                #[trigger] final(self).pos_tail_history@.contains(p) <==> (old(self).pos_tail_history@.contains(p) || p == final(self).knots@.last()),
    {
        let ghost orig = self.knots@;
        self.move_head(direction);
        proof {
            let moved = self.knots@;
            assert(moved[0] == head_after(orig[0], *direction));
            assert(forall|j: int| 1 <= j < moved.len() ==> moved[j] == orig[j]);
        }
        self.update_knots();
        self.record_tail_pos();
        proof {
            assert(final(self).knots@ == chain_move(orig, *direction)) by {
                assert(self.knots@ == chain_after(orig.update(0, head_after(orig[0], *direction))));
            }
        }
    }

    /// Run a whole command: the head walks `nb_steps` squares and the
    /// rope ripples after every step.
    #[verifier::rlimit(100)]
    pub fn process_command(&mut self, command: &Command)
        requires
            old(self).wf(),
            forall|j: int|
                0 <= j < old(self).knots@.len() ==> i16::MIN + command.nb_steps + 1 < (
                #[trigger] old(self).knots@[j]).x < i16::MAX - command.nb_steps - 1 && i16::MIN
                    + command.nb_steps + 1 < old(self).knots@[j].y < i16::MAX - command.nb_steps
                    - 1,
        ensures
            final(self).wf(),
            final(self).knots@ == chain_walk(
                old(self).knots@,
                command.direction,
                command.nb_steps as nat,
            ),
            forall|p: Position|
                #[trigger] final(self).pos_tail_history@.contains(p) <==> (old(self).pos_tail_history@.contains(p) || exists|k: nat|
                    1 <= k <= command.nb_steps && p == chain_walk(
                        old(self).knots@,
                        command.direction,
                        k,
                    ).last()),
    {
        let ghost k0 = self.knots@;
        let ghost hist0 = self.pos_tail_history@;
        let n = command.nb_steps;
        let mut s: usize = 0;
        while s < n
            invariant
                0 <= s <= n,
                self.wf(),
                forall|j: int|
                    0 <= j < k0.len() ==> i16::MIN + n + 1 < (#[trigger] k0[j]).x < i16::MAX - n
                        - 1 && i16::MIN + n + 1 < k0[j].y < i16::MAX - n - 1,
                self.knots@.len() == k0.len(),
                forall|j: int|
                    0 <= j < k0.len() ==> abs_val((#[trigger] self.knots@[j]).x - k0[j].x) <= s
                        && abs_val(self.knots@[j].y - k0[j].y) <= s,
                self.knots@ == chain_walk(k0, command.direction, s as nat),
                forall|p: Position|
                    #[trigger] self.pos_tail_history@.contains(p) <==> (hist0.contains(p) || exists|
                        k: nat,
                    |
                        1 <= k <= s && p == chain_walk(k0, command.direction, k).last()),
            decreases n - s,
        {
            let ghost before = self.knots@;
            self.process_move(&command.direction);
            proof {
                assert(self.knots@ == chain_walk(k0, command.direction, (s + 1) as nat));
                assert forall|p: Position| #[trigger]
                    self.pos_tail_history@.contains(p) <==> (hist0.contains(p) || exists|k: nat|
                        1 <= k <= s + 1 && p == chain_walk(k0, command.direction, k).last()) by {
                    if self.pos_tail_history@.contains(p) && !hist0.contains(p) {
                        if p == self.knots@.last() {
                            assert(1 <= (s + 1) as nat <= s + 1 && p == chain_walk(
                                k0,
                                command.direction,
                                (s + 1) as nat,
                            ).last());
                        } else {
                            let k = choose|k: nat|
                                1 <= k <= s && p == chain_walk(k0, command.direction, k).last();
                            assert(1 <= k <= s + 1 && p == chain_walk(
                                k0,
                                command.direction,
                                k,
                            ).last());
                        }
                    }
                    if exists|k: nat|
                        1 <= k <= s + 1 && p == chain_walk(k0, command.direction, k).last() {
                        let k = choose|k: nat|
                            1 <= k <= s + 1 && p == chain_walk(k0, command.direction, k).last();
                        if k > s {
                            assert(p == self.knots@.last());
                        }
                    }
                }
            }
            s = s + 1;
        }
    }
}

} // verus!
