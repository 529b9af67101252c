//! A round of the duel read as "their shape, demanded outcome": my own
//! shape is derived so that the round ends as demanded.

use vstd::prelude::*;
use vstd::string::StrSliceExecFns;

use crate::cyclic_move::PlayerMove;
use crate::cyclic_move::create_from_char;
use crate::cyclic_move::fight_score;
use crate::cyclic_move::get_fight_score;
use crate::cyclic_move::is_move_char;
use crate::cyclic_move::move_of_char;
use crate::cyclic_move::points_of_move;
use crate::duel_outcome::Outcome;
use crate::duel_outcome::is_outcome_char;
use crate::duel_outcome::outcome_of_char;

verus! {

/// One played round: both shapes.
pub struct Round {
    pub my_move: PlayerMove,
    pub their_move: PlayerMove,
}

/// The score of a round: the shape's own score plus the fight score.
pub open spec fn round_score(my_move: PlayerMove, their_move: PlayerMove) -> int {
    points_of_move(my_move) + fight_score(my_move, their_move)
}

impl Round {
    /// Bundle the two shapes of a round.
    pub fn new(my_move: PlayerMove, their_move: PlayerMove) -> (r: Round)
        ensures
            r.my_move == my_move,
            r.their_move == their_move,
    {
        Round { my_move, their_move }
    }

    /// Score the round.
    pub fn get_score(&self) -> (r: i32)
        ensures
            r == round_score(self.my_move, self.their_move),
    {
        self.my_move.get_move_score() + get_fight_score(&self.my_move, &self.their_move)
    }
}

/// The shape that ends the round against `their_move` with the demanded
/// outcome.
pub open spec fn complementary_move(their_move: PlayerMove, outcome: Outcome) -> PlayerMove {
    match outcome {
        Outcome::DRAW => their_move,
        Outcome::WIN => match their_move {
            PlayerMove::Rock => PlayerMove::Paper,
            PlayerMove::Paper => PlayerMove::Scissor,
            PlayerMove::Scissor => PlayerMove::Rock,
        },
        Outcome::LOSE => match their_move {
            PlayerMove::Rock => PlayerMove::Scissor,
            PlayerMove::Paper => PlayerMove::Rock,
            PlayerMove::Scissor => PlayerMove::Paper,
        },
    }
}

/// Derive my shape from their shape and the demanded outcome, by moving
/// one step around the Rock-Paper-Scissor cycle.
pub fn get_complementary_move(their_move: PlayerMove, outcome: Outcome) -> (r: PlayerMove)
    ensures
        r == complementary_move(their_move, outcome),
        fight_score(r, their_move) == match outcome {
            Outcome::DRAW => 3int,
            Outcome::WIN => 6int,
            Outcome::LOSE => 0int,
        },
{
    let their_points = their_move.get_move_score();
    let diff: i32 = match outcome {
        Outcome::DRAW => 0,
        Outcome::LOSE => -1,
        Outcome::WIN => 1,
    };
    let mut my_points = their_points + diff;
    if my_points < 1 {
        my_points = my_points + 3;
    }
    if my_points > 3 {
        my_points = my_points - 3;
    }
    PlayerMove::from_points(my_points)
}

/// Read a round from a line shaped like "A Y": their letter first, the
/// demanded outcome third.
pub fn parse_str(s: &str) -> (r: Round)
    requires
        s@.len() >= 3,
        is_move_char(s@[0]),
        is_outcome_char(s@[2]),
    ensures
        r.their_move == move_of_char(s@[0]),
        r.my_move == complementary_move(move_of_char(s@[0]), outcome_of_char(s@[2])),
{
    let their_char = s.get_char(0);
    let their_move = create_from_char(their_char);

    let outcome_char = s.get_char(2);
    let outcome = Outcome::from_char(outcome_char);

    let my_move = get_complementary_move(their_move, outcome);

    Round::new(my_move, their_move)
}

} // verus!
