//! A round of the duel read as "their shape, my shape".

use vstd::prelude::*;
use vstd::string::StrSliceExecFns;

use crate::duel_move::PlayerMove;
use crate::duel_move::create_from_char;
use crate::duel_move::fight_score;
use crate::duel_move::get_fight_score;
use crate::duel_move::is_move_char;
use crate::duel_move::move_of_char;

verus! {

/// One played round: both shapes.
pub struct Round {
    pub my_move: PlayerMove,
    pub their_move: PlayerMove,
}

/// The score of a round: the shape's own score plus the fight score.
pub open spec fn round_score(my_move: PlayerMove, their_move: PlayerMove) -> int {
    (match my_move {
        PlayerMove::Rock => 1int,
        PlayerMove::Paper => 2int,
        PlayerMove::Scissor => 3int,
    }) + fight_score(my_move, their_move)
}

impl Round {
    /// Bundle the two shapes of a round.
    pub fn new(my_move: PlayerMove, their_move: PlayerMove) -> (r: Round)
        ensures
            r.my_move == my_move,
            r.their_move == their_move,
    {
        Round { my_move, their_move }
    }

    /// Score the round.
    pub fn get_score(&self) -> (r: i32)
        ensures
            r == round_score(self.my_move, self.their_move),
    {
        self.my_move.get_move_score() + get_fight_score(&self.my_move, &self.their_move)
    }
}

/// Read a round from a line shaped like "A X": their letter first, mine
/// third.
pub fn parse_str(s: &str) -> (r: Round)
    requires
        s@.len() >= 3,
        is_move_char(s@[0]),
        is_move_char(s@[2]),
    ensures
        r.my_move == move_of_char(s@[2]),
        r.their_move == move_of_char(s@[0]),
{
    let my_char = s.get_char(2);
    let their_char = s.get_char(0);
    let my_move = create_from_char(my_char);
    let their_move = create_from_char(their_char);
    Round::new(my_move, their_move)
}

} // verus!
