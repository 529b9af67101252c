//! The duel shapes again, with a numeric constructor and a fight score
//! computed by cycling the difference.

use vstd::prelude::*;

verus! {

/// A hand shape a player can throw.
#[derive(PartialEq, Eq, Structural, Debug, Clone, Copy)]
pub enum PlayerMove {
    Rock,
    Paper,
    Scissor,
}

/// The numeric value of a shape.
pub open spec fn points_of_move(m: PlayerMove) -> int {
    match m {
        PlayerMove::Rock => 1int,
        PlayerMove::Paper => 2int,
        PlayerMove::Scissor => 3int,
    }
}

impl PlayerMove {
    /// The base score of the shape itself.
    pub fn get_move_score(&self) -> (r: i32)
        ensures
            r == points_of_move(*self),
    {
        match self {
            PlayerMove::Rock => 1,
            PlayerMove::Paper => 2,
            PlayerMove::Scissor => 3,
        }
    }

    /// The shape with the given numeric value.
    pub fn from_points(points: i32) -> (r: PlayerMove)
        requires
            1 <= points <= 3,
        ensures
            points_of_move(r) == points,
    {
        match points {
            1 => PlayerMove::Rock,
            2 => PlayerMove::Paper,
            _ => PlayerMove::Scissor,
        }
    }
}

/// The letters that encode a shape.
pub open spec fn is_move_char(c: char) -> bool {
    c == 'A' || c == 'X' || c == 'B' || c == 'Y' || c == 'C' || c == 'Z'
}

/// The shape a letter encodes.
pub open spec fn move_of_char(c: char) -> PlayerMove {
    if c == 'A' || c == 'X' {
        PlayerMove::Rock
    } else if c == 'B' || c == 'Y' {
        PlayerMove::Paper
    } else {
        PlayerMove::Scissor
    }
}

/// Decode a shape from its letter.
pub fn create_from_char(c: char) -> (r: PlayerMove)
    requires
        is_move_char(c),
    ensures
        r == move_of_char(c),
{
    match c {
        'A' | 'X' => PlayerMove::Rock,
        'B' | 'Y' => PlayerMove::Paper,
        _ => PlayerMove::Scissor,
    }
}

/// The outcome score of `my_move` against `their_move`, computed from
/// the cyclic difference of the two values.
pub open spec fn fight_score(my_move: PlayerMove, their_move: PlayerMove) -> int {
    let diff = points_of_move(my_move) - points_of_move(their_move);
    let wrapped = if diff < 0 {
        diff + 3
    } else {
        diff
    };
    if wrapped == 0 {
        3int
    } else if wrapped == 1 {
        6int
    } else {
        0int
    }
}

/// Score one fight.
pub fn get_fight_score(my_move: &PlayerMove, their_move: &PlayerMove) -> (r: i32)
    ensures
        r == fight_score(*my_move, *their_move),
{
    let my_score = my_move.get_move_score();
    let their_score = their_move.get_move_score();
    let mut diff = my_score - their_score;
    if diff < 0 {
        diff = diff + 3;
    }
    match diff {
        0 => 3,
        1 => 6,
        _ => 0,
    }
}

} // verus!
