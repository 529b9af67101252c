//! The three hand shapes of the duel, their scores, and the score of a
//! fight between two of them.

use vstd::prelude::*;

verus! {

/// A hand shape a player can throw.
#[derive(Clone, Copy, PartialEq, Eq, Structural, Debug)]
pub enum PlayerMove {
    Rock,
    Paper,
    Scissor,
}

impl PlayerMove {
    /// The base score of the shape itself.
    pub fn get_move_score(&self) -> (r: i32)
        ensures
            r == match *self {
                PlayerMove::Rock => 1int,
                PlayerMove::Paper => 2int,
                PlayerMove::Scissor => 3int,
            },
    {
        match self {
            PlayerMove::Rock => 1,
            PlayerMove::Paper => 2,
            PlayerMove::Scissor => 3,
        }
    }
}

/// The letters that encode a shape.
pub open spec fn is_move_char(c: char) -> bool {
    c == 'A' || c == 'X' || c == 'B' || c == 'Y' || c == 'C' || c == 'Z'
}

/// The shape a letter encodes.
pub open spec fn move_of_char(c: char) -> PlayerMove {
    if c == 'A' || c == 'X' {
        PlayerMove::Rock
    } else if c == 'B' || c == 'Y' {
        PlayerMove::Paper
    } else {
        PlayerMove::Scissor
    }
}

/// Decode a shape from its letter.
pub fn create_from_char(c: char) -> (r: PlayerMove)
    requires
        is_move_char(c),
    ensures
        r == move_of_char(c),
{
    match c {
        'A' | 'X' => PlayerMove::Rock,
        'B' | 'Y' => PlayerMove::Paper,
        _ => PlayerMove::Scissor,
    }
}

/// The outcome score of `my_move` against `their_move`: six for a win,
/// three for a draw, nothing for a loss.
pub open spec fn fight_score(my_move: PlayerMove, their_move: PlayerMove) -> int {
    let mine = match my_move {
        PlayerMove::Rock => 1int,
        PlayerMove::Paper => 2int,
        PlayerMove::Scissor => 3int,
    };
    let theirs = match their_move {
        PlayerMove::Rock => 1int,
        PlayerMove::Paper => 2int,
        PlayerMove::Scissor => 3int,
    };
    let diff = mine - theirs;
    if diff == 0 {
        3int
    } else if diff == 1 || diff == -2 {
        6int
    } else {
        0int
    }
}

/// Score one fight.
pub fn get_fight_score(my_move: &PlayerMove, their_move: &PlayerMove) -> (r: i32)
    ensures
        r == fight_score(*my_move, *their_move),
{
    let my_score = my_move.get_move_score();
    let their_score = their_move.get_move_score();
    let diff = my_score - their_score;

    if diff == 0 {
        return 3;
    }
    if diff == 1 || diff == -2 {
        return 6;
    }
    0
}

} // verus!
