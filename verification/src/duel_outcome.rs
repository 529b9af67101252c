//! The demanded outcome of a rigged round, and its score.

use vstd::prelude::*;

verus! {

/// What the round is supposed to end as.
#[derive(PartialEq, Eq, Structural, Debug, Clone, Copy)]
pub enum Outcome {
    DRAW,
    WIN,
    LOSE,
}

/// The letters that encode an outcome.
pub open spec fn is_outcome_char(c: char) -> bool {
    c == 'X' || c == 'Y' || c == 'Z'
}

/// The outcome a letter encodes.
pub open spec fn outcome_of_char(c: char) -> Outcome {
    if c == 'X' {
        Outcome::LOSE
    } else if c == 'Y' {
        Outcome::DRAW
    } else {
        Outcome::WIN
    }
}

impl Outcome {
    /// Decode an outcome from its letter.
    pub fn from_char(c: char) -> (r: Outcome)
        requires
            is_outcome_char(c),
        ensures
            r == outcome_of_char(c),
    {
        match c {
            'X' => Outcome::LOSE,
            'Y' => Outcome::DRAW,
            _ => Outcome::WIN,
        }
    }

    /// The score the outcome is worth on its own.
    pub fn to_point(&self) -> (r: i32)
        ensures
            r == match *self {
                Outcome::DRAW => 3int,
                Outcome::WIN => 6int,
                Outcome::LOSE => 0int,
            },
    {
        match self {
            Outcome::DRAW => 3,
            Outcome::WIN => 6,
            Outcome::LOSE => 0,
        }
    }
}

} // verus!
