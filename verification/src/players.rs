//! The two players and turn alternation.

use vstd::prelude::*;

verus! {

/// One of the two player marks. `X` always moves first.
#[derive(Clone, Copy, PartialEq, Eq, Structural, Debug)]
pub enum Player {
    X,
    O,
}

impl Player {
    /// The mark that moves after this one: the two marks alternate.
    pub open spec fn spec_next(self) -> Player {
        match self {
            Player::X => Player::O,
            Player::O => Player::X,
        }
    }

    /// Returns the other mark, so that turns alternate strictly.
    pub fn next(&self) -> (r: Player)
        ensures
            r == self.spec_next(),
            r != *self,
    {
        match self {
            Player::X => Player::O,
            Player::O => Player::X,
        }
    }
}

} // verus!
