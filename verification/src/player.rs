//! The two players and the outcome of a match.

use vstd::prelude::*;

verus! {

/// One of the two players, by tag: 1 moves first, 2 second.
#[derive(Debug, Clone, Copy, PartialEq, Eq, Structural)]
pub struct Player(pub u8);

impl Player {
    /// A tag that names a player.
    pub open spec fn valid(self) -> bool {
        self.0 == 1 || self.0 == 2
    }

    /// The opponent of a player.
    pub open spec fn opponent(self) -> Player {
        Player((3 - self.0) as u8)
    }

    /// The player who opens a match.
    pub fn new() -> (first: Player)
        ensures
            first == Player(1),
    {
        Player(1)
    }

    /// The opponent of `self`.
    pub fn other(self) -> (opponent: Player)
        requires
            self.valid(),
        ensures
            opponent == self.opponent(),
            opponent.valid(),
            opponent != self,
    {
        Player(3 - self.0)
    }
}

/// How a match stands.
#[derive(Debug, Clone, Copy, PartialEq, Eq, Structural)]
pub enum State {
    /// The player has four in a line.
    Win(Player),
    /// The board is full and nobody has four in a line.
    Draw,
    /// The match goes on.
    Unfinished,
}

/// How a match stands for one of the players.
#[derive(Debug, Clone, Copy, PartialEq, Eq, Structural)]
pub enum RelativeOutcome {
    /// The match goes on.
    Unfinished,
    /// The board is full and nobody has four in a line.
    Draw,
    /// This player has four in a line.
    Win,
    /// Somebody else has four in a line.
    Lose,
}

impl State {
    /// The state as `viewer` sees it: a win is the viewer's own or a loss, and
    /// the rest is the same for everyone.
    pub open spec fn seen_by(self, viewer: Player) -> RelativeOutcome {
        match self {
            State::Unfinished => RelativeOutcome::Unfinished,
            State::Draw => RelativeOutcome::Draw,
            State::Win(winner) => if winner == viewer {
                RelativeOutcome::Win
            } else {
                RelativeOutcome::Lose
            },
        }
    }

    /// The state as `viewer` sees it.
    pub fn relative_to(self, viewer: Player) -> (outcome: RelativeOutcome)
        ensures
            outcome == self.seen_by(viewer),
    {
        match self {
            State::Unfinished => RelativeOutcome::Unfinished,
            State::Draw => RelativeOutcome::Draw,
            State::Win(winner) => if winner == viewer {
                RelativeOutcome::Win
            } else {
                RelativeOutcome::Lose
            },
        }
    }
}

} // verus!
