//! Rules and state of Connect Four on a bit-packed board.
//!
//! [`Board`] packs the stones into two words and finds four in a line with a
//! few shifts. [`Game`] adds whose turn it is and how the match stands. Both
//! are specified over [`grid`], the board as seven stacks of stones.

pub mod bits;
pub mod board;
pub mod game;
pub mod grid;
pub mod player;
pub mod render;
pub mod replay;

pub use board::{Board, Side};
pub use game::{Game, GameView};
pub use grid::{HEIGHT, WIDTH};
pub use player::{Player, RelativeOutcome, State};
