//! The picture of a match in text.
//!
//! A line of column numbers, the six rows from the top one down, a line of
//! dashes, and behind the dashes the mark of the player to move:
//!
//! ```text
//!  1 2 3 4 5 6 7
//! | | | | | | | |
//! | | | | | | | |
//! | | | | | | | |
//! | | | | | | | |
//! | | | |0| | | |
//! | | |X|X| | | |
//! --------------- 0
//! ```

use vstd::prelude::*;
use crate::board::Side;
use crate::game::{colored, Game, GameView};
use crate::grid::{stone_at, HEIGHT, WIDTH};
use crate::player::Player;

verus! {

/// `String::push` of std appends one character to the string.
pub assume_specification[ String::push ](text: &mut String, ch: char)
    ensures
        final(text)@ == old(text)@.push(ch),
;

/// The mark of the stones of the player to move.
pub open spec fn mark_to_move(to_move: Player) -> char {
    if to_move == Player(1) {
        'X'
    } else {
        '0'
    }
}

/// The mark of the stones of the player who moved last.
pub open spec fn mark_moved(to_move: Player) -> char {
    if to_move == Player(1) {
        '0'
    } else {
        'X'
    }
}

/// The mark in a cell: a blank where the cell is empty.
pub open spec fn cell_mark(game: GameView, col: int, row: int) -> char {
    match stone_at(game.columns, col, row) {
        Some(owner) => if owner == game.to_move {
            mark_to_move(game.to_move)
        } else {
            mark_moved(game.to_move)
        },
        None => ' ',
    }
}

/// The numbers of the first `upto` columns, counted from one, a blank before
/// each.
pub open spec fn header(upto: int) -> Seq<char>
    decreases upto,
{
    if upto <= 0 {
        Seq::empty()
    } else {
        header(upto - 1).push(' ').push(('1' as u8 + (upto - 1)) as char)
    }
}

/// The first `upto` cells of a row, a bar behind each.
pub open spec fn row_cells(game: GameView, row: int, upto: int) -> Seq<char>
    decreases upto,
{
    if upto <= 0 {
        Seq::empty()
    } else {
        row_cells(game, row, upto - 1).push(cell_mark(game, upto - 1, row)).push('|')
    }
}

/// The `count` highest rows, the top one first, each on a line of its own
/// that begins with a bar.
pub open spec fn rows_from_top(game: GameView, count: int) -> Seq<char>
    decreases count,
{
    if count <= 0 {
        Seq::empty()
    } else {
        rows_from_top(game, count - 1).push('\n').push('|') + row_cells(
            game,
            HEIGHT - count,
            WIDTH as int,
        )
    }
}

/// Two dashes for each of `count` columns.
pub open spec fn dashes(count: int) -> Seq<char>
    decreases count,
{
    if count <= 0 {
        Seq::empty()
    } else {
        dashes(count - 1).push('-').push('-')
    }
}

/// The picture of a match.
pub open spec fn picture(game: GameView) -> Seq<char> {
    ((header(WIDTH as int) + rows_from_top(game, HEIGHT as int)).push('\n') + dashes(
        WIDTH as int,
    )).push('-').push(' ').push(mark_to_move(game.to_move))
}

impl Game {
    /// The picture of the match in text.
    pub fn render(&self) -> (text: String)
        requires
            self.wf(),
        ensures
            text@ == picture(self@),
    {
        let board = self.board();
        let (c1, c2) = if self.player() == Player(1) {
            ('X', '0')
        } else {
            ('0', 'X')
        };
        proof {
            self.lemma_view_wf();
        }
        let mut result = String::new();
        for i in 0..WIDTH
            invariant
                result@ == header(i as int),
        {
            result.push(' ');
            result.push((i + ('1' as u8)) as char);
        }
        for k in 0..HEIGHT
            invariant
                self.wf(),
                self@.to_move.valid(),
                board.wf(),
                colored(board@, self@.to_move) == self@.columns,
                c1 == mark_to_move(self@.to_move),
                c2 == mark_moved(self@.to_move),
                result@ == header(WIDTH as int) + rows_from_top(self@, k as int),
        {
            let i = HEIGHT - 1 - k;
            let ghost line = result@.push('\n').push('|');
            result.push('\n');
            result.push('|');
            for j in 0..WIDTH
                invariant
                    self.wf(),
                    self@.to_move.valid(),
                    board.wf(),
                    colored(board@, self@.to_move) == self@.columns,
                    c1 == mark_to_move(self@.to_move),
                    c2 == mark_moved(self@.to_move),
                    i == HEIGHT - 1 - k,
                    k < HEIGHT,
                    result@ == line + row_cells(self@, i as int, j as int),
            {
                let mark = match board.side_at(j, i) {
                    Some(Side::ToMove) => c1,
                    Some(Side::Moved) => c2,
                    None => ' ',
                };
                assert(mark == cell_mark(self@, j as int, i as int));
                result.push(mark);
                result.push('|');
                assert(result@ == line + row_cells(self@, i as int, j + 1));
            }
            assert(result@ == header(WIDTH as int) + rows_from_top(self@, k + 1));
        }
        let ghost rows = result@.push('\n');
        result.push('\n');
        for n in 0..WIDTH
            invariant
                result@ == rows + dashes(n as int),
        {
            result.push('-');
            result.push('-');
            assert(result@ == rows + dashes(n + 1));
        }
        result.push('-');
        result.push(' ');
        result.push(c1);
        result
    }
}

} // verus!
