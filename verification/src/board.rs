//! The bit-packed board.
//!
//! A column takes seven bits of a word: six cells, the lowest first, and one
//! bit above them that stays clear, so that the carry of an addition at the
//! foot of a column never reaches the next column. The cell in column `col`
//! and row `row` is bit `7 * col + row`.

use vstd::prelude::*;
use crate::bits::{
    bit_at, has_run, lemma_bit_of_xor, lemma_pairs_of_pairs, lemma_single_bit,
    lemma_zero_has_no_bit, run_at,
};
use crate::grid::{
    empty_grid, has_four, has_line, has_room, held, line_held, stone_at, stones_in, well_shaped,
    with_stone, HEIGHT, WIDTH,
};

verus! {

/// The bits that are cells: six in each of the seven columns.
const CELLS: u64 = 0xfdfb_f7ef_dfbf;

/// Whose stone it is, told by the turn: the board keeps no players, only who
/// is to move and who has moved.
#[derive(Debug, Clone, Copy, PartialEq, Eq, Structural)]
pub enum Side {
    /// A stone of the player who is to move.
    ToMove,
    /// A stone of the player who moved last.
    Moved,
}

impl Side {
    /// The same stone after one more move.
    pub open spec fn flipped(self) -> Side {
        match self {
            Side::ToMove => Side::Moved,
            Side::Moved => Side::ToMove,
        }
    }
}

/// The grid seen one move later: every stone has changed sides.
pub open spec fn turned(grid: Seq<Seq<Side>>) -> Seq<Seq<Side>> {
    Seq::new(grid.len(), |col: int| Seq::new(grid[col].len(), |row: int| grid[col][row].flipped()))
}

/// The grid after the player to move has dropped a stone into column `col`.
pub open spec fn after_drop(grid: Seq<Seq<Side>>, col: int) -> Seq<Seq<Side>> {
    with_stone(turned(grid), col, Side::Moved)
}

/// The board in two words.
#[derive(Debug, Copy)]
pub struct Board {
    /// A bit for each cell that holds a stone.
    mask: u64,
    /// A bit for each cell that holds a stone of the player to move.
    player_bitboard: u64,
}

/// All stones lie in cells, and each lies on the floor or on another stone.
spec fn stacked(mask: u64) -> bool {
    &&& mask & !CELLS == 0
    &&& (mask >> 1) & CELLS & !mask == 0
}

/// The bit of the cell in column `col` and row `row` is set in `word`.
spec fn stone(word: u64, col: int, row: int) -> bool {
    bit_at(word, 7 * col + row)
}

/// One if the cell holds a stone, zero if not.
spec fn filled(mask: u64, col: int, row: int) -> nat {
    if stone(mask, col, row) {
        1
    } else {
        0
    }
}

/// The number of stones in a column of the board.
spec fn column_height(mask: u64, col: int) -> nat {
    filled(mask, col, 0) + filled(mask, col, 1) + filled(mask, col, 2) + filled(mask, col, 3)
        + filled(mask, col, 4) + filled(mask, col, 5)
}

/// The side of the stone in a cell.
spec fn side_of(player_bitboard: u64, col: int, row: int) -> Side {
    if stone(player_bitboard, col, row) {
        Side::ToMove
    } else {
        Side::Moved
    }
}

/// A stone lies in a cell, and the cell below a stone holds a stone.
proof fn lemma_stacked_bits(mask: u64, i: u64)
    by (bit_vector)
    requires
        stacked(mask),
    ensures
        bit_at(mask, i as int) ==> i < 49 && i % 7 != 6,
        bit_at(mask, i + 1) && i % 7 != 6 ==> bit_at(mask, i as int),
{
}

/// A bit of a part is a bit of the whole.
proof fn lemma_subset_bits(part: u64, whole: u64, i: u64)
    by (bit_vector)
    requires
        part & !whole == 0,
    ensures
        bit_at(part, i as int) ==> bit_at(whole, i as int),
{
}

/// The highest cell of a column lies five bits above its lowest.
proof fn lemma_top_of_column(col: u64)
    by (bit_vector)
    requires
        col < 7,
    ensures
        (1u64 << (7 * col)) << 5 == 1u64 << (7 * col + 5),
{
}

/// Adding one at the foot of a column and joining the sum to the word sets
/// the lowest clear bit of the column, and no other.
proof fn lemma_drop_bits(mask: u64, col: u64, row: u64, i: u64)
    by (bit_vector)
    requires
        stacked(mask),
        col < 7,
        row < 6,
        !bit_at(mask, 7 * col + row),
        row == 0 || bit_at(mask, 7 * col + row - 1),
    ensures
        mask + (1u64 << (7 * col)) <= 0xffff_ffff_ffff_ffff,
        bit_at(mask | ((mask + (1u64 << (7 * col))) as u64), i as int) == (bit_at(mask, i as int)
            || i == 7 * col + row),
        stacked(mask | ((mask + (1u64 << (7 * col))) as u64)),
{
}

/// The bit of a row, moved up to its column, is the bit of the cell.
proof fn lemma_cell_bit(col: u64, row: u64)
    by (bit_vector)
    requires
        col < 7,
        row < 6,
    ensures
        (1u64 << row) << (7 * col) == 1u64 << (7 * col + row),
{
}

/// What a part leaves of the whole is again a part, of the whole and of
/// whatever holds the whole.
proof fn lemma_turn_keeps_subset(part: u64, whole: u64, more: u64)
    by (bit_vector)
    requires
        part & !whole == 0,
        whole & !more == 0,
    ensures
        (part ^ whole) & !more == 0,
{
}

/// A word joined to another holds the first.
proof fn lemma_join_holds(whole: u64, other: u64)
    by (bit_vector)
    ensures
        whole & !(whole | other) == 0,
{
}

/// In a column the stones fill the rows below its height, and no others.
proof fn lemma_column(mask: u64, col: int)
    requires
        stacked(mask),
        0 <= col < 7,
    ensures
        column_height(mask, col) <= 6,
        forall|row: int|
            0 <= row < 7 ==> (#[trigger] stone(mask, col, row) <==> row < column_height(
                mask,
                col,
            )),
{
    lemma_stacked_bits(mask, (7 * col) as u64);
    lemma_stacked_bits(mask, (7 * col + 1) as u64);
    lemma_stacked_bits(mask, (7 * col + 2) as u64);
    lemma_stacked_bits(mask, (7 * col + 3) as u64);
    lemma_stacked_bits(mask, (7 * col + 4) as u64);
    lemma_stacked_bits(mask, (7 * col + 5) as u64);
    lemma_stacked_bits(mask, (7 * col + 6) as u64);
}

impl Clone for Board {
    /// A second board with the same stones. Neither changes when the other is
    /// played on.
    fn clone(&self) -> (copy: Board)
        ensures
            copy == *self,
    {
        *self
    }
}

impl View for Board {
    type V = Seq<Seq<Side>>;

    /// The stones of each column from the floor up, each with its side.
    closed spec fn view(&self) -> Seq<Seq<Side>> {
        Seq::new(
            WIDTH as nat,
            |col: int|
                Seq::new(
                    column_height(self.mask, col),
                    |row: int| side_of(self.player_bitboard, col, row),
                ),
        )
    }
}

impl Board {
    /// The number of stones that a column takes.
    pub const HEIGHT: u8 = HEIGHT;

    /// The number of columns.
    pub const WIDTH: u8 = WIDTH;

    /// The number of bits of a column: its cells and the clear bit above them.
    const MASK_HEIGHT: u8 = Self::HEIGHT + 1;

    /// The two words describe a board: stones lie in cells only and rest on
    /// the floor or on a stone, and a stone of the player to move is a stone.
    pub closed spec fn wf(&self) -> bool {
        &&& stacked(self.mask)
        &&& self.player_bitboard & !self.mask == 0
    }

    /// A board has seven columns of at most six stones.
    pub proof fn lemma_shape(&self)
        requires
            self.wf(),
        ensures
            well_shaped(self@),
    {
        assert forall|col: int| 0 <= col < WIDTH implies (#[trigger] self@[col]).len() <= HEIGHT by {
            lemma_column(self.mask, col);
        }
    }

    /// The board without a stone.
    pub fn new() -> (board: Board)
        ensures
            board.wf(),
            board@ == empty_grid::<Side>(),
    {
        let board = Board { mask: 0, player_bitboard: 0 };
        proof {
            assert(stacked(0) && 0u64 & !0u64 == 0) by (bit_vector);
            assert forall|col: int| 0 <= col < 7 implies column_height(0, col) == 0 by {
                lemma_zero_has_no_bit((7 * col) as u64);
                lemma_zero_has_no_bit((7 * col + 1) as u64);
                lemma_zero_has_no_bit((7 * col + 2) as u64);
                lemma_zero_has_no_bit((7 * col + 3) as u64);
                lemma_zero_has_no_bit((7 * col + 4) as u64);
                lemma_zero_has_no_bit((7 * col + 5) as u64);
            }
            assert(board@ =~~= empty_grid::<Side>());
        }
        board
    }

    /// Whether column `column` takes one more stone. A column off the board
    /// holds no stone, and the answer there is `true` as well.
    pub fn can_play(&self, column: u8) -> (free: bool)
        requires
            self.wf(),
        ensures
            free == (stones_in(self@, column as int) < HEIGHT),
    {
        if column >= Self::WIDTH {
            return true;
        }
        let top = Self::top_mask(column);
        proof {
            lemma_column(self.mask, column as int);
            lemma_single_bit(self.mask, (7 * column + 5) as u64);
        }
        self.mask & top == 0
    }

    /// Drops a stone of the player to move into column `column` and passes the
    /// turn. Says whether that player now has four in a line.
    pub fn play(&mut self, column: u8) -> (won: bool)
        requires
            old(self).wf(),
            has_room(old(self)@, column as int),
        ensures
            final(self).wf(),
            final(self)@ == after_drop(old(self)@, column as int),
            won == has_four(final(self)@, Side::Moved),
    {
        let ghost before = *self;
        let ghost row = column_height(self.mask, column as int);
        let bottom = Self::bottom_mask(column);
        proof {
            lemma_column(self.mask, column as int);
            lemma_drop_bits(self.mask, column as u64, row as u64, 0);
            lemma_join_holds(self.mask, (self.mask + bottom) as u64);
            lemma_turn_keeps_subset(
                self.player_bitboard,
                self.mask,
                self.mask | ((self.mask + bottom) as u64),
            );
        }
        self.player_bitboard ^= self.mask;
        self.mask |= self.mask + bottom;
        proof {
            Self::lemma_dropped(before, *self, column as int);
        }
        self.alignment()
    }

    /// Whether the player who moved last has four in a line.
    pub fn alignment(&self) -> (found: bool)
        requires
            self.wf(),
        ensures
            found == has_four(self@, Side::Moved),
    {
        let pos = self.player_bitboard ^ self.mask;
        proof {
            self.lemma_runs_are_lines(0, 1);
            self.lemma_runs_are_lines(1, 0);
            self.lemma_runs_are_lines(1, 1);
            self.lemma_runs_are_lines(1, -1);
        }
        Self::check(pos, 1) || Self::check(pos, Self::MASK_HEIGHT) || Self::check(
            pos,
            Self::MASK_HEIGHT + 1,
        ) || Self::check(pos, Self::MASK_HEIGHT - 1)
    }

    /// Whether four bits of `pos` that lie `shift` apart are all set.
    pub fn check(pos: u64, shift: u8) -> (found: bool)
        requires
            shift < 32,
        ensures
            found == has_run(pos, shift as int),
    {
        proof {
            lemma_pairs_of_pairs(pos, shift as u64);
        }
        let m = pos & (pos >> shift);
        m & (m >> (2 * shift)) != 0
    }

    /// The bits of the player who moved last are that player's cells.
    proof fn lemma_moved_cell(&self, col: int, row: int)
        requires
            self.wf(),
        ensures
            held(self@, col, row, Side::Moved) <==> 0 <= col < 7 && 0 <= row < 7 && stone(
                self.player_bitboard ^ self.mask,
                col,
                row,
            ),
    {
        if 0 <= col < 7 && 0 <= row < 7 {
            lemma_column(self.mask, col);
            lemma_bit_of_xor(self.player_bitboard, self.mask, (7 * col + row) as u64);
            lemma_subset_bits(self.player_bitboard, self.mask, (7 * col + row) as u64);
            assert(stone(self.mask, col, row) <==> row < column_height(self.mask, col));
        }
    }

    /// A bit of the player who moved last lies in a cell.
    proof fn lemma_moved_bit(&self, i: int)
        requires
            self.wf(),
            bit_at(self.player_bitboard ^ self.mask, i),
        ensures
            0 <= i < 49,
            i % 7 != 6,
            held(self@, i / 7, i % 7, Side::Moved),
    {
        lemma_bit_of_xor(self.player_bitboard, self.mask, i as u64);
        lemma_subset_bits(self.player_bitboard, self.mask, i as u64);
        lemma_stacked_bits(self.mask, i as u64);
        self.lemma_moved_cell(i / 7, i % 7);
        assert(7 * (i / 7) + i % 7 == i);
    }

    /// Bits `7 * dc + dr` apart are cells `dc` columns and `dr` rows apart: the
    /// clear bit above each column ends every run that would leave the board
    /// at the top or at the bottom, and the clear bits above the last column
    /// end those that would leave it at the side.
    proof fn lemma_runs_are_lines(&self, dc: int, dr: int)
        requires
            self.wf(),
            (dc == 0 && dr == 1) || (dc == 1 && -1 <= dr <= 1),
        ensures
            has_run(self.player_bitboard ^ self.mask, 7 * dc + dr) == has_line(
                self@,
                dc,
                dr,
                Side::Moved,
            ),
    {
        let pos = self.player_bitboard ^ self.mask;
        let s = 7 * dc + dr;
        if has_run(pos, s) {
            let i = choose|i: int| #[trigger] run_at(pos, i, s);
            self.lemma_moved_bit(i);
            self.lemma_moved_bit(i + s);
            self.lemma_moved_bit(i + 2 * s);
            self.lemma_moved_bit(i + 3 * s);
            let col = i / 7;
            let row = i % 7;
            assert((i + s) / 7 == col + dc && (i + s) % 7 == row + dr);
            assert((i + 2 * s) / 7 == col + 2 * dc && (i + 2 * s) % 7 == row + 2 * dr);
            assert((i + 3 * s) / 7 == col + 3 * dc && (i + 3 * s) % 7 == row + 3 * dr);
            assert(line_held(self@, col, row, dc, dr, Side::Moved));
        }
        if has_line(self@, dc, dr, Side::Moved) {
            let (col, row) = choose|col: int, row: int| #[trigger]
                line_held(self@, col, row, dc, dr, Side::Moved);
            self.lemma_moved_cell(col, row);
            self.lemma_moved_cell(col + dc, row + dr);
            self.lemma_moved_cell(col + 2 * dc, row + 2 * dr);
            self.lemma_moved_cell(col + 3 * dc, row + 3 * dr);
            assert(run_at(pos, 7 * col + row, s));
        }
    }

    /// What the two words of `play` do to the view.
    proof fn lemma_dropped(before: Board, after: Board, col: int)
        requires
            before.wf(),
            has_room(before@, col),
            after.player_bitboard == before.player_bitboard ^ before.mask,
            after.mask == before.mask | ((before.mask + (1u64 << (7 * col as u64))) as u64),
        ensures
            after@ == after_drop(before@, col),
    {
        let row = column_height(before.mask, col);
        lemma_column(before.mask, col);
        lemma_drop_bits(before.mask, col as u64, row as u64, 0);
        assert forall|c: int, r: int| 0 <= c < 7 && 0 <= r < 7 implies #[trigger] stone(
            after.mask,
            c,
            r,
        ) == (stone(before.mask, c, r) || (c == col && r == row)) by {
            lemma_drop_bits(before.mask, col as u64, row as u64, (7 * c + r) as u64);
        }
        assert forall|c: int, r: int| 0 <= c < 7 && 0 <= r < 7 implies #[trigger] stone(
            after.player_bitboard,
            c,
            r,
        ) == (stone(before.player_bitboard, c, r) != stone(before.mask, c, r)) by {
            lemma_bit_of_xor(before.player_bitboard, before.mask, (7 * c + r) as u64);
        }
        let goal = after_drop(before@, col);
        assert(after@.len() == goal.len());
        assert forall|c: int| 0 <= c < 7 implies after@[c] =~= goal[c] by {
            lemma_column(before.mask, c);
            assert forall|r: int| 0 <= r < 6 implies filled(after.mask, c, r) == filled(
                before.mask,
                c,
                r,
            ) + if c == col && r == row {
                1nat
            } else {
                0nat
            } by {
                assert(stone(after.mask, c, r) == (stone(before.mask, c, r) || (c == col && r
                    == row)));
            }
            assert(column_height(after.mask, c) == column_height(before.mask, c) + if c == col {
                1nat
            } else {
                0nat
            });
            assert(turned(before@)[c].len() == before@[c].len());
            if c == col {
                assert(goal[c] == turned(before@)[c].push(Side::Moved));
            } else {
                assert(goal[c] == turned(before@)[c]);
            }
            assert forall|r: int| 0 <= r < after@[c].len() implies after@[c][r] == goal[c][r] by {
                assert(stone(after.player_bitboard, c, r) == (stone(before.player_bitboard, c, r)
                    != stone(before.mask, c, r)));
                lemma_subset_bits(before.player_bitboard, before.mask, (7 * c + r) as u64);
                assert(stone(before.mask, c, r) <==> r < column_height(before.mask, c));
            }
        }
        assert(after@ =~= goal);
    }

    /// The word of all stones: bit `7 * col + row` is set where column `col`
    /// holds a stone in row `row`, and no other bit is. The seventh bit of a
    /// column, the one above its cells, is never set.
    pub fn mask(&self) -> (word: u64)
        requires
            self.wf(),
        ensures
            forall|i: int| #[trigger] bit_at(word, i) <==> 0 <= i && i % 7 < stones_in(self@, i / 7),
            forall|i: int| #[trigger] bit_at(word, i) ==> i < 7 * WIDTH && i % 7 < HEIGHT,
    {
        proof {
            assert forall|i: int| #[trigger] bit_at(self.mask, i) implies i < 7 * WIDTH && i % 7
                < HEIGHT by {
                lemma_stacked_bits(self.mask, i as u64);
            }
            assert forall|i: int| #[trigger]
                bit_at(self.mask, i) <==> 0 <= i && i % 7 < stones_in(self@, i / 7) by {
                if 0 <= i < 64 {
                    lemma_stacked_bits(self.mask, i as u64);
                    if i < 49 {
                        lemma_column(self.mask, i / 7);
                        assert(stone(self.mask, i / 7, i % 7) == bit_at(self.mask, i));
                    }
                }
            }
        }
        self.mask
    }

    /// The word of the player to move: bit `7 * col + row` is set where
    /// column `col` holds a stone of that player in row `row`, and no other bit
    /// is. Joined by exclusive or to the word of all stones, it gives the word
    /// of the player who moved last.
    pub fn player_bitboard(&self) -> (word: u64)
        requires
            self.wf(),
        ensures
            forall|i: int| #[trigger]
                bit_at(word, i) <==> 0 <= i && held(self@, i / 7, i % 7, Side::ToMove),
    {
        proof {
            assert forall|i: int| #[trigger]
                bit_at(self.player_bitboard, i) <==> 0 <= i && held(
                    self@,
                    i / 7,
                    i % 7,
                    Side::ToMove,
                ) by {
                if 0 <= i < 64 {
                    lemma_subset_bits(self.player_bitboard, self.mask, i as u64);
                    lemma_stacked_bits(self.mask, i as u64);
                    if i < 49 {
                        lemma_column(self.mask, i / 7);
                        assert(stone(self.mask, i / 7, i % 7) == bit_at(self.mask, i));
                        assert(stone(self.player_bitboard, i / 7, i % 7) == bit_at(
                            self.player_bitboard,
                            i,
                        ));
                    }
                }
            }
        }
        self.player_bitboard
    }

    /// Joined by exclusive or, the two words give the word of the player who
    /// moved last: a bit for each stone of that player, and no other.
    pub proof fn lemma_word_of_moved(&self, mask: u64, player_bitboard: u64)
        requires
            self.wf(),
            forall|i: int| #[trigger] bit_at(mask, i) <==> 0 <= i && i % 7 < stones_in(self@, i / 7),
            forall|i: int| #[trigger]
                bit_at(player_bitboard, i) <==> 0 <= i && held(self@, i / 7, i % 7, Side::ToMove),
        ensures
            forall|i: int| #[trigger]
                bit_at(player_bitboard ^ mask, i) <==> 0 <= i && held(
                    self@,
                    i / 7,
                    i % 7,
                    Side::Moved,
                ),
    {
        assert forall|i: int| #[trigger]
            bit_at(player_bitboard ^ mask, i) <==> 0 <= i && held(
                self@,
                i / 7,
                i % 7,
                Side::Moved,
            ) by {
            if 0 <= i < 64 {
                lemma_bit_of_xor(player_bitboard, mask, i as u64);
            }
            assert(bit_at(mask, i) <==> 0 <= i && i % 7 < stones_in(self@, i / 7));
            assert(bit_at(player_bitboard, i) <==> 0 <= i && held(
                self@,
                i / 7,
                i % 7,
                Side::ToMove,
            ));
        }
    }

    /// The side of the stone in column `column` and row `row`, if the cell
    /// lies on the board and holds one.
    pub fn side_at(&self, column: u8, row: u8) -> (side: Option<Side>)
        requires
            self.wf(),
        ensures
            side == stone_at(self@, column as int, row as int),
    {
        if column >= Self::WIDTH || row >= Self::HEIGHT {
            proof {
                self.lemma_shape();
            }
            return None;
        }
        proof {
            lemma_cell_bit(column as u64, row as u64);
            lemma_column(self.mask, column as int);
            lemma_single_bit(self.mask, (7 * column + row) as u64);
            lemma_single_bit(self.player_bitboard, (7 * column + row) as u64);
            assert(stone(self.mask, column as int, row as int) == bit_at(
                self.mask,
                7 * column + row,
            ));
        }
        let cell = (1u64 << row) << (Self::MASK_HEIGHT * column);
        if self.mask & cell != 0 {
            if self.player_bitboard & cell != 0 {
                Some(Side::ToMove)
            } else {
                Some(Side::Moved)
            }
        } else {
            None
        }
    }

    /// The word with the bit of the lowest cell of a column.
    fn bottom_mask(column: u8) -> (bottom: u64)
        requires
            column < WIDTH,
        ensures
            bottom == 1u64 << (7 * column as u64),
    {
        1 << (column * Self::MASK_HEIGHT)
    }

    /// The word with the bit of the highest cell of a column.
    fn top_mask(column: u8) -> (top: u64)
        requires
            column < WIDTH,
        ensures
            top == 1u64 << ((7 * column + 5) as u64),
    {
        proof {
            lemma_top_of_column(column as u64);
        }
        Self::bottom_mask(column) << (Self::MASK_HEIGHT - 2)
    }
}

} // verus!
