//! The board as mathematics: seven stacks of stones.
//!
//! A grid is a sequence of columns, and a column is the sequence of the stones
//! dropped into it, the lowest first. What a stone is stays open here: the
//! bit-packed board marks its stones by turn, a match marks them by player.

use vstd::prelude::*;

verus! {

/// The number of columns.
pub const WIDTH: u8 = 7;

/// The number of stones that a column takes.
pub const HEIGHT: u8 = 6;

/// Seven columns, none of them above its top.
pub open spec fn well_shaped<T>(grid: Seq<Seq<T>>) -> bool {
    &&& grid.len() == WIDTH
    &&& forall|col: int| 0 <= col < WIDTH ==> (#[trigger] grid[col]).len() <= HEIGHT
}

/// The grid without a stone.
pub open spec fn empty_grid<T>() -> Seq<Seq<T>> {
    Seq::new(WIDTH as nat, |col: int| Seq::<T>::empty())
}

/// The number of stones in column `col`; a column off the board holds none.
pub open spec fn stones_in<T>(grid: Seq<Seq<T>>, col: int) -> nat {
    if 0 <= col < grid.len() {
        grid[col].len()
    } else {
        0
    }
}

/// The number of stones in the columns below `upto`.
pub open spec fn stones_below<T>(grid: Seq<Seq<T>>, upto: int) -> nat
    decreases upto,
{
    if upto <= 0 {
        0
    } else {
        stones_below(grid, upto - 1) + stones_in(grid, upto - 1)
    }
}

/// The number of stones on the board.
pub open spec fn stones<T>(grid: Seq<Seq<T>>) -> nat {
    stones_below(grid, WIDTH as int)
}

/// Column `col` is on the board and has room for a stone.
pub open spec fn has_room<T>(grid: Seq<Seq<T>>, col: int) -> bool {
    0 <= col < WIDTH && stones_in(grid, col) < HEIGHT
}

/// The grid after `who` has dropped a stone into column `col`.
pub open spec fn with_stone<T>(grid: Seq<Seq<T>>, col: int, who: T) -> Seq<Seq<T>>
    recommends
        0 <= col < grid.len(),
{
    grid.update(col, grid[col].push(who))
}

/// The columns below `upto` that have room, in ascending order.
pub open spec fn open_columns_below<T>(grid: Seq<Seq<T>>, upto: int) -> Seq<u8>
    decreases upto,
{
    if upto <= 0 {
        Seq::empty()
    } else if has_room(grid, upto - 1) {
        open_columns_below(grid, upto - 1).push((upto - 1) as u8)
    } else {
        open_columns_below(grid, upto - 1)
    }
}

/// The columns that have room, in ascending order.
pub open spec fn open_columns<T>(grid: Seq<Seq<T>>) -> Seq<u8> {
    open_columns_below(grid, WIDTH as int)
}

/// The cell in column `col` and row `row` lies on the board and holds a stone
/// of `who`.
pub open spec fn held<T>(grid: Seq<Seq<T>>, col: int, row: int, who: T) -> bool {
    &&& 0 <= col < grid.len()
    &&& 0 <= row < grid[col].len()
    &&& grid[col][row] == who
}

/// The stone in the cell in column `col` and row `row`, if the cell lies on
/// the board and holds one.
pub open spec fn stone_at<T>(grid: Seq<Seq<T>>, col: int, row: int) -> Option<T> {
    if 0 <= col < grid.len() && 0 <= row < grid[col].len() {
        Some(grid[col][row])
    } else {
        None
    }
}

/// Four cells in a line hold stones of `who`: the first is (`col`, `row`), and
/// each next one lies `dc` columns and `dr` rows further.
pub open spec fn line_held<T>(
    grid: Seq<Seq<T>>,
    col: int,
    row: int,
    dc: int,
    dr: int,
    who: T,
) -> bool {
    &&& held(grid, col, row, who)
    &&& held(grid, col + dc, row + dr, who)
    &&& held(grid, col + 2 * dc, row + 2 * dr, who)
    &&& held(grid, col + 3 * dc, row + 3 * dr, who)
}

/// Somewhere on the board `who` holds four cells in the direction (`dc`, `dr`).
pub open spec fn has_line<T>(grid: Seq<Seq<T>>, dc: int, dr: int, who: T) -> bool {
    exists|col: int, row: int| #[trigger] line_held(grid, col, row, dc, dr, who)
}

/// `who` holds four cells in a line: upwards, sideways or along one of the two
/// diagonals.
pub open spec fn has_four<T>(grid: Seq<Seq<T>>, who: T) -> bool {
    ||| has_line(grid, 0, 1, who)
    ||| has_line(grid, 1, 0, who)
    ||| has_line(grid, 1, 1, who)
    ||| has_line(grid, 1, -1, who)
}

/// Off column `col` a dropped stone changes nothing, and in it only the cell
/// on top.
pub proof fn lemma_with_stone_held<T>(grid: Seq<Seq<T>>, col: int, who: T, c: int, r: int, t: T)
    requires
        0 <= col < grid.len(),
    ensures
        held(with_stone(grid, col, who), c, r, t) <==> held(grid, c, r, t) || (c == col && r
            == grid[col].len() && t == who),
{
    let after = with_stone(grid, col, who);
    assert(after.len() == grid.len());
    if 0 <= c < grid.len() {
        if c == col {
            assert(after[c] == grid[col].push(who));
        } else {
            assert(after[c] == grid[c]);
        }
    }
}

/// A dropped stone gives no line to anyone but its owner.
pub proof fn lemma_with_stone_keeps_others<T>(grid: Seq<Seq<T>>, col: int, who: T, other: T)
    requires
        0 <= col < grid.len(),
        other != who,
    ensures
        has_four(with_stone(grid, col, who), other) == has_four(grid, other),
{
    let after = with_stone(grid, col, who);
    assert forall|c: int, r: int, dc: int, dr: int|
        line_held(after, c, r, dc, dr, other) == line_held(grid, c, r, dc, dr, other) by {
        lemma_with_stone_held(grid, col, who, c, r, other);
        lemma_with_stone_held(grid, col, who, c + dc, r + dr, other);
        lemma_with_stone_held(grid, col, who, c + 2 * dc, r + 2 * dr, other);
        lemma_with_stone_held(grid, col, who, c + 3 * dc, r + 3 * dr, other);
    }
    lemma_same_lines(after, grid, other, other);
}

/// Two grids in which the same lines are held, one by `a` and one by `b`, agree
/// on whether there are four in a line.
pub proof fn lemma_same_lines<T, U>(g: Seq<Seq<T>>, h: Seq<Seq<U>>, a: T, b: U)
    requires
        forall|c: int, r: int, dc: int, dr: int|
            line_held(g, c, r, dc, dr, a) == line_held(h, c, r, dc, dr, b),
    ensures
        has_line(g, 0, 1, a) == has_line(h, 0, 1, b),
        has_line(g, 1, 0, a) == has_line(h, 1, 0, b),
        has_line(g, 1, 1, a) == has_line(h, 1, 1, b),
        has_line(g, 1, -1, a) == has_line(h, 1, -1, b),
        has_four(g, a) == has_four(h, b),
{
    lemma_same_lines_along(g, h, a, b, 0, 1);
    lemma_same_lines_along(g, h, a, b, 1, 0);
    lemma_same_lines_along(g, h, a, b, 1, 1);
    lemma_same_lines_along(g, h, a, b, 1, -1);
}

proof fn lemma_same_lines_along<T, U>(g: Seq<Seq<T>>, h: Seq<Seq<U>>, a: T, b: U, dc: int, dr: int)
    requires
        forall|c: int, r: int, dc: int, dr: int|
            line_held(g, c, r, dc, dr, a) == line_held(h, c, r, dc, dr, b),
    ensures
        has_line(g, dc, dr, a) == has_line(h, dc, dr, b),
{
    if has_line(g, dc, dr, a) {
        let (c, r) = choose|c: int, r: int| #[trigger] line_held(g, c, r, dc, dr, a);
        assert(line_held(h, c, r, dc, dr, b));
    }
    if has_line(h, dc, dr, b) {
        let (c, r) = choose|c: int, r: int| #[trigger] line_held(h, c, r, dc, dr, b);
        assert(line_held(g, c, r, dc, dr, a));
    }
}

/// A dropped stone adds one to its column and to the board, and leaves the
/// shape alone while the column had room.
pub proof fn lemma_with_stone_counts<T>(grid: Seq<Seq<T>>, col: int, who: T)
    requires
        well_shaped(grid),
        has_room(grid, col),
    ensures
        well_shaped(with_stone(grid, col, who)),
        stones(with_stone(grid, col, who)) == stones(grid) + 1,
        forall|c: int|
            stones_in(with_stone(grid, col, who), c) == stones_in(grid, c) + if c == col {
                1nat
            } else {
                0nat
            },
{
    let after = with_stone(grid, col, who);
    assert(after.len() == grid.len());
    assert forall|c: int| 0 <= c < WIDTH implies (#[trigger] after[c]).len() <= HEIGHT by {
        assert(grid[c].len() <= HEIGHT);
        if c == col {
            assert(after[c] == grid[col].push(who));
        } else {
            assert(after[c] == grid[c]);
        }
    }
    lemma_stones_below_after(grid, col, who, WIDTH as int);
}

proof fn lemma_stones_below_after<T>(grid: Seq<Seq<T>>, col: int, who: T, upto: int)
    requires
        0 <= col < grid.len(),
        0 <= upto <= grid.len(),
    ensures
        stones_below(with_stone(grid, col, who), upto) == stones_below(grid, upto) + if col
            < upto {
            1nat
        } else {
            0nat
        },
    decreases upto,
{
    if upto > 0 {
        lemma_stones_below_after(grid, col, who, upto - 1);
    }
}

/// No column has room exactly when the board holds all its forty-two stones.
pub proof fn lemma_full_board<T>(grid: Seq<Seq<T>>)
    requires
        well_shaped(grid),
    ensures
        stones(grid) <= WIDTH * HEIGHT,
        open_columns(grid).len() == 0 <==> stones(grid) == WIDTH * HEIGHT,
        forall|col: int| 0 <= col < WIDTH && stones(grid) == WIDTH * HEIGHT ==> !has_room(grid, col),
{
    lemma_open_columns_below(grid, WIDTH as int);
}

proof fn lemma_open_columns_below<T>(grid: Seq<Seq<T>>, upto: int)
    requires
        well_shaped(grid),
        0 <= upto <= WIDTH,
    ensures
        stones_below(grid, upto) <= upto * HEIGHT,
        open_columns_below(grid, upto).len() == 0 <==> stones_below(grid, upto) == upto * HEIGHT,
        forall|col: int| 0 <= col < upto && stones_below(grid, upto) == upto * HEIGHT ==> !has_room(grid, col),
    decreases upto,
{
    if upto > 0 {
        lemma_open_columns_below(grid, upto - 1);
        assert(grid[upto - 1].len() <= HEIGHT);
    }
}

/// The open columns are listed once each and in ascending order, and nothing
/// else is listed.
pub proof fn lemma_open_columns<T>(grid: Seq<Seq<T>>)
    ensures
        forall|i: int, j: int|
            0 <= i < j < open_columns(grid).len() ==> open_columns(grid)[i] < open_columns(grid)[j],
        forall|col: u8| open_columns(grid).contains(col) <==> has_room(grid, col as int),
        open_columns(grid).len() <= WIDTH,
{
    lemma_open_columns_listed(grid, WIDTH as int);
}

proof fn lemma_open_columns_listed<T>(grid: Seq<Seq<T>>, upto: int)
    requires
        0 <= upto <= WIDTH,
    ensures
        forall|i: int|
            0 <= i < open_columns_below(grid, upto).len() ==> (#[trigger] open_columns_below(
                grid,
                upto,
            )[i]) < upto,
        forall|i: int, j: int|
            0 <= i < j < open_columns_below(grid, upto).len() ==> open_columns_below(grid, upto)[i]
                < open_columns_below(grid, upto)[j],
        forall|col: u8|
            open_columns_below(grid, upto).contains(col) <==> col < upto && has_room(
                grid,
                col as int,
            ),
        open_columns_below(grid, upto).len() <= upto,
    decreases upto,
{
    if upto > 0 {
        lemma_open_columns_listed(grid, upto - 1);
        let before = open_columns_below(grid, upto - 1);
        let listed = open_columns_below(grid, upto);
        let last = (upto - 1) as u8;
        if has_room(grid, upto - 1) {
            assert(listed[before.len() as int] == last);
            assert forall|col: u8| listed.contains(col) <==> col < upto && has_room(
                grid,
                col as int,
            ) by {
                if listed.contains(col) {
                    let i = choose|i: int| 0 <= i < listed.len() && listed[i] == col;
                    if i < before.len() {
                        assert(before[i] == col);
                        assert(before.contains(col));
                    }
                }
                if col < upto && has_room(grid, col as int) {
                    if col == last {
                        assert(listed[before.len() as int] == col);
                    } else {
                        assert(before.contains(col));
                        let i = choose|i: int| 0 <= i < before.len() && before[i] == col;
                        assert(listed[i] == col);
                    }
                }
            }
        }
    }
}

} // verus!
