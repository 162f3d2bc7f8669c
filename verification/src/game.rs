//! A match: the board, whose turn it is, and how the match stands.

use vstd::prelude::*;
use crate::board::{after_drop, Board, Side};
use crate::grid::{
    empty_grid, has_four, has_room, held, lemma_full_board, lemma_same_lines,
    lemma_with_stone_counts, lemma_with_stone_keeps_others, line_held, open_columns,
    open_columns_below, stones, stones_in, well_shaped, with_stone, HEIGHT, WIDTH,
};
use crate::player::{Player, RelativeOutcome, State};

verus! {

/// A match as mathematics.
pub struct GameView {
    /// The stones of each column from the floor up, each with its owner.
    pub columns: Seq<Seq<Player>>,
    /// The player whose turn it is.
    pub to_move: Player,
    /// How the match stands.
    pub outcome: State,
}

impl GameView {
    /// The match before the first move.
    pub open spec fn start() -> GameView {
        GameView { columns: empty_grid(), to_move: Player(1), outcome: State::Unfinished }
    }

    /// Nobody has four in a line.
    pub open spec fn no_four(self) -> bool {
        !has_four(self.columns, self.to_move) && !has_four(self.columns, self.to_move.opponent())
    }

    /// What holds of a match at every moment: the board has its shape, the
    /// players take turns from the first stone on, and the outcome says what
    /// is on the board.
    pub open spec fn wf(self) -> bool {
        &&& well_shaped(self.columns)
        &&& self.to_move.valid()
        &&& self.to_move == if stones(self.columns) % 2 == 0 {
            Player(1)
        } else {
            Player(2)
        }
        &&& match self.outcome {
            State::Unfinished => self.no_four() && stones(self.columns) < WIDTH * HEIGHT,
            State::Draw => self.no_four() && stones(self.columns) == WIDTH * HEIGHT,
            State::Win(winner) => {
                &&& winner == self.to_move.opponent()
                &&& has_four(self.columns, winner)
                &&& !has_four(self.columns, self.to_move)
            },
        }
    }

    /// A stone may be dropped into column `col`: the match goes on, and the
    /// column is on the board and has room.
    pub open spec fn accepts(self, col: int) -> bool {
        self.outcome == State::Unfinished && has_room(self.columns, col)
    }

    /// The match after the player to move has dropped a stone into column
    /// `col`. A line of four wins; without one the last stone draws.
    pub open spec fn after(self, col: int) -> GameView {
        let columns = with_stone(self.columns, col, self.to_move);
        GameView {
            columns,
            to_move: self.to_move.opponent(),
            outcome: if has_four(columns, self.to_move) {
                State::Win(self.to_move)
            } else if stones(columns) >= WIDTH * HEIGHT {
                State::Draw
            } else {
                State::Unfinished
            },
        }
    }

    /// A move keeps what holds of a match at every moment.
    pub proof fn lemma_after_wf(self, col: int)
        requires
            self.wf(),
            self.accepts(col),
        ensures
            self.after(col).wf(),
            stones(self.after(col).columns) == stones(self.columns) + 1,
    {
        lemma_with_stone_counts(self.columns, col, self.to_move);
        lemma_with_stone_keeps_others(self.columns, col, self.to_move, self.to_move.opponent());
        lemma_full_board(self.after(col).columns);
    }
}

/// The stones of a board with their owners, when `to_move` is to move.
pub open spec fn colored(grid: Seq<Seq<Side>>, to_move: Player) -> Seq<Seq<Player>> {
    Seq::new(
        grid.len(),
        |col: int|
            Seq::new(
                grid[col].len(),
                |row: int|
                    match grid[col][row] {
                        Side::ToMove => to_move,
                        Side::Moved => to_move.opponent(),
                    },
            ),
    )
}

/// The player who moved last has on the board what the board has for the side
/// that moved.
proof fn lemma_colored_moved(grid: Seq<Seq<Side>>, to_move: Player)
    requires
        to_move.valid(),
    ensures
        has_four(colored(grid, to_move), to_move.opponent()) == has_four(grid, Side::Moved),
{
    let owners = colored(grid, to_move);
    assert forall|c: int, r: int|
        held(owners, c, r, to_move.opponent()) == held(grid, c, r, Side::Moved) by {}
    assert forall|c: int, r: int, dc: int, dr: int|
        line_held(owners, c, r, dc, dr, to_move.opponent()) == line_held(
            grid,
            c,
            r,
            dc,
            dr,
            Side::Moved,
        ) by {}
    lemma_same_lines(owners, grid, to_move.opponent(), Side::Moved);
}

/// A stone dropped on the board is a stone of the player to move.
proof fn lemma_colored_drop(grid: Seq<Seq<Side>>, to_move: Player, col: int)
    requires
        to_move.valid(),
        0 <= col < grid.len(),
    ensures
        colored(after_drop(grid, col), to_move.opponent()) == with_stone(
            colored(grid, to_move),
            col,
            to_move,
        ),
{
    let left = colored(after_drop(grid, col), to_move.opponent());
    let right = with_stone(colored(grid, to_move), col, to_move);
    assert(left.len() == right.len());
    assert forall|c: int| 0 <= c < left.len() implies left[c] =~= right[c] by {
        if c == col {
            assert(right[c] == colored(grid, to_move)[c].push(to_move));
        } else {
            assert(right[c] == colored(grid, to_move)[c]);
        }
    }
    assert(left =~= right);
}

/// A match of Connect Four.
#[derive(Debug, Copy)]
pub struct Game {
    /// The stones.
    board: Board,
    /// The player whose turn it is.
    player: Player,
    /// How the match stands.
    state: State,
    /// The number of moves made.
    moves: u8,
}

impl Clone for Game {
    /// A second match in the same state. Neither changes when the other is
    /// played on.
    fn clone(&self) -> (copy: Game)
        ensures
            copy == *self,
    {
        *self
    }
}

impl View for Game {
    type V = GameView;

    /// The stones with their owners, the player to move and the outcome.
    closed spec fn view(&self) -> GameView {
        GameView {
            columns: colored(self.board@, self.player),
            to_move: self.player,
            outcome: self.state,
        }
    }
}

impl Game {
    /// What holds of a match at every moment: the board is well-formed, the
    /// count of moves is the count of its stones, and the view is well-formed.
    pub closed spec fn wf(&self) -> bool {
        &&& self.board.wf()
        &&& self.moves == stones(self.board@)
        &&& self@.wf()
    }

    /// A well-formed match has a well-formed view.
    pub proof fn lemma_view_wf(&self)
        requires
            self.wf(),
        ensures
            self@.wf(),
    {
    }

    /// The match before the first move.
    pub fn new() -> (game: Game)
        ensures
            game.wf(),
            game@ == GameView::start(),
    {
        let game = Game {
            board: Board::new(),
            player: Player::new(),
            state: State::Unfinished,
            moves: 0,
        };
        proof {
            assert(game@.columns =~~= empty_grid::<Player>());
            Self::lemma_empty(game@.columns);
            Self::lemma_empty(game.board@);
        }
        game
    }

    /// The empty grid has its shape, no stone and no line.
    proof fn lemma_empty<T>(grid: Seq<Seq<T>>)
        requires
            grid == empty_grid::<T>(),
        ensures
            stones(grid) == 0,
            well_shaped(grid),
            forall|who: T| !has_four(grid, who),
    {
        reveal_with_fuel(crate::grid::stones_below, 8);
    }

    /// Whether column `action` takes one more stone. A column off the board
    /// holds no stone, and the answer there is `true` as well.
    pub fn can_play(&self, action: u8) -> (free: bool)
        requires
            self.wf(),
        ensures
            free == (stones_in(self@.columns, action as int) < HEIGHT),
    {
        self.board.can_play(action)
    }

    /// The columns that take one more stone, in ascending order. There is
    /// none exactly when the board is full.
    pub fn legal_actions(&self) -> (actions: Vec<u8>)
        requires
            self.wf(),
        ensures
            actions@ == open_columns(self@.columns),
            actions@.len() == 0 <==> stones(self@.columns) == WIDTH * HEIGHT,
    {
        let mut actions = Vec::new();
        for i in 0..Board::WIDTH
            invariant
                self.wf(),
                actions@ == open_columns_below(self@.columns, i as int),
        {
            if self.board.can_play(i) {
                actions.push(i);
            }
        }
        proof {
            lemma_full_board(self@.columns);
        }
        actions
    }

    /// Drops a stone of the player to move into column `action`, passes the
    /// turn and settles the outcome: the player wins who has four in a line
    /// now, and without such a line the forty-second stone draws.
    pub fn play(&mut self, action: u8)
        requires
            old(self).wf(),
            old(self)@.accepts(action as int),
        ensures
            final(self).wf(),
            final(self)@ == old(self)@.after(action as int),
    {
        let ghost before = *self;
        let mover = self.player;
        proof {
            before.board.lemma_shape();
            lemma_full_board(before.board@);
        }
        let result = self.board.play(action);
        self.moves += 1;
        self.player = mover.other();
        proof {
            lemma_colored_drop(before.board@, mover, action as int);
            lemma_colored_moved(self.board@, self.player);
            lemma_with_stone_counts(before@.columns, action as int, mover);
            self.board.lemma_shape();
            Self::lemma_colored_counts(self.board@, self.player);
            Self::lemma_colored_counts(before.board@, mover);
            before@.lemma_after_wf(action as int);
        }
        if result && self.state == State::Unfinished {
            self.state = State::Win(mover);
        } else if self.moves >= Board::WIDTH * Board::HEIGHT {
            self.state = State::Draw;
        }
    }

    /// Giving the stones their owners moves none of them.
    proof fn lemma_colored_counts(grid: Seq<Seq<Side>>, to_move: Player)
        requires
            well_shaped(grid),
        ensures
            stones(colored(grid, to_move)) == stones(grid),
            forall|col: int| stones_in(colored(grid, to_move), col) == stones_in(grid, col),
    {
        reveal_with_fuel(crate::grid::stones_below, 8);
    }

    /// The board of the match. Its stones are those of the view, marked by
    /// turn in place of owner.
    pub fn board(&self) -> (board: &Board)
        requires
            self.wf(),
        ensures
            board.wf(),
            colored(board@, self@.to_move) == self@.columns,
    {
        &self.board
    }

    /// How the match stands.
    pub fn state(&self) -> (state: State)
        ensures
            state == self@.outcome,
    {
        self.state
    }

    /// The player whose turn it is.
    pub fn player(&self) -> (player: Player)
        ensures
            player == self@.to_move,
    {
        self.player
    }

    /// How the match stands for `player`.
    pub fn relative_outcome(&self, player: Player) -> (outcome: RelativeOutcome)
        ensures
            outcome == self@.outcome.seen_by(player),
    {
        self.state.relative_to(player)
    }
}

} // verus!
