//! Matches as sequences of moves, and what holds of all of them.

use vstd::prelude::*;
use crate::game::GameView;
use crate::grid::{has_four, has_room, lemma_full_board, stones, stones_below, HEIGHT, WIDTH};
use crate::player::{Player, State};

verus! {

/// The match after the moves of `moves`, each the column that a stone was
/// dropped into, from the start.
pub open spec fn replay(moves: Seq<u8>) -> GameView
    decreases moves.len(),
{
    if moves.len() == 0 {
        GameView::start()
    } else {
        replay(moves.drop_last()).after(moves.last() as int)
    }
}

/// Each move of `moves` was one that the match accepted when it was made.
pub open spec fn playable(moves: Seq<u8>) -> bool
    decreases moves.len(),
{
    moves.len() == 0 || (playable(moves.drop_last()) && replay(moves.drop_last()).accepts(
        moves.last() as int,
    ))
}

/// The match before the first move is well-formed.
pub proof fn lemma_start_wf()
    ensures
        GameView::start().wf(),
        stones(GameView::start().columns) == 0,
{
    reveal_with_fuel(stones_below, 8);
}

/// After any moves that were accepted the match is well-formed, and the board
/// holds a stone for each move: at most forty-two.
pub proof fn lemma_replay_wf(moves: Seq<u8>)
    requires
        playable(moves),
    ensures
        replay(moves).wf(),
        stones(replay(moves).columns) == moves.len(),
        moves.len() <= WIDTH * HEIGHT,
    decreases moves.len(),
{
    if moves.len() == 0 {
        lemma_start_wf();
    } else {
        lemma_replay_wf(moves.drop_last());
        replay(moves.drop_last()).lemma_after_wf(moves.last() as int);
    }
    lemma_full_board(replay(moves).columns);
}

/// The moves before any move of an accepted sequence were accepted too, and
/// after them the match still went on, with room in the column of the next
/// move.
pub proof fn lemma_prefix_playable(moves: Seq<u8>, count: int)
    requires
        playable(moves),
        0 <= count <= moves.len(),
    ensures
        playable(moves.take(count)),
        count < moves.len() ==> replay(moves.take(count)).accepts(moves[count] as int),
    decreases moves.len() - count,
{
    if count == moves.len() {
        assert(moves.take(count) =~= moves);
    } else {
        lemma_prefix_playable(moves, count + 1);
        let longer = moves.take(count + 1);
        assert(longer.drop_last() =~= moves.take(count));
        assert(longer.last() == moves[count]);
    }
}

/// The move that first puts four stones of one player in a line wins the match
/// for the player who made it, and no move does so earlier: before every
/// accepted move nobody has four in a line and the match goes on; after it the
/// mover has won exactly if the mover has four in a line, and nobody else has
/// won or has four in a line.
pub proof fn lemma_first_four_wins(moves: Seq<u8>)
    requires
        playable(moves),
        moves.len() > 0,
    ensures
        ({
            let before = replay(moves.drop_last());
            let after = replay(moves);
            let mover = before.to_move;
            &&& before.outcome == State::Unfinished
            &&& before.no_four()
            &&& after.outcome == State::Win(mover) <==> has_four(after.columns, mover)
            &&& !has_four(after.columns, mover.opponent())
            &&& forall|winner: Player| after.outcome == State::Win(winner) ==> winner == mover
        }),
{
    lemma_replay_wf(moves.drop_last());
    lemma_replay_wf(moves);
}

/// A match is drawn exactly when the forty-second stone has been dropped and
/// gave its player no four in a line; with fewer stones on the board no match
/// is drawn.
pub proof fn lemma_last_stone_draws(moves: Seq<u8>)
    requires
        playable(moves),
        moves.len() > 0,
    ensures
        replay(moves).outcome == State::Draw <==> moves.len() == WIDTH * HEIGHT && !has_four(
            replay(moves).columns,
            replay(moves.drop_last()).to_move,
        ),
{
    lemma_replay_wf(moves.drop_last());
    lemma_replay_wf(moves);
}

/// When the board is full no column is open, and the other way round.
pub proof fn lemma_full_board_has_no_move(moves: Seq<u8>, col: int)
    requires
        playable(moves),
    ensures
        moves.len() == WIDTH * HEIGHT ==> !has_room(replay(moves).columns, col),
        moves.len() == WIDTH * HEIGHT ==> replay(moves).outcome != State::Unfinished,
{
    lemma_replay_wf(moves);
    lemma_full_board(replay(moves).columns);
}

} // verus!
