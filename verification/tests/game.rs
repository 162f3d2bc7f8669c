use connect4::{Game, Player, RelativeOutcome, State};

const DRAWN: [u8; 42] = [
    4, 3, 6, 0, 1, 4, 5, 5, 1, 1, 5, 0, 1, 6, 0, 1, 5, 5, 1, 0, 4, 6, 3, 2, 6, 6, 0, 4, 6, 5, 2, 0,
    4, 2, 4, 2, 2, 2, 3, 3, 3, 3,
];

fn game_after(moves: &[u8]) -> Game {
    let mut game = Game::new();
    for &action in moves {
        assert_eq!(game.state(), State::Unfinished);
        assert!(game.can_play(action));
        game.play(action);
    }
    game
}

#[test]
fn new_game_is_open_and_empty() {
    let game = Game::new();
    assert_eq!(game.state(), State::Unfinished);
    assert_eq!(game.player(), Player(1));
    assert_eq!(game.legal_actions(), vec![0, 1, 2, 3, 4, 5, 6]);
    assert_eq!(game.board().mask(), 0);
    assert_eq!(game.board().player_bitboard(), 0);
    assert_eq!(game.relative_outcome(Player(1)), RelativeOutcome::Unfinished);
    assert_eq!(game.relative_outcome(Player(2)), RelativeOutcome::Unfinished);
}

#[test]
fn players_are_each_other_s_opponent() {
    assert_eq!(Player::new(), Player(1));
    assert_eq!(Player(1).other(), Player(2));
    assert_eq!(Player(2).other(), Player(1));
    assert_eq!(Player(1).other().other(), Player(1));
}

#[test]
fn players_take_turns() {
    let mut game = Game::new();
    for count in 0..10u8 {
        let expected = if count % 2 == 0 { Player(1) } else { Player(2) };
        assert_eq!(game.player(), expected);
        game.play(count % 7);
    }
}

#[test]
fn legal_actions_are_the_open_columns_in_order() {
    let game = game_after(&[0, 0, 0, 0, 0, 0]);
    assert_eq!(game.legal_actions(), vec![1, 2, 3, 4, 5, 6]);
    let game = game_after(&[3, 3, 3, 3, 3, 3, 6, 6, 6, 6, 6, 6]);
    assert_eq!(game.legal_actions(), vec![0, 1, 2, 4, 5]);
    for column in 0..7u8 {
        assert_eq!(game.legal_actions().contains(&column), game.can_play(column));
    }
}

#[test]
fn no_legal_action_iff_forty_two_stones() {
    let mut game = Game::new();
    for (count, &action) in DRAWN.iter().enumerate() {
        assert!(!game.legal_actions().is_empty(), "after {} moves", count);
        assert_eq!(game.board().mask().count_ones() as usize, count);
        game.play(action);
    }
    assert_eq!(game.board().mask().count_ones(), 42);
    assert!(game.legal_actions().is_empty());
}

#[test]
fn forty_second_stone_draws() {
    let mut game = Game::new();
    for (count, &action) in DRAWN.iter().enumerate() {
        assert_eq!(game.state(), State::Unfinished, "after {} moves", count);
        assert!(game.legal_actions().contains(&action));
        game.play(action);
    }
    assert_eq!(game.state(), State::Draw);
    assert_eq!(game.relative_outcome(Player(1)), RelativeOutcome::Draw);
    assert_eq!(game.relative_outcome(Player(2)), RelativeOutcome::Draw);
    assert!(!game.board().alignment());
    assert_eq!(game.board().mask(), 0xfdfbf7efdfbf);
    assert_eq!(game.board().player_bitboard(), 0xa46b52c49594);
}

#[test]
fn first_line_of_four_wins_for_the_mover() {
    let moves = [0u8, 1, 1, 2, 2, 3, 2, 3, 3, 6, 3];
    let mut game = Game::new();
    for &action in &moves[..10] {
        game.play(action);
        assert_eq!(game.state(), State::Unfinished);
        assert!(!game.board().alignment());
    }
    assert_eq!(game.player(), Player(1));
    game.play(3);
    assert!(game.board().alignment());
    assert_eq!(game.state(), State::Win(Player(1)));
    assert_eq!(game.player(), Player(2));
}

#[test]
fn second_player_can_win() {
    let game = game_after(&[0, 1, 0, 1, 0, 1, 2, 1]);
    assert_eq!(game.state(), State::Win(Player(2)));
    assert_eq!(game.relative_outcome(Player(2)), RelativeOutcome::Win);
    assert_eq!(game.relative_outcome(Player(1)), RelativeOutcome::Lose);
    assert_eq!(game.player(), Player(1));
}

#[test]
fn outcome_for_someone_who_does_not_play() {
    let game = game_after(&[0, 1, 0, 1, 0, 1, 0]);
    assert_eq!(game.relative_outcome(Player(5)), RelativeOutcome::Lose);
    let game = game_after(&[0, 1]);
    assert_eq!(game.relative_outcome(Player(5)), RelativeOutcome::Unfinished);
}

#[test]
fn line_with_the_last_stone_is_a_win_and_no_draw() {
    let moves: [u8; 42] = [
        1, 2, 4, 6, 5, 2, 1, 0, 2, 5, 4, 0, 6, 5, 4, 1, 5, 2, 1, 6, 3, 4, 0, 4, 5, 2, 5, 4, 6, 2,
        6, 3, 6, 0, 1, 1, 0, 0, 3, 3, 3, 3,
    ];
    let game = game_after(&moves);
    assert_eq!(game.state(), State::Win(Player(2)));
    assert!(game.legal_actions().is_empty());
    assert_eq!(game.relative_outcome(Player(2)), RelativeOutcome::Win);
    assert_eq!(game.relative_outcome(Player(1)), RelativeOutcome::Lose);
}

#[test]
fn columns_stay_open_after_a_win() {
    let game = game_after(&[0, 0, 1, 1, 2, 2, 3]);
    assert_eq!(game.state(), State::Win(Player(1)));
    assert_eq!(game.legal_actions(), vec![0, 1, 2, 3, 4, 5, 6]);
    assert!(game.can_play(3));
}

#[test]
fn state_seen_by_a_player() {
    assert_eq!(State::Unfinished.relative_to(Player(1)), RelativeOutcome::Unfinished);
    assert_eq!(State::Draw.relative_to(Player(2)), RelativeOutcome::Draw);
    assert_eq!(State::Win(Player(1)).relative_to(Player(1)), RelativeOutcome::Win);
    assert_eq!(State::Win(Player(1)).relative_to(Player(2)), RelativeOutcome::Lose);
    assert_eq!(State::Win(Player(2)).relative_to(Player(2)), RelativeOutcome::Win);
    assert_eq!(State::Win(Player(2)).relative_to(Player(1)), RelativeOutcome::Lose);
}

#[test]
fn clones_do_not_share_the_board() {
    let parent = game_after(&[3, 3, 2]);
    let mask = parent.board().mask();
    let bits = parent.board().player_bitboard();
    let mut left = parent.clone();
    let mut right = parent.clone();
    left.play(0);
    right.play(6);
    assert_eq!(parent.board().mask(), mask);
    assert_eq!(parent.board().player_bitboard(), bits);
    assert_eq!(parent.player(), Player(2));
    assert_eq!(left.board().mask(), mask | 1);
    assert_eq!(right.board().mask(), mask | 1 << 42);
    assert_eq!(left.board().player_bitboard(), mask ^ bits);
    assert_eq!(right.board().player_bitboard(), mask ^ bits);
    assert_eq!(left.player(), Player(1));
    left.play(0);
    assert_eq!(right.board().mask(), mask | 1 << 42);
    assert_eq!(left.board().mask(), mask | 0b11);
}
