use connect4::{Board, Side, HEIGHT, WIDTH};

fn board_after(moves: &[u8]) -> Board {
    let mut board = Board::new();
    for &column in moves {
        assert!(board.can_play(column));
        board.play(column);
    }
    board
}

#[test]
fn geometry_is_seven_by_six() {
    assert_eq!(WIDTH, 7);
    assert_eq!(HEIGHT, 6);
    assert_eq!(Board::WIDTH, 7);
    assert_eq!(Board::HEIGHT, 6);
}

#[test]
fn empty_board_has_no_bits() {
    let board = Board::new();
    assert_eq!(board.mask(), 0);
    assert_eq!(board.player_bitboard(), 0);
    assert!(!board.alignment());
    for column in 0..WIDTH {
        assert!(board.can_play(column));
        for row in 0..HEIGHT {
            assert_eq!(board.side_at(column, row), None);
        }
    }
}

#[test]
fn first_stone_lands_on_the_floor() {
    let mut board = Board::new();
    assert!(!board.play(3));
    assert_eq!(board.mask(), 1 << 21);
    assert_eq!(board.player_bitboard(), 0);
    assert_eq!(board.side_at(3, 0), Some(Side::Moved));
    assert_eq!(board.side_at(3, 1), None);
}

#[test]
fn stones_stack_and_sides_turn() {
    let board = board_after(&[3, 3, 2]);
    assert_eq!(board.mask(), 0x604000);
    assert_eq!(board.player_bitboard(), 0x400000);
    assert_eq!(board.mask() ^ board.player_bitboard(), 0x204000);
    assert_eq!(board.side_at(3, 0), Some(Side::Moved));
    assert_eq!(board.side_at(3, 1), Some(Side::ToMove));
    assert_eq!(board.side_at(2, 0), Some(Side::Moved));
    assert_eq!(board.side_at(2, 1), None);
    assert_eq!(board.side_at(4, 0), None);
}

#[test]
fn side_off_the_board_is_none() {
    let board = board_after(&[0, 0, 0, 0, 0, 0, 6]);
    assert_eq!(board.side_at(0, 5), Some(Side::ToMove));
    assert_eq!(board.side_at(0, 6), None);
    assert_eq!(board.side_at(7, 0), None);
    assert_eq!(board.side_at(200, 200), None);
    assert_eq!(board.side_at(6, 0), Some(Side::Moved));
}

#[test]
fn can_play_iff_fewer_than_six_stones() {
    for column in 0..WIDTH {
        let mut board = Board::new();
        for placed in 0..HEIGHT {
            assert!(board.can_play(column), "column {} with {} stones", column, placed);
            board.play(column);
        }
        assert!(!board.can_play(column));
        for other in 0..WIDTH {
            if other != column {
                assert!(board.can_play(other));
            }
        }
    }
}

#[test]
fn full_column_keeps_its_top_bit_clear() {
    let board = board_after(&[2, 2, 2, 2, 2, 2]);
    assert_eq!(board.mask(), 0x3f << 14);
    assert_eq!(board.mask() & (1 << 20), 0);
    assert_eq!(board.player_bitboard(), 0x15 << 14);
}

#[test]
fn column_off_the_board_holds_no_stone() {
    let board = board_after(&[6, 6, 6, 6, 6, 6]);
    assert!(!board.can_play(6));
    assert!(board.can_play(7));
    assert!(board.can_play(9));
    assert!(board.can_play(10));
    assert!(board.can_play(255));
}

#[test]
fn check_finds_four_bits_in_step() {
    assert!(Board::check(0b1111, 1));
    assert!(!Board::check(0b0111, 1));
    assert!(!Board::check(0b11011, 1));
    assert!(Board::check(0b111100, 1));
    assert!(Board::check(1 | 1 << 7 | 1 << 14 | 1 << 21, 7));
    assert!(!Board::check(1 | 1 << 7 | 1 << 14 | 1 << 22, 7));
    assert!(Board::check(1 | 1 << 8 | 1 << 16 | 1 << 24, 8));
    assert!(Board::check(1 << 3 | 1 << 9 | 1 << 15 | 1 << 21, 6));
    assert!(!Board::check(0, 1));
    assert!(Board::check(1 << 63, 0));
    assert!(!Board::check(u64::MAX, 31));
    assert!(Board::check(u64::MAX, 21));
}

#[test]
fn four_in_a_column() {
    let mut board = Board::new();
    for (count, &column) in [0u8, 1, 0, 1, 0, 1].iter().enumerate() {
        assert!(!board.play(column), "move {}", count + 1);
    }
    assert!(board.play(0));
    assert!(board.alignment());
}

#[test]
fn four_in_a_row() {
    let mut board = Board::new();
    for &column in &[0u8, 0, 1, 1, 2, 2] {
        assert!(!board.play(column));
    }
    assert!(board.play(3));
}

#[test]
fn four_on_a_rising_diagonal() {
    let mut board = Board::new();
    for &column in &[0u8, 1, 1, 2, 2, 3, 2, 3, 3, 6] {
        assert!(!board.play(column));
    }
    assert!(board.play(3));
}

#[test]
fn four_on_a_falling_diagonal() {
    let mut board = Board::new();
    for &column in &[3u8, 2, 2, 1, 1, 0, 1, 0, 0, 6] {
        assert!(!board.play(column));
    }
    assert!(board.play(0));
}

#[test]
fn alignment_is_of_the_player_who_moved_last() {
    let mut board = board_after(&[0, 1, 0, 1, 0, 1, 0]);
    assert!(board.alignment());
    assert!(!board.play(6));
    assert!(!board.alignment());
}

#[test]
fn run_over_the_top_of_a_column_is_no_line() {
    let mut board = Board::new();
    for &column in &[6u8, 0, 5, 0, 6, 0, 0, 5, 0, 4, 0, 4] {
        assert!(!board.play(column));
    }
    assert!(!board.play(1));
    assert_eq!(board.side_at(0, 3), Some(Side::Moved));
    assert_eq!(board.side_at(0, 4), Some(Side::Moved));
    assert_eq!(board.side_at(0, 5), Some(Side::Moved));
    assert_eq!(board.side_at(1, 0), Some(Side::Moved));
}

#[test]
fn copy_of_a_board_is_its_own() {
    let parent = board_after(&[3, 4]);
    let mut copy = parent.clone();
    copy.play(3);
    assert_eq!(parent.mask(), 1 << 21 | 1 << 28);
    assert_eq!(parent.player_bitboard(), 1 << 21);
    assert_eq!(copy.mask(), 1 << 21 | 1 << 22 | 1 << 28);
    assert_eq!(copy.player_bitboard(), 1 << 28);
}
