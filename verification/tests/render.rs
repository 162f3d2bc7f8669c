use connect4::Game;

fn picture_after(moves: &[u8]) -> String {
    let mut game = Game::new();
    for &action in moves {
        game.play(action);
    }
    game.render()
}

#[test]
fn picture_of_the_empty_board() {
    assert_eq!(
        picture_after(&[]),
        " 1 2 3 4 5 6 7\n\
         | | | | | | | |\n\
         | | | | | | | |\n\
         | | | | | | | |\n\
         | | | | | | | |\n\
         | | | | | | | |\n\
         | | | | | | | |\n\
         --------------- X"
    );
}

#[test]
fn picture_after_three_moves() {
    assert_eq!(
        picture_after(&[3, 3, 2]),
        " 1 2 3 4 5 6 7\n| | | | | | | |\n| | | | | | | |\n| | | | | | | |\n| | | | | | | |\n| | | |0| | | |\n| | |X|X| | | |\n--------------- 0"
    );
}

#[test]
fn picture_of_a_full_column() {
    assert_eq!(
        picture_after(&[0, 0, 0, 0, 0, 0]),
        " 1 2 3 4 5 6 7\n|0| | | | | | |\n|X| | | | | | |\n|0| | | | | | |\n|X| | | | | | |\n|0| | | | | | |\n|X| | | | | | |\n--------------- X"
    );
}

#[test]
fn picture_after_a_win() {
    assert_eq!(
        picture_after(&[0, 1, 0, 1, 0, 1, 0]),
        " 1 2 3 4 5 6 7\n| | | | | | | |\n| | | | | | | |\n|X| | | | | | |\n|X|0| | | | | |\n|X|0| | | | | |\n|X|0| | | | | |\n--------------- 0"
    );
}

#[test]
fn picture_of_a_drawn_board() {
    let moves: [u8; 42] = [
        4, 3, 6, 0, 1, 4, 5, 5, 1, 1, 5, 0, 1, 6, 0, 1, 5, 5, 1, 0, 4, 6, 3, 2, 6, 6, 0, 4, 6, 5,
        2, 0, 4, 2, 4, 2, 2, 2, 3, 3, 3, 3,
    ];
    assert_eq!(
        picture_after(&moves),
        " 1 2 3 4 5 6 7\n|0|X|0|0|X|0|X|\n|X|0|X|X|X|0|0|\n|0|X|0|0|0|X|X|\n|X|0|0|X|X|X|0|\n|0|X|X|X|0|0|0|\n|0|X|0|0|X|X|X|\n--------------- X"
    );
}

#[test]
fn picture_has_a_line_for_each_row() {
    let text = picture_after(&[6]);
    let lines: Vec<&str> = text.split('\n').collect();
    assert_eq!(lines.len(), 8);
    assert_eq!(lines[0], " 1 2 3 4 5 6 7");
    for line in &lines[1..7] {
        assert_eq!(line.len(), 15);
        assert!(line.starts_with('|') && line.ends_with('|'));
    }
    assert_eq!(lines[6], "| | | | | | |X|");
    assert_eq!(lines[7], "--------------- 0");
}
