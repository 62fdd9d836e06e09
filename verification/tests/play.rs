use chomp_ai::Chomp;

#[test]
fn render_draws_rows_of_hashes_and_dots() {
    let mut board = Chomp::new(4, 5);
    board.make_move(2, 4);
    board.make_move(3, 1);
    assert_eq!(board.render(), "#####\n#####\n####.\n#....\n");
}

#[test]
fn render_of_small_and_eaten_boards() {
    assert_eq!(Chomp::new(1, 1).render(), "#\n");
    assert_eq!(Chomp::new(2, 3).render(), "###\n###\n");
    let mut board = Chomp::new(2, 3);
    board.make_move(0, 0);
    assert_eq!(board.render(), "...\n...\n");
    let mut board = Chomp::new(3, 1);
    board.make_move(1, 0);
    assert_eq!(board.render(), "#\n.\n.\n");
}

#[test]
fn allows_only_uneaten_squares_of_the_board() {
    let mut board = Chomp::new(2, 3);
    board.make_move(1, 1);
    assert!(board.allows(0, 0));
    assert!(board.allows(0, 2));
    assert!(board.allows(1, 0));
    assert!(!board.allows(1, 1));
    assert!(!board.allows(1, 2));
    assert!(!board.allows(2, 0));
    assert!(!board.allows(0, 3));
    assert!(!board.allows(usize::MAX, 0));
    assert!(!board.allows(0, usize::MAX));
}

#[test]
fn is_over_once_the_poison_square_is_eaten() {
    let mut board = Chomp::new(2, 2);
    assert!(!board.is_over());
    board.make_move(0, 1);
    assert!(!board.is_over());
    board.make_move(1, 0);
    assert!(!board.is_over());
    board.make_move(0, 0);
    assert!(board.is_over());
}

#[test]
fn read_move_accepts_an_uneaten_square() {
    let mut board = Chomp::new(3, 4);
    board.make_move(2, 2);
    assert_eq!(board.read_move("2 1"), Some((2, 1)));
    assert_eq!(board.read_move("1 3"), Some((1, 3)));
    assert_eq!(board.read_move("0 0"), Some((0, 0)));
    assert_eq!(board.read_move(" 2 1\n"), Some((2, 1)));
    assert_eq!(board.read_move("2  1"), Some((2, 1)));
}

#[test]
fn read_move_takes_the_row_first() {
    let board = Chomp::new(2, 5);
    assert_eq!(board.read_move("1 4"), Some((1, 4)));
    assert_eq!(board.read_move("4 1"), None);
}

#[test]
fn read_move_rejects_eaten_squares_and_squares_off_the_board() {
    let mut board = Chomp::new(3, 4);
    board.make_move(2, 2);
    assert_eq!(board.read_move("2 2"), None);
    assert_eq!(board.read_move("2 3"), None);
    assert_eq!(board.read_move("3 0"), None);
    assert_eq!(board.read_move("0 4"), None);
    assert_eq!(board.read_move("18446744073709551615 0"), None);
    board.make_move(0, 0);
    assert_eq!(board.read_move("0 0"), None);
}

#[test]
fn read_move_rejects_lines_without_two_numbers() {
    let board = Chomp::new(3, 4);
    assert_eq!(board.read_move(""), None);
    assert_eq!(board.read_move("1"), None);
    assert_eq!(board.read_move("1,1"), None);
    assert_eq!(board.read_move("1\t1"), None);
    assert_eq!(board.read_move("a b"), None);
    assert_eq!(board.read_move("-1 1"), None);
    assert_eq!(board.read_move("-1 0"), None);
    assert_eq!(board.read_move("3"), None);
}

#[test]
fn read_move_rejects_lines_with_more_than_two_numbers() {
    let board = Chomp::new(3, 4);
    assert_eq!(board.read_move("1 x 2"), None);
    assert_eq!(board.read_move("2 1 9"), None);
    assert_eq!(board.read_move("x 1 2"), None);
    assert_eq!(board.read_move("1 2 x"), None);
    assert_eq!(board.read_move("1 2 3"), None);
}

#[test]
fn last_square_is_the_end_of_the_last_row_left() {
    let mut board = Chomp::new(4, 5);
    assert_eq!(board.last_square(), Some((3, 4)));
    board.make_move(3, 1);
    assert_eq!(board.last_square(), Some((3, 0)));
    board.make_move(3, 0);
    assert_eq!(board.last_square(), Some((2, 4)));
    board.make_move(1, 2);
    assert_eq!(board.last_square(), Some((2, 1)));
    board.make_move(0, 1);
    assert_eq!(board.last_square(), Some((2, 0)));
    board.make_move(1, 0);
    assert_eq!(board.last_square(), Some((0, 0)));
    board.make_move(0, 0);
    assert_eq!(board.last_square(), None);
}

#[test]
fn last_square_takes_exactly_one_square_away() {
    let mut board = Chomp::new(3, 3);
    board.make_move(1, 2);
    let before = board.render();
    let (row, col) = board.last_square().unwrap();
    board.make_move(row, col);
    let after = board.render();
    let gone = before.chars().zip(after.chars()).filter(|(a, b)| a != b).count();
    assert_eq!(gone, 1);
}

#[test]
fn computer_move_is_the_winning_move_where_there_is_one() {
    for nrows in 1..=4 {
        for ncols in 1..=5 {
            let board = Chomp::new(nrows, ncols);
            if let Some(m) = board.winning_move() {
                assert_eq!(board.computer_move(), Some(m));
            }
        }
    }
    assert_eq!(Chomp::new(2, 2).computer_move(), Some((1, 1)));
}

#[test]
fn computer_move_falls_back_to_the_last_square() {
    let mut board = Chomp::new(2, 2);
    board.make_move(1, 1);
    assert_eq!(board.winning_move(), None);
    assert_eq!(board.computer_move(), Some((1, 0)));
    let mut board = Chomp::new(2, 3);
    board.make_move(1, 2);
    assert_eq!(board.winning_move(), None);
    assert_eq!(board.computer_move(), Some((1, 1)));
}

#[test]
fn computer_move_eats_the_poison_square_when_nothing_else_is_left() {
    let board = Chomp::new(1, 1);
    assert_eq!(board.computer_move(), Some((0, 0)));
    let mut board = Chomp::new(3, 3);
    board.make_move(0, 1);
    board.make_move(1, 0);
    assert_eq!(board.computer_move(), Some((0, 0)));
}

#[test]
fn computer_move_is_none_once_the_game_is_over() {
    let mut board = Chomp::new(2, 2);
    board.make_move(0, 0);
    assert_eq!(board.computer_move(), None);
}

#[test]
fn computer_wins_every_game_it_starts_on_a_board_with_a_winning_move() {
    // The computer moves first on a full board; the opponent always answers
    // with the last square. The opponent ends up eating the poison square.
    for nrows in 1..=4 {
        for ncols in 1..=5 {
            if nrows == 1 && ncols == 1 {
                continue;
            }
            let mut board = Chomp::new(nrows, ncols);
            loop {
                let (row, col) = board.computer_move().unwrap();
                assert_eq!(board.winning_move(), Some((row, col)));
                board.make_move(row, col);
                assert!(!board.is_over());
                let (row, col) = board.last_square().unwrap();
                board.make_move(row, col);
                if board.is_over() {
                    break;
                }
            }
        }
    }
}
