use chomp_ai::{Chomp, SizeError, MAX_COLS, MAX_ROWS};

/// The squares of `board`, row by row.
fn squares(board: &Chomp) -> Vec<Vec<bool>> {
    let mut rows = Vec::new();
    for r in 0..board.nrows() {
        let mut row = Vec::new();
        for c in 0..board.ncols() {
            row.push(board.is_present(r, c));
        }
        rows.push(row);
    }
    rows
}

#[test]
fn limits_are_four_by_five() {
    assert_eq!(MAX_ROWS, 4);
    assert_eq!(MAX_COLS, 5);
}

#[test]
fn new_board_is_full_at_every_size() {
    for nrows in 1..=MAX_ROWS {
        for ncols in 1..=MAX_COLS {
            let board = Chomp::new(nrows, ncols);
            assert_eq!(board.nrows(), nrows);
            assert_eq!(board.ncols(), ncols);
            assert!(board.is_present(0, 0));
            assert_eq!(squares(&board), vec![vec![true; ncols]; nrows]);
        }
    }
}

#[test]
fn try_new_accepts_what_new_accepts() {
    for nrows in 1..=MAX_ROWS {
        for ncols in 1..=MAX_COLS {
            let board = Chomp::try_new(nrows, ncols).unwrap();
            assert_eq!(squares(&board), squares(&Chomp::new(nrows, ncols)));
        }
    }
}

#[test]
fn try_new_rejects_no_rows() {
    assert_eq!(Chomp::try_new(0, 3).err(), Some(SizeError::NoRows));
}

#[test]
fn try_new_rejects_no_columns() {
    assert_eq!(Chomp::try_new(3, 0).err(), Some(SizeError::NoColumns));
}

#[test]
fn try_new_rejects_too_many_rows() {
    assert_eq!(Chomp::try_new(5, 3).err(), Some(SizeError::TooManyRows));
    assert_eq!(Chomp::try_new(usize::MAX, 1).err(), Some(SizeError::TooManyRows));
}

#[test]
fn try_new_rejects_too_many_columns() {
    assert_eq!(Chomp::try_new(3, 6).err(), Some(SizeError::TooManyColumns));
    assert_eq!(Chomp::try_new(4, usize::MAX).err(), Some(SizeError::TooManyColumns));
}

#[test]
fn try_new_looks_at_rows_first_and_at_emptiness_before_excess() {
    assert_eq!(Chomp::try_new(0, 0).err(), Some(SizeError::NoRows));
    assert_eq!(Chomp::try_new(0, 6).err(), Some(SizeError::NoRows));
    assert_eq!(Chomp::try_new(5, 0).err(), Some(SizeError::NoColumns));
    assert_eq!(Chomp::try_new(5, 6).err(), Some(SizeError::TooManyRows));
}

#[test]
fn make_move_eats_the_rectangle_and_nothing_else() {
    let mut board = Chomp::new(4, 5);
    board.make_move(2, 3);
    assert_eq!(
        squares(&board),
        vec![
            vec![true, true, true, true, true],
            vec![true, true, true, true, true],
            vec![true, true, true, false, false],
            vec![true, true, true, false, false],
        ]
    );
    board.make_move(1, 4);
    assert_eq!(
        squares(&board),
        vec![
            vec![true, true, true, true, true],
            vec![true, true, true, true, false],
            vec![true, true, true, false, false],
            vec![true, true, true, false, false],
        ]
    );
    board.make_move(3, 1);
    assert_eq!(
        squares(&board),
        vec![
            vec![true, true, true, true, true],
            vec![true, true, true, true, false],
            vec![true, true, true, false, false],
            vec![true, false, false, false, false],
        ]
    );
}

#[test]
fn make_move_is_exact_at_every_square_of_every_board() {
    for nrows in 1..=MAX_ROWS {
        for ncols in 1..=MAX_COLS {
            for row in 0..nrows {
                for col in 0..ncols {
                    let mut board = Chomp::new(nrows, ncols);
                    board.make_move(nrows - 1, ncols - 1);
                    let before = squares(&board);
                    board.make_move(row, col);
                    for r in 0..nrows {
                        for c in 0..ncols {
                            let eaten = r >= row && c >= col;
                            assert_eq!(board.is_present(r, c), before[r][c] && !eaten);
                        }
                    }
                }
            }
        }
    }
}

#[test]
fn make_move_at_the_poison_square_eats_everything() {
    let mut board = Chomp::new(3, 4);
    board.make_move(0, 0);
    assert_eq!(squares(&board), vec![vec![false; 4]; 3]);
}

#[test]
fn make_move_at_an_eaten_square_changes_nothing() {
    let mut board = Chomp::new(3, 3);
    board.make_move(1, 1);
    let before = squares(&board);
    board.make_move(2, 2);
    assert_eq!(squares(&board), before);
    board.make_move(1, 2);
    assert_eq!(squares(&board), before);
}

#[test]
fn make_move_off_the_board_changes_nothing() {
    let mut board = Chomp::new(2, 3);
    board.make_move(2, 0);
    board.make_move(0, 3);
    board.make_move(usize::MAX, usize::MAX);
    assert_eq!(squares(&board), vec![vec![true; 3]; 2]);
}

#[test]
fn a_copy_is_not_touched_by_a_later_move() {
    let mut board = Chomp::new(2, 2);
    let copy = board.clone();
    board.make_move(0, 1);
    assert_eq!(squares(&copy), vec![vec![true, true], vec![true, true]]);
    assert_eq!(squares(&board), vec![vec![true, false], vec![true, false]]);
}
