//! The board: a position held in a fixed-size array, with the chomp move.

use vstd::prelude::*;
use crate::grid::{
    Grid, MAX_COLS, MAX_ROWS, chomp, full, lemma_chomp_exact, lemma_chomp_valid, lemma_full_valid,
    present, valid, width,
};

verus! {

/// Why a board of a requested size cannot be made.
#[derive(Debug, Clone, Copy, PartialEq, Eq)]
pub enum SizeError {
    /// The board would have no rows.
    NoRows,
    /// The board would have no columns.
    NoColumns,
    /// The board would have more than `MAX_ROWS` rows.
    TooManyRows,
    /// The board would have more than `MAX_COLS` columns.
    TooManyColumns,
}

/// The error that a request for `nrows` by `ncols` squares meets, if any.
/// The number of rows is looked at first, and emptiness before excess.
pub open spec fn size_error(nrows: int, ncols: int) -> Option<SizeError> {
    if nrows <= 0 {
        Some(SizeError::NoRows)
    } else if ncols <= 0 {
        Some(SizeError::NoColumns)
    } else if nrows > MAX_ROWS {
        Some(SizeError::TooManyRows)
    } else if ncols > MAX_COLS {
        Some(SizeError::TooManyColumns)
    } else {
        None
    }
}

/// A Chomp board. Its view is the grid of its squares; every board is a
/// valid position.
#[derive(Debug, Clone, Copy)]
pub struct Chomp {
    /// The number of rows for this game.
    nrows: usize,
    /// The number of columns for this game.
    ncols: usize,
    /// The squares. `true` is an uneaten square, `false` is an eaten
    /// square. Squares beyond `nrows` or `ncols` are never looked at.
    board: [[bool; MAX_COLS]; MAX_ROWS],
}

impl View for Chomp {
    type V = Grid;

    closed spec fn view(&self) -> Grid {
        Seq::new(
            self.nrows as nat,
            |r: int| Seq::new(self.ncols as nat, |c: int| self.board[r][c]),
        )
    }
}

impl Chomp {
    /// Every board is a valid position.
    #[verifier::type_invariant]
    pub open spec fn wf(&self) -> bool {
        valid(self@)
    }

    /// Make a new Chomp board with the given size for this game, every
    /// square uneaten.
    pub fn new(nrows: usize, ncols: usize) -> (b: Self)
        requires
            0 < nrows <= MAX_ROWS,
            0 < ncols <= MAX_COLS,
        ensures
            b@ == full(nrows as nat, ncols as nat),
            forall|r: int, c: int| #[trigger]
                present(b@, r, c) <==> 0 <= r < nrows && 0 <= c < ncols,
    {
        let b = Chomp { nrows: nrows, ncols: ncols, board: [[true; MAX_COLS]; MAX_ROWS] };
        proof {
            lemma_full_valid(nrows as nat, ncols as nat);
            assert(b@ =~~= full(nrows as nat, ncols as nat));
        }
        b
    }

    /// Make a new Chomp board with the given size if the size is one that a
    /// board can have, and say what is wrong with it otherwise.
    pub fn try_new(nrows: usize, ncols: usize) -> (res: Result<Self, SizeError>)
        ensures
            match res {
                Ok(b) => size_error(nrows as int, ncols as int) is None && b@ == full(
                    nrows as nat,
                    ncols as nat,
                ),
                Err(e) => size_error(nrows as int, ncols as int) == Some(e),
            },
    {
        if nrows == 0 {
            Err(SizeError::NoRows)
        } else if ncols == 0 {
            Err(SizeError::NoColumns)
        } else if nrows > MAX_ROWS {
            Err(SizeError::TooManyRows)
        } else if ncols > MAX_COLS {
            Err(SizeError::TooManyColumns)
        } else {
            Ok(Chomp::new(nrows, ncols))
        }
    }

    /// The number of rows for this game.
    pub fn nrows(&self) -> (n: usize)
        ensures
            n == self@.len(),
            1 <= n <= MAX_ROWS,
    {
        proof {
            use_type_invariant(self);
        }
        self.nrows
    }

    /// The number of columns for this game.
    pub fn ncols(&self) -> (n: usize)
        ensures
            n == width(self@),
            1 <= n <= MAX_COLS,
    {
        proof {
            use_type_invariant(self);
        }
        self.ncols
    }

    /// Whether the square at `row` and `col` is uneaten.
    pub fn is_present(&self, row: usize, col: usize) -> (b: bool)
        requires
            row < self@.len(),
            col < width(self@),
        ensures
            b == self@[row as int][col as int],
    {
        proof {
            use_type_invariant(self);
        }
        self.board[row][col]
    }

    /// Make a move on the current board, "eating" all cells
    /// below `row` and to the right of `col` inclusive.
    pub fn make_move(&mut self, row: usize, col: usize)
        ensures
            final(self)@ == chomp(old(self)@, row as int, col as int),
            forall|r: int, c: int| #[trigger]
                present(final(self)@, r, c) <==> present(old(self)@, r, c) && (r < row || c < col),
    {
        proof {
            use_type_invariant(&*self);
            lemma_chomp_exact(self@, row as int, col as int);
        }
        let nrows: usize = self.nrows;
        let ncols: usize = self.ncols;
        let ghost before = self.board;
        // The squares are eaten on a copy: half-way through, the board is no
        // valid position.
        let mut board = self.board;
        let mut rows: usize = row;
        while rows < nrows
            invariant
                nrows <= MAX_ROWS,
                ncols <= MAX_COLS,
                row <= rows,
                forall|i: int, j: int|
                    0 <= i < MAX_ROWS && 0 <= j < MAX_COLS ==> #[trigger] board[i][j] == (
                    before[i][j] && !(row <= i < rows && col <= j < ncols)),
            decreases nrows - rows,
        {
            let mut columns: usize = col;
            while columns < ncols
                invariant
                    rows < nrows <= MAX_ROWS,
                    ncols <= MAX_COLS,
                    row <= rows,
                    col <= columns,
                    forall|i: int, j: int|
                        0 <= i < MAX_ROWS && 0 <= j < MAX_COLS ==> #[trigger] board[i][j] == (
                        before[i][j] && !(row <= i < rows && col <= j < ncols) && !(i == rows
                            && col <= j < columns && j < ncols)),
                decreases ncols - columns,
            {
                board[rows][columns] = false;
                columns += 1;
            }
            rows += 1;
        }
        proof {
            let ghost next = Chomp { nrows, ncols, board };
            lemma_chomp_valid(self@, row as int, col as int);
            assert(next@ =~~= chomp(self@, row as int, col as int));
        }
        self.board = board;
    }
}

} // verus!
