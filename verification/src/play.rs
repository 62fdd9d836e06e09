//! What the two players may and will do: which squares a player may eat,
//! what a line typed at the board asks for, and what the computer eats.

use vstd::prelude::*;
use crate::board::Chomp;
use crate::game::{before, first_winning, wins};
use crate::grid::{Grid, present, valid, width};
use crate::text::{move_in, parse_move};

verus! {

/// Whether `(r, c)` is the uneaten square of `g` that comes after every
/// other when the squares are read row by row.
pub open spec fn last_present(g: Grid, r: int, c: int) -> bool {
    &&& present(g, r, c)
    &&& forall|r2: int, c2: int| #[trigger] present(g, r2, c2) ==> !before(r, c, r2, c2)
}

/// The move that `asked` stands for on `g`: itself where it names an
/// uneaten square of `g`, none otherwise.
pub open spec fn accepted(g: Grid, asked: Option<(usize, usize)>) -> Option<(usize, usize)> {
    match asked {
        Some((r, c)) if present(g, r as int, c as int) => asked,
        _ => None,
    }
}

/// A position has at most one last uneaten square.
pub proof fn lemma_last_present_unique(g: Grid, r1: int, c1: int, r2: int, c2: int)
    requires
        last_present(g, r1, c1),
        last_present(g, r2, c2),
    ensures
        r1 == r2,
        c1 == c2,
{
}

/// In a valid position something is left exactly as long as the poison
/// square is, and a position that can be won is not over.
pub proof fn lemma_poison_goes_last(g: Grid)
    requires
        valid(g),
    ensures
        present(g, 0, 0) <==> exists|r: int, c: int| present(g, r, c),
        wins(g) ==> present(g, 0, 0),
{
}

impl Chomp {
    /// Whether `row` and `col` name an uneaten square of the board.
    pub fn allows(&self, row: usize, col: usize) -> (b: bool)
        ensures
            b == present(self@, row as int, col as int),
    {
        proof {
            use_type_invariant(self);
        }
        row < self.nrows() && col < self.ncols() && self.is_present(row, col)
    }

    /// Whether the game is over: the poison square has been eaten.
    pub fn is_over(&self) -> (b: bool)
        ensures
            b == !present(self@, 0, 0),
    {
        !self.allows(0, 0)
    }

    /// The move that a line typed by the human player asks for. The human
    /// supplies the move as a row and column (starting from 0) separated by a
    /// space, like this.
    ///
    /// ```text
    /// 2 3
    /// ```
    ///
    /// If the human makes a "bad" move (badly formatted or illegal), this
    /// function returns `None`. Otherwise it returns `Some` row and column
    /// coordinates of the human move.
    pub fn read_move(&self, line: &str) -> (res: Option<(usize, usize)>)
        ensures
            res == accepted(self@, move_in(line@)),
            res matches Some((row, col)) ==> move_in(line@) == res && present(
                self@,
                row as int,
                col as int,
            ),
    {
        match parse_move(line) {
            Some((row, col)) => {
                if self.allows(row, col) {
                    Some((row, col))
                } else {
                    None
                }
            },
            None => None,
        }
    }

    /// The last uneaten square of the last row that has one, or `None` once
    /// the game is over.
    pub fn last_square(&self) -> (res: Option<(usize, usize)>)
        ensures
            res is Some <==> present(self@, 0, 0),
            res matches Some((r, c)) ==> last_present(self@, r as int, c as int),
    {
        proof {
            use_type_invariant(self);
        }
        if self.is_over() {
            return None;
        }
        let nrows: usize = self.nrows();
        let ncols: usize = self.ncols();
        let mut row: usize = 0;
        while row + 1 < nrows && self.is_present(row + 1, 0)
            invariant
                self.wf(),
                nrows == self@.len(),
                ncols == width(self@),
                row < nrows,
                present(self@, row as int, 0),
            decreases nrows - row,
        {
            row += 1;
        }
        let mut col: usize = 0;
        while col + 1 < ncols && self.is_present(row, col + 1)
            invariant
                self.wf(),
                nrows == self@.len(),
                ncols == width(self@),
                row < nrows,
                col < ncols,
                present(self@, row as int, col as int),
            decreases ncols - col,
        {
            col += 1;
        }
        proof {
            assert forall|r2: int, c2: int| #[trigger] present(self@, r2, c2) implies !before(
                row as int,
                col as int,
                r2,
                c2,
            ) by {
                // A square further on would have one above or left of it at
                // which the walk went on.
                if r2 > row {
                    assert(present(self@, row + 1, 0));
                }
                if r2 == row && c2 > col {
                    assert(present(self@, row as int, col + 1));
                }
            }
        }
        Some((row, col))
    }

    /// The move the computer makes: the first winning move where there is
    /// one, else the last uneaten square of the last row that has one.
    /// `None` once the game is over.
    pub fn computer_move(&self) -> (res: Option<(usize, usize)>)
        ensures
            res is Some <==> present(self@, 0, 0),
            res matches Some((r, c)) ==> if wins(self@) {
                first_winning(self@, r as int, c as int)
            } else {
                last_present(self@, r as int, c as int)
            },
    {
        proof {
            use_type_invariant(self);
            lemma_poison_goes_last(self@);
        }
        match self.winning_move() {
            Some(m) => Some(m),
            None => self.last_square(),
        }
    }
}

} // verus!
