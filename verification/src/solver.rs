//! The search for a winning move.

use vstd::prelude::*;
use crate::board::Chomp;
use crate::game::{before, candidate, search_result, wins};
use crate::grid::{cells_left, chomp, lemma_chomp_decreases, present, width};

verus! {

impl Chomp {
    /// Returns `Some` winning move for this position as `(row, col)`.
    /// Returns `None` if there is no winning move in this position.
    ///
    /// # Strategy
    ///
    /// ```text
    /// winning-move(posn):
    ///     for each remaining row r
    ///         for each remaining column c in r
    ///             if r = 0 and c = 0
    ///                 continue
    ///             p ← copy of posn
    ///             chomp r, c from p
    ///             m ← winning-move(p)
    ///             if no winning move is returned
    ///                 return the move r, c
    ///    return no winning move
    /// ```
    ///
    /// The move returned is the first winning move in that order. A row is
    /// left at its first eaten square and the board at its first row that
    /// starts with one: in a valid position nothing uneaten lies beyond.
    pub fn winning_move(&self) -> (res: Option<(usize, usize)>)
        ensures
            search_result(self@, res),
            res is Some <==> wins(self@),
        decreases cells_left(self@),
    {
        proof {
            use_type_invariant(self);
        }
        let nrows: usize = self.nrows();
        let ncols: usize = self.ncols();
        let mut r: usize = 0;
        while r < nrows && self.is_present(r, 0)
            invariant
                self.wf(),
                nrows == self@.len(),
                ncols == width(self@),
                r <= nrows,
                forall|r2: int, c2: int|
                    #[trigger] candidate(self@, r2, c2) && r2 < r ==> wins(chomp(self@, r2, c2)),
            decreases nrows - r,
        {
            let mut c: usize = 0;
            while c < ncols && self.is_present(r, c)
                invariant
                    self.wf(),
                    nrows == self@.len(),
                    ncols == width(self@),
                    r < nrows,
                    c <= ncols,
                    forall|r2: int, c2: int|
                        #[trigger] candidate(self@, r2, c2) && before(r2, c2, r as int, c as int)
                            ==> wins(chomp(self@, r2, c2)),
                decreases ncols - c,
            {
                if r == 0 && c == 0 {
                    c += 1;
                    continue;
                }
                let mut p = self.clone();
                p.make_move(r, c);
                proof {
                    lemma_chomp_decreases(self@, r as int, c as int);
                }
                let m = p.winning_move();
                if m.is_none() {
                    return Some((r, c));
                }
                c += 1;
            }
            proof {
                assert forall|r2: int, c2: int| #[trigger]
                    candidate(self@, r2, c2) && r2 < r + 1 implies wins(chomp(self@, r2, c2)) by {
                    if r2 == r && c2 >= c {
                        // Then the square at which the row was left would be
                        // uneaten too.
                        assert(present(self@, r as int, c as int));
                    }
                }
            }
            r += 1;
        }
        proof {
            assert forall|r2: int, c2: int| #[trigger] candidate(self@, r2, c2) implies wins(
                chomp(self@, r2, c2),
            ) by {
                if r2 >= r {
                    // Then the square at which the board was left would be
                    // uneaten too.
                    assert(present(self@, r as int, 0));
                }
            }
        }
        None
    }
}

} // verus!
