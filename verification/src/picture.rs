//! The board as text.

use vstd::prelude::*;
use vstd::string::StringExecFns;
use crate::board::Chomp;
use crate::grid::{Grid, width};

verus! {

/// One row as text: `#` for an uneaten square, `.` for an eaten one.
pub open spec fn row_text(row: Seq<bool>) -> Seq<char> {
    Seq::new(
        row.len(),
        |c: int|
            if row[c] {
                '#'
            } else {
                '.'
            },
    )
}

/// The first `n` rows of `g` as text, each row followed by a line feed.
pub open spec fn rows_text(g: Grid, n: int) -> Seq<char>
    decreases n,
{
    if n <= 0 {
        Seq::empty()
    } else {
        rows_text(g, n - 1) + row_text(g[n - 1]) + seq!['\n']
    }
}

/// The whole of `g` as text, row by row from the first.
pub open spec fn picture(g: Grid) -> Seq<char> {
    rows_text(g, g.len() as int)
}

impl Chomp {
    /// The board as text, in this format:
    ///
    /// ```text
    /// #####
    /// #####
    /// ####.
    /// #....
    /// ```
    pub fn render(&self) -> (text: String)
        ensures
            text@ == picture(self@),
    {
        proof {
            use_type_invariant(self);
        }
        let nrows: usize = self.nrows();
        let ncols: usize = self.ncols();
        let mut text = String::new();
        let mut row: usize = 0;
        while row < nrows
            invariant
                nrows == self@.len(),
                ncols == width(self@),
                self.wf(),
                row <= nrows,
                text@ == rows_text(self@, row as int),
            decreases nrows - row,
        {
            let ghost done = text@;
            let mut col: usize = 0;
            while col < ncols
                invariant
                    nrows == self@.len(),
                    ncols == width(self@),
                    self.wf(),
                    row < nrows,
                    col <= ncols,
                    text@ == done + row_text(self@[row as int]).subrange(0, col as int),
                decreases ncols - col,
            {
                proof {
                    reveal_strlit("#");
                    reveal_strlit(".");
                }
                if self.is_present(row, col) {
                    text.append("#");
                } else {
                    text.append(".");
                }
                col += 1;
            }
            proof {
                reveal_strlit("\n");
            }
            text.append("\n");
            row += 1;
        }
        text
    }
}

} // verus!
