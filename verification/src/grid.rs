//! The mathematical model of a Chomp position: a grid of booleans, one per
//! square, `true` while the square has not been eaten.

use vstd::prelude::*;

verus! {

/// Largest number of rows a board may have.
pub const MAX_ROWS: usize = 4;

/// Largest number of columns a board may have.
pub const MAX_COLS: usize = 5;

/// A position as a sequence of rows, each a sequence of squares.
pub type Grid = Seq<Seq<bool>>;

/// Whether `(r, c)` names a square of `g` that has not been eaten.
pub open spec fn present(g: Grid, r: int, c: int) -> bool {
    0 <= r < g.len() && 0 <= c < g[r].len() && g[r][c]
}

/// The untouched board of `rows` by `cols` squares.
pub open spec fn full(rows: nat, cols: nat) -> Grid {
    Seq::new(rows, |r: int| Seq::new(cols, |c: int| true))
}

/// The position reached from `g` by eating at `(row, col)`: every square at
/// or below `row` and at or right of `col` is gone, every other square is as
/// it was.
pub open spec fn chomp(g: Grid, row: int, col: int) -> Grid {
    Seq::new(g.len(), |r: int| Seq::new(g[r].len(), |c: int| g[r][c] && !(r >= row && c >= col)))
}

/// The number of columns of `g`.
pub open spec fn width(g: Grid) -> nat {
    if g.len() > 0 {
        g[0].len()
    } else {
        0
    }
}

/// A position that play can reach: a rectangle within the size limits in
/// which every square above or to the left of an uneaten square is uneaten.
pub open spec fn valid(g: Grid) -> bool {
    &&& 1 <= g.len() <= MAX_ROWS
    &&& 1 <= width(g) <= MAX_COLS
    &&& forall|r: int| 0 <= r < g.len() ==> (#[trigger] g[r]).len() == width(g)
    &&& forall|r: int, c: int, r2: int, c2: int|
        #![trigger present(g, r, c), present(g, r2, c2)]
        present(g, r, c) && 0 <= r2 <= r && 0 <= c2 <= c ==> present(g, r2, c2)
}

/// The untouched board is a valid position.
pub proof fn lemma_full_valid(rows: nat, cols: nat)
    requires
        1 <= rows <= MAX_ROWS,
        1 <= cols <= MAX_COLS,
    ensures
        valid(full(rows, cols)),
        full(rows, cols).len() == rows,
        width(full(rows, cols)) == cols,
        forall|r: int, c: int| 0 <= r < rows && 0 <= c < cols ==> present(full(rows, cols), r, c),
{
}

/// Eating is exact: a square is left after eating at `(row, col)` exactly
/// when it was there before and lies above `row` or left of `col`.
pub proof fn lemma_chomp_exact(g: Grid, row: int, col: int)
    ensures
        forall|r: int, c: int| #[trigger]
            present(chomp(g, row, col), r, c) <==> present(g, r, c) && (r < row || c < col),
{
}

/// Eating at any square, present or not, leaves a valid position valid.
pub proof fn lemma_chomp_valid(g: Grid, row: int, col: int)
    requires
        valid(g),
    ensures
        valid(chomp(g, row, col)),
        chomp(g, row, col).len() == g.len(),
        width(chomp(g, row, col)) == width(g),
{
    let h = chomp(g, row, col);
    assert forall|r: int, c: int, r2: int, c2: int|
        present(h, r, c) && 0 <= r2 <= r && 0 <= c2 <= c implies present(h, r2, c2) by {
        assert(present(g, r, c));
        assert(present(g, r2, c2));
    }
}

/// The number of uneaten squares among the first `n` squares of `row`.
pub open spec fn row_count(row: Seq<bool>, n: int) -> nat
    decreases n,
{
    if n <= 0 {
        0
    } else {
        row_count(row, n - 1) + if row[n - 1] {
            1nat
        } else {
            0nat
        }
    }
}

/// The number of uneaten squares in the first `n` rows of `g`.
pub open spec fn rows_count(g: Grid, n: int) -> nat
    decreases n,
{
    if n <= 0 {
        0
    } else {
        rows_count(g, n - 1) + row_count(g[n - 1], g[n - 1].len() as int)
    }
}

/// The number of uneaten squares of `g`.
pub open spec fn cells_left(g: Grid) -> nat {
    rows_count(g, g.len() as int)
}

/// Whether `h` has the shape of `g` and no square that `g` lacks.
pub open spec fn within(h: Grid, g: Grid) -> bool {
    &&& h.len() == g.len()
    &&& forall|r: int| 0 <= r < g.len() ==> (#[trigger] h[r]).len() == g[r].len()
    &&& forall|r: int, c: int| #[trigger] present(h, r, c) ==> present(g, r, c)
}

/// A row that lost squares of another and gained none counts no more than
/// it, and less where it lost one.
proof fn lemma_row_count_within(a: Seq<bool>, b: Seq<bool>, n: int)
    requires
        0 <= n <= a.len() == b.len(),
        forall|c: int| 0 <= c < n && #[trigger] a[c] ==> b[c],
    ensures
        row_count(a, n) <= row_count(b, n),
        forall|c: int| 0 <= c < n && b[c] && !a[c] ==> row_count(a, n) < row_count(b, n),
    decreases n,
{
    if n > 0 {
        lemma_row_count_within(a, b, n - 1);
    }
}

/// The same of the first `n` rows of two grids.
proof fn lemma_rows_count_within(h: Grid, g: Grid, n: int)
    requires
        within(h, g),
        0 <= n <= g.len(),
    ensures
        rows_count(h, n) <= rows_count(g, n),
        forall|r: int, c: int|
            0 <= r < n && present(g, r, c) && !present(h, r, c) ==> rows_count(h, n) < rows_count(
                g,
                n,
            ),
    decreases n,
{
    if n > 0 {
        lemma_rows_count_within(h, g, n - 1);
        let a = h[n - 1];
        let b = g[n - 1];
        assert forall|c: int| 0 <= c < a.len() && #[trigger] a[c] implies b[c] by {
            assert(present(h, n - 1, c));
        }
        lemma_row_count_within(a, b, a.len() as int);
    }
}

/// A position that lost a square of `g` and gained none has fewer squares
/// left than `g`.
pub proof fn lemma_fewer_cells(h: Grid, g: Grid, r: int, c: int)
    requires
        within(h, g),
        present(g, r, c),
        !present(h, r, c),
    ensures
        cells_left(h) < cells_left(g),
{
    lemma_rows_count_within(h, g, g.len() as int);
}

/// Eating an uneaten square leaves fewer squares than before.
pub proof fn lemma_chomp_decreases(g: Grid, row: int, col: int)
    requires
        present(g, row, col),
    ensures
        cells_left(chomp(g, row, col)) < cells_left(g),
{
    lemma_fewer_cells(chomp(g, row, col), g, row, col);
}

} // verus!
