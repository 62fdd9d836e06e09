//! The rules of the game as predicates on grids: which moves the search
//! considers, which positions the player to move can win, and what the
//! search has to answer.

use vstd::prelude::*;
use crate::grid::{Grid, present, chomp, cells_left, lemma_chomp_decreases};

verus! {

/// Whether `(r, c)` is the poison square.
pub open spec fn poison(r: int, c: int) -> bool {
    r == 0 && c == 0
}

/// A move the search considers: an uneaten square other than the poison
/// square.
pub open spec fn candidate(g: Grid, r: int, c: int) -> bool {
    present(g, r, c) && !poison(r, c)
}

/// Whether `(r1, c1)` comes strictly before `(r2, c2)` when the squares are
/// read row by row, each row from its first column.
pub open spec fn before(r1: int, c1: int, r2: int, c2: int) -> bool {
    r1 < r2 || (r1 == r2 && c1 < c2)
}

/// Whether the player to move in `g` can force a win: some candidate move
/// leaves a position in which the opponent cannot.
pub open spec fn wins(g: Grid) -> bool
    decreases cells_left(g),
{
    exists|r: int, c: int|
        #[trigger] candidate(g, r, c) && {
            proof {
                lemma_chomp_decreases(g, r, c);
            }
            !wins(chomp(g, r, c))
        }
}

/// Whether eating at `(r, c)` wins for the player to move in `g`.
pub open spec fn winning(g: Grid, r: int, c: int) -> bool {
    candidate(g, r, c) && !wins(chomp(g, r, c))
}

/// Whether `(r, c)` is the winning move of `g` that comes before every other
/// winning move of `g`.
pub open spec fn first_winning(g: Grid, r: int, c: int) -> bool {
    &&& winning(g, r, c)
    &&& forall|r2: int, c2: int|
        #[trigger] candidate(g, r2, c2) && before(r2, c2, r, c) ==> wins(chomp(g, r2, c2))
}

/// Whether `found` is what the search has to answer on `g`: the first
/// winning move where `g` can be won, and nothing where it cannot.
pub open spec fn search_result(g: Grid, found: Option<(usize, usize)>) -> bool {
    match found {
        Some((r, c)) => first_winning(g, r as int, c as int),
        None => !wins(g),
    }
}

/// A position can be won exactly when it has a winning move.
pub proof fn lemma_wins_iff_winning_move(g: Grid)
    ensures
        wins(g) <==> exists|r: int, c: int| winning(g, r, c),
{
    if wins(g) {
        let (r, c) = choose|r: int, c: int| #[trigger] candidate(g, r, c) && !wins(chomp(g, r, c));
        assert(winning(g, r, c));
    }
}

/// A position has at most one first winning move.
pub proof fn lemma_first_winning_unique(g: Grid, r1: int, c1: int, r2: int, c2: int)
    requires
        first_winning(g, r1, c1),
        first_winning(g, r2, c2),
    ensures
        r1 == r2,
        c1 == c2,
{
}

/// The search is deterministic: two answers to the same position are the
/// same answer.
pub proof fn lemma_search_result_unique(
    g: Grid,
    first: Option<(usize, usize)>,
    second: Option<(usize, usize)>,
)
    requires
        search_result(g, first),
        search_result(g, second),
    ensures
        first == second,
{
    lemma_wins_iff_winning_move(g);
    if let (Some((r1, c1)), Some((r2, c2))) = (first, second) {
        lemma_first_winning_unique(g, r1 as int, c1 as int, r2 as int, c2 as int);
    }
}

/// Where nothing but the poison square is left, the player to move cannot
/// win and the search finds no move.
pub proof fn lemma_lone_poison_loses(g: Grid, found: Option<(usize, usize)>)
    requires
        forall|r: int, c: int| present(g, r, c) ==> poison(r, c),
        search_result(g, found),
    ensures
        !wins(g),
        found is None,
{
    assert forall|r: int, c: int| !#[trigger] candidate(g, r, c) by {}
}

/// After the move that the search answers, the opponent cannot win, and the
/// search on the position reached finds no move.
pub proof fn lemma_answer_beats_opponent(
    g: Grid,
    r: usize,
    c: usize,
    reply: Option<(usize, usize)>,
)
    requires
        search_result(g, Some((r, c))),
        search_result(chomp(g, r as int, c as int), reply),
    ensures
        !wins(chomp(g, r as int, c as int)),
        reply is None,
{
    lemma_wins_iff_winning_move(chomp(g, r as int, c as int));
}

} // verus!
