//! The search for a solution: depth first, the most constrained cell first,
//! its candidates in ascending order.

use crate::board::{
    entry_of, frontier_upto, lemma_cell_candidates, lemma_cells_determined, SudokuBoard,
};
use crate::cell::lemma_candidate_list;
use crate::grid::{
    at, can_place, candidate, empties, full, in_grid, is_grid, placed, solvable, solves, Grid,
};
use crate::grid::{
    lemma_empties_placed, lemma_forward_check_sound, lemma_full_solves_itself, lemma_placed,
    lemma_placed_cleared, lemma_solution_takes_candidate, lemma_solves_placed,
};
use crate::possible_cell_values::{lemma_some_mrv, mrv_index, Entry, PossibleCellValues};
use crate::results::{AddResult, SolveResult};
use crate::search::{
    can_place_some, lemma_empty_frontier, lemma_empty_frontier_has_no_next,
    lemma_frontier_of_full, lemma_mrv_is_next, lemma_next_cell, lemma_search_of_full,
    lemma_try_skips, search, search_from, try_from,
};
use crate::value::{lemma_digit_of_digit, Value};
use vstd::prelude::*;

verus! {

/// The frontier that a search without success leaves on `board`: listed
/// anew where a digit could be placed in the cell that was taken, and
/// without that cell where none could.
pub open spec fn frontier_after_failure(board: SudokuBoard) -> Seq<Entry> {
    let f = board.frontier();
    if f.len() == 0 {
        f
    } else if can_place_some(board@, f[mrv_index(f)].row - 1, f[mrv_index(f)].col - 1) {
        frontier_upto(board.board, 81)
    } else {
        f.remove(mrv_index(f))
    }
}

/// A board whose frontier was listed anew and is empty is full.
pub proof fn lemma_fresh_and_empty_is_full(board: SudokuBoard)
    requires
        board.wf(),
        board.fresh(),
        board.frontier().len() == 0,
    ensures
        full(board@),
{
    lemma_empty_frontier(board.board, 81);
    board.lemma_view();
    assert forall|r: int, c: int| in_grid(r, c) implies #[trigger] at(board@, r, c)
        != Value::Empty by {
        if at(board@, r, c) == Value::Empty {
            let k = r * 9 + c;
            assert(k / 9 == r && k % 9 == c);
            assert(entry_of(board.board, k).values.len() == 0);
            lemma_cell_candidates(board.board, r, c);
        }
    }
}

/// On a board whose frontier was listed anew, the search that starts from
/// the frontier is the search of the grid.
pub proof fn lemma_search_from_fresh(board: SudokuBoard)
    requires
        board.wf(),
        board.fresh(),
    ensures
        search_from(board@, board.frontier()) == search(board@),
{
    let f = board.frontier();
    if f.len() > 0 {
        let i = mrv_index(f);
        lemma_some_mrv(f);
        lemma_mrv_is_next(board.board, i);
        lemma_next_cell(board@, f[i].row - 1, f[i].col - 1);
    } else {
        lemma_empty_frontier_has_no_next(board.board);
    }
}

/// Searches for a solution of the board and leaves it on the board.
///
/// The search takes the cell that `pop_possible_value` hands out, tries its
/// candidates in ascending order, and for each that can be placed goes on
/// with the next cell; a candidate that leads nowhere is removed again.
///
/// `Solved` leaves the solution that `search_from` names, which keeps every
/// value the board had. `Failed` leaves the cells as they were; the board
/// then has no solution, unless the frontier was empty without having been
/// listed anew.
pub fn solve(board: &mut SudokuBoard) -> (res: SolveResult)
    requires
        old(board).wf(),
    ensures
        final(board).wf(),
        final(board).indicator == old(board).indicator,
        forall|r: int, c: int|
            in_grid(r, c) ==> (#[trigger] final(board).cell(r, c)).mutable == old(board).cell(
                r,
                c,
            ).mutable,
        match search_from(old(board)@, old(board).frontier()) {
            Some(s) => res is Solved && final(board)@ == s,
            None => res is Failed,
        },
        old(board).fresh() ==> search_from(old(board)@, old(board).frontier()) == search(
            old(board)@,
        ),
        old(board).fresh() ==> (res is Solved <==> solvable(old(board)@)),
        res is Solved ==> solves(final(board)@, old(board)@) && final(board).fresh(),
        res is Failed ==> {
            &&& final(board).board == old(board).board
            &&& final(board).frontier() == frontier_after_failure(*old(board))
        },
        res is Failed && old(board).frontier().len() > 0 ==> !solvable(old(board)@),
    decreases empties(old(board)@, 81),
{
    let ghost g = board@;
    let ghost f = board.frontier();
    let ghost target = search_from(g, f);
    proof {
        board.lemma_view();
        if board.fresh() {
            lemma_search_from_fresh(*board);
        }
    }
    match board.pop_possible_value() {
        Some(PossibleCellValues { row, col, values }) => {
            let ghost r: int = row - 1;
            let ghost c: int = col - 1;
            let ghost popped = board.frontier();
            proof {
                let e = f[mrv_index(f)];
                assert(e.row == row && e.col == col && e.values == values@);
                assert(in_grid(r, c));
                lemma_candidate_list(board.board@[r]@[c]);
                lemma_cell_candidates(board.board, r, c);
                assert(board.board@[r]@[c].value == Value::Empty);
                assert(at(g, r, c) == Value::Empty);
            }
            let ghost mut lo: int = 1;
            let ghost mut placed_one: bool = false;
            let mut k: usize = 0;
            while k < values.len()
                invariant
                    k <= values@.len(),
                    board.wf(),
                    board.board == old(board).board,
                    board.indicator == old(board).indicator,
                    g == old(board)@,
                    g == board@,
                    is_grid(g),
                    r == row - 1,
                    c == col - 1,
                    in_grid(r, c),
                    at(g, r, c) == Value::Empty,
                    values@ == board.board@[r]@[c].candidate_list(),
                    forall|j: int| 0 <= j < values@.len() ==> #[trigger] values@[j] != Value::Empty,
                    forall|v: Value| values@.contains(v) <==> #[trigger] candidate(g, r, c, v),
                    forall|i: int, j: int|
                        0 <= i < j < values@.len() ==> values@[i].digit() < values@[j].digit(),
                    forall|j: int, s: Grid|
                        0 <= j < k && #[trigger] solves(s, g) ==> at(s, r, c) != #[trigger] values@[j],
                    1 <= lo <= 10,
                    k == 0 ==> lo == 1,
                    k > 0 ==> lo == values@[k - 1].digit() + 1,
                    target == search_from(old(board)@, old(board).frontier()),
                    target == try_from(g, r, c, lo),
                    old(board).fresh() ==> target == search(g),
                    placed_one ==> can_place_some(g, r, c) && board.fresh(),
                    !placed_one ==> board.frontier() == popped && forall|j: int|
                        0 <= j < k ==> !can_place(g, r, c, #[trigger] values@[j]),
                decreases values@.len() - k,
            {
                let value = values[k];
                let ghost d: int = value.digit() as int;
                assert(values@.contains(value));
                assert(candidate(g, r, c, value));
                proof {
                    lemma_digit_of_digit(value, d);
                    assert forall|x: int| lo <= x < d implies !candidate(
                        g,
                        r,
                        c,
                        #[trigger] Value::of_digit(x),
                    ) by {
                        let w = Value::of_digit(x);
                        lemma_digit_of_digit(w, x);
                        if candidate(g, r, c, w) {
                            assert(values@.contains(w));
                            let j = choose|j: int| 0 <= j < values@.len() && values@[j] == w;
                            if j < k {
                                if j < k - 1 {
                                    assert(values@[j].digit() < values@[k - 1].digit());
                                }
                            } else if j > k {
                                assert(values@[k as int].digit() < values@[j].digit());
                            }
                        }
                    }
                    lemma_try_skips(g, r, c, lo, d);
                    assert(Value::of_digit(d) == value);
                }
                match board.add(row, col, value) {
                    AddResult::Solved => {
                        proof {
                            lemma_full_solves_itself(board@);
                            lemma_solves_placed(board@, g, r, c, value);
                            lemma_search_of_full(board@);
                        }
                        return SolveResult::Solved;
                    },
                    AddResult::Added(_) => {
                        let ghost mid = *board;
                        proof {
                            lemma_empties_placed(g, r, c, value, 81);
                            lemma_search_from_fresh(mid);
                            assert(can_place(g, r, c, value));
                        }
                        match solve(board) {
                            SolveResult::Solved => {
                                proof {
                                    lemma_solves_placed(board@, g, r, c, value);
                                }
                                return SolveResult::Solved;
                            },
                            SolveResult::Failed => {
                                proof {
                                    assert(board.board == mid.board);
                                    assert(board@ == mid@);
                                    mid.lemma_view();
                                    lemma_placed(g, r, c, value);
                                    assert(at(mid@, r, c) == value);
                                    assert forall|s: Grid| #[trigger] solves(s, g) implies at(
                                        s,
                                        r,
                                        c,
                                    ) != value by {
                                        if at(s, r, c) == value {
                                            lemma_solves_placed(s, g, r, c, value);
                                            assert(solves(s, mid@));
                                        }
                                    }
                                }
                                let undone = board.remove(row, col);
                                proof {
                                    assert(undone is Removed);
                                    lemma_placed_cleared(g, r, c, value);
                                    assert(board@ == g);
                                    assert forall|r2: int, c2: int| in_grid(r2, c2) implies (
                                    #[trigger] board.board@[r2]@[c2]).mutable == old(
                                        board,
                                    ).board@[r2]@[c2].mutable by {
                                        assert(mid.cell(r2, c2).mutable == old(board).cell(
                                            r2,
                                            c2,
                                        ).mutable);
                                        assert(board.cell(r2, c2).mutable == mid.cell(
                                            r2,
                                            c2,
                                        ).mutable);
                                    }
                                    lemma_cells_determined(board.board, old(board).board);
                                    placed_one = true;
                                }
                            },
                        }
                    },
                    AddResult::NotPossible => {
                        proof {
                            assert forall|s: Grid| #[trigger] solves(s, g) implies at(s, r, c)
                                != value by {
                                lemma_forward_check_sound(s, g, r, c, value);
                            }
                        }
                    },
                    // The cell is empty and every candidate is a digit.
                    AddResult::AlreadySet | AddResult::NoneValue => unreached(),
                }
                proof {
                    lo = d + 1;
                }
                k += 1;
            }
            proof {
                assert forall|x: int| lo <= x < 10 implies !candidate(
                    g,
                    r,
                    c,
                    #[trigger] Value::of_digit(x),
                ) by {
                    let w = Value::of_digit(x);
                    lemma_digit_of_digit(w, x);
                    if candidate(g, r, c, w) {
                        assert(values@.contains(w));
                        let j = choose|j: int| 0 <= j < values@.len() && values@[j] == w;
                        if j < k - 1 {
                            assert(values@[j].digit() < values@[k - 1].digit());
                        }
                    }
                }
                lemma_try_skips(g, r, c, lo, 10);
                assert forall|s: Grid| !solves(s, g) by {
                    if solves(s, g) {
                        lemma_solution_takes_candidate(s, g, r, c);
                        let v = at(s, r, c);
                        assert(values@.contains(v));
                        let j = choose|j: int| 0 <= j < values@.len() && values@[j] == v;
                        assert(at(s, r, c) != values@[j]);
                    }
                }
                if !placed_one {
                    assert forall|v: Value| !#[trigger] can_place(g, r, c, v) by {
                        if can_place(g, r, c, v) {
                            assert(values@.contains(v));
                            let j = choose|j: int| 0 <= j < values@.len() && values@[j] == v;
                            assert(!can_place(g, r, c, values@[j]));
                        }
                    }
                }
            }
            SolveResult::Failed
        },
        None => {
            if board.is_solved() {
                proof {
                    lemma_full_solves_itself(board@);
                    lemma_frontier_of_full(board.board, 81);
                    assert(board.frontier() =~= Seq::<Entry>::empty());
                }
                SolveResult::Solved
            } else {
                proof {
                    if old(board).fresh() {
                        lemma_fresh_and_empty_is_full(*old(board));
                    }
                }
                SolveResult::Failed
            }
        },
    }
}

} // verus!
