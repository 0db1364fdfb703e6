//! What holds of every board that satisfies its invariant, and of the
//! operations taken together.

use crate::board::{cells_agree, grid_of, lemma_cells_determined, SudokuBoard};
use crate::moves::{
    add_outcome, cells_cleared, cells_placed, lemma_cells_cleared, lemma_cells_placed,
};
use crate::cell::{lemma_candidate_list, Cell};
use crate::grid::{
    at, blocked, can_place, candidate, full, has_candidate, in_grid, is_peer, lemma_place_keeps_valid,
    lemma_placed, lemma_placed_cleared, placed, same_unit, solves, valid, Grid,
};
use crate::value::Value;
use vstd::prelude::*;

verus! {

/// No digit stands twice in a row, a column or a box: two distinct cells that
/// share a unit never hold the same digit.
pub proof fn law_units_hold_no_digit_twice(
    board: SudokuBoard,
    r1: int,
    c1: int,
    r2: int,
    c2: int,
)
    requires
        board.wf(),
        in_grid(r1, c1),
        in_grid(r2, c2),
        !(r1 == r2 && c1 == c2),
        r1 == r2 || c1 == c2 || (r1 / 3 == r2 / 3 && c1 / 3 == c2 / 3),
        board.cell(r1, c1).value != Value::Empty,
    ensures
        board.cell(r1, c1).value != board.cell(r2, c2).value,
{
    board.lemma_view();
    assert(is_peer(r1, c1, r2, c2));
    assert(at(board@, r1, c1) != at(board@, r2, c2));
}

/// The candidates of an empty cell are exactly the digits that none of its
/// peers holds, in the candidate set and in the candidate list alike.
pub proof fn law_candidates_are_the_free_digits(board: SudokuBoard, r: int, c: int, v: Value)
    requires
        board.wf(),
        in_grid(r, c),
        board.cell(r, c).value == Value::Empty,
    ensures
        board.cell(r, c).candidates().contains(v) <==> v != Value::Empty && forall|
            r2: int,
            c2: int,
        |
            in_grid(r2, c2) && is_peer(r, c, r2, c2) ==> (#[trigger] board.cell(r2, c2)).value
                != v,
        board.cell(r, c).candidate_list().contains(v) <==> board.cell(r, c).candidates().contains(
            v,
        ),
{
    let g = board@;
    board.lemma_view();
    lemma_candidate_list(board.cell(r, c));
    if v != Value::Empty {
        assert(board.cell(r, c).has_slot(v) <==> !blocked(g, r, c, v));
        if blocked(g, r, c, v) {
            let (r2, c2) = choose|r2: int, c2: int|
                in_grid(r2, c2) && same_unit(r, c, r2, c2) && #[trigger] at(g, r2, c2) == v;
            assert(is_peer(r, c, r2, c2));
            assert(board.cell(r2, c2).value == v);
        } else {
            assert forall|r2: int, c2: int|
                in_grid(r2, c2) && is_peer(r, c, r2, c2) implies (#[trigger] board.cell(
                r2,
                c2,
            )).value != v by {
                assert(at(g, r2, c2) != v);
            }
        }
    }
}

/// A cell that holds a value has no candidates.
pub proof fn law_filled_cell_has_no_candidates(cell: Cell)
    requires
        cell.value != Value::Empty,
    ensures
        cell.candidate_list().len() == 0,
        cell.candidates() =~= Set::empty(),
{
}

/// No empty cell is without a candidate.
pub proof fn law_empty_cell_has_candidate(board: SudokuBoard, r: int, c: int)
    requires
        board.wf(),
        in_grid(r, c),
        board.cell(r, c).value == Value::Empty,
    ensures
        board.cell(r, c).candidate_list().len() > 0,
{
    board.lemma_empty_cells_have_candidates();
}

/// Removing undoes placing: cells in which a value is placed in an empty cell
/// and then removed again are the cells they were, each with the candidates
/// it had.
pub proof fn law_remove_undoes_add(
    before: [[Cell; 9]; 9],
    between: [[Cell; 9]; 9],
    after: [[Cell; 9]; 9],
    r: int,
    c: int,
    v: Value,
)
    requires
        cells_agree(before),
        in_grid(r, c),
        before@[r]@[c].value == Value::Empty,
        v != Value::Empty,
        cells_placed(before, between, r, c, v),
        cells_cleared(between, after, r, c),
    ensures
        after == before,
        forall|r2: int, c2: int|
            in_grid(r2, c2) ==> (#[trigger] after@[r2]@[c2]).candidates() == before@[r2]@[c2].candidates(),
{
    let g = grid_of(before);
    assert(at(g, r, c) == Value::Empty);
    lemma_cells_placed(before, between, r, c, v);
    lemma_placed(g, r, c, v);
    assert(at(grid_of(between), r, c) == v);
    lemma_cells_cleared(between, after, r, c);
    lemma_placed_cleared(g, r, c, v);
    assert forall|r2: int, c2: int| in_grid(r2, c2) implies (#[trigger] after@[r2]@[c2]).mutable
        == before@[r2]@[c2].mutable by {
        assert(between@[r2]@[c2].mutable == before@[r2]@[c2].mutable);
    }
    lemma_cells_determined(after, before);
}

/// Placing the same value again after the round trip gives the cells that the
/// first placing gave.
pub proof fn law_add_again_gives_the_same(
    before: [[Cell; 9]; 9],
    first: [[Cell; 9]; 9],
    cleared: [[Cell; 9]; 9],
    second: [[Cell; 9]; 9],
    r: int,
    c: int,
    v: Value,
)
    requires
        cells_agree(before),
        in_grid(r, c),
        before@[r]@[c].value == Value::Empty,
        v != Value::Empty,
        cells_placed(before, first, r, c, v),
        cells_cleared(first, cleared, r, c),
        cells_placed(cleared, second, r, c, v),
    ensures
        second == first,
{
    law_remove_undoes_add(before, first, cleared, r, c, v);
    assert(at(grid_of(before), r, c) == Value::Empty);
    lemma_cells_placed(before, first, r, c, v);
    lemma_cells_placed(before, second, r, c, v);
    assert forall|r2: int, c2: int| in_grid(r2, c2) implies (#[trigger] second@[r2]@[c2]).mutable
        == first@[r2]@[c2].mutable by {
        assert(before@[r2]@[c2].mutable == first@[r2]@[c2].mutable);
    }
    lemma_cells_determined(second, first);
}

/// The forward check is sound: a value is never placed where that would
/// leave another empty cell without a candidate.
pub proof fn law_forward_check(g: Grid, r: int, c: int, v: Value, r2: int, c2: int)
    requires
        valid(g),
        in_grid(r, c),
        in_grid(r2, c2),
        !(r2 == r && c2 == c),
        at(g, r2, c2) == Value::Empty,
        !has_candidate(placed(g, r, c, v), r2, c2),
    ensures
        !(add_outcome(g, r, c, v) is Added),
        !(add_outcome(g, r, c, v) is Solved),
{
    if v != Value::Empty && can_place(g, r, c, v) {
        lemma_place_keeps_valid(g, r, c, v);
        lemma_placed(g, r, c, v);
        assert(at(placed(g, r, c, v), r2, c2) == Value::Empty);
    }
}

/// A solution is a grid that a board can be in: full, and with no digit
/// twice in a row, a column or a box.
pub proof fn law_solution_is_full_and_clash_free(s: Grid, g: Grid, r1: int, c1: int, r2: int, c2: int)
    requires
        solves(s, g),
        in_grid(r1, c1),
        in_grid(r2, c2),
        !(r1 == r2 && c1 == c2),
        r1 == r2 || c1 == c2 || (r1 / 3 == r2 / 3 && c1 / 3 == c2 / 3),
    ensures
        at(s, r1, c1) != Value::Empty,
        at(s, r1, c1) != at(s, r2, c2),
        at(g, r1, c1) != Value::Empty ==> at(s, r1, c1) == at(g, r1, c1),
{
    assert(is_peer(r1, c1, r2, c2));
}

} // verus!
