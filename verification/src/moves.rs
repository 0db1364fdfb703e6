//! Placing, removing and changing values, with the checks that keep the
//! board legal and the bookkeeping of candidates.

use crate::board::{
    cells_agree, grid_of, lemma_cell_candidates, lemma_cells_determined, lemma_same_values,
    SudokuBoard,
};
use crate::cell::Cell;
use crate::grid::{
    at, blocked, can_place, candidate, forward_ok, full, has_rival, in_grid, is_peer, placed,
    same_unit, sole, Grid,
};
use crate::grid::{
    lemma_blocked_after_clear, lemma_blocked_after_place, lemma_can_place_again,
    lemma_clear_keeps_valid, lemma_place_keeps_valid, lemma_placed, lemma_placed_twice,
};
use crate::results::{AddResult, ChangeResult, RemoveResult};
use crate::value::{lemma_digit_of_digit, Value};
use vstd::prelude::*;

verus! {

/// What placing `v` at `(r, c)` reports on the grid `g`.
pub open spec fn add_outcome(g: Grid, r: int, c: int, v: Value) -> AddResult {
    if v == Value::Empty {
        AddResult::NoneValue
    } else if at(g, r, c) != Value::Empty {
        AddResult::AlreadySet
    } else if !can_place(g, r, c, v) {
        AddResult::NotPossible
    } else if full(placed(g, r, c, v)) {
        AddResult::Solved
    } else {
        AddResult::Added(v)
    }
}

/// What removing the value of a cell reports.
pub open spec fn remove_outcome(cell: Cell) -> RemoveResult {
    if !cell.mutable {
        RemoveResult::Immutable
    } else if cell.value == Value::Empty {
        RemoveResult::NoneValue
    } else {
        RemoveResult::Removed(cell.value)
    }
}

/// What changing the value of `cell`, which stands at `(r, c)` of the grid
/// `g`, to `v` reports. A clue is `Immutable` whatever `v` is; for any other
/// cell, an empty cell and the empty value are both `NoneValue`.
pub open spec fn change_outcome(g: Grid, cell: Cell, r: int, c: int, v: Value) -> ChangeResult {
    if !cell.mutable {
        ChangeResult::Immutable
    } else if cell.value == Value::Empty || v == Value::Empty {
        ChangeResult::NoneValue
    } else if !can_place(placed(g, r, c, Value::Empty), r, c, v) {
        ChangeResult::NotPossible
    } else if full(placed(g, r, c, v)) {
        ChangeResult::Solved
    } else {
        ChangeResult::Changed(cell.value, v)
    }
}

/// The cells `after` are the cells `before` with `v` written at `(r, c)` and
/// ruled out in every unit of `(r, c)`.
pub open spec fn cells_placed(
    before: [[Cell; 9]; 9],
    after: [[Cell; 9]; 9],
    r: int,
    c: int,
    v: Value,
) -> bool {
    forall|r2: int, c2: int|
        in_grid(r2, c2) ==> {
            &&& (#[trigger] after@[r2]@[c2]).value == if r2 == r && c2 == c {
                v
            } else {
                before@[r2]@[c2].value
            }
            &&& after@[r2]@[c2].mutable == before@[r2]@[c2].mutable
            &&& after@[r2]@[c2].possible_values@ == if same_unit(r, c, r2, c2) {
                before@[r2]@[c2].possible_values@.update(v.digit() - 1, Value::Empty)
            } else {
                before@[r2]@[c2].possible_values@
            }
        }
}

/// The cells `after` are the cells `before` with `(r, c)` cleared, and with the
/// digit that it held opened again to each cell in its units where no cell
/// holds that digit any more.
pub open spec fn cells_cleared(
    before: [[Cell; 9]; 9],
    after: [[Cell; 9]; 9],
    r: int,
    c: int,
) -> bool {
    forall|r2: int, c2: int|
        in_grid(r2, c2) ==> {
            &&& (#[trigger] after@[r2]@[c2]).value == if r2 == r && c2 == c {
                Value::Empty
            } else {
                before@[r2]@[c2].value
            }
            &&& after@[r2]@[c2].mutable == before@[r2]@[c2].mutable
            &&& after@[r2]@[c2].possible_values@ == if same_unit(r, c, r2, c2) && !blocked(
                placed(grid_of(before), r, c, Value::Empty),
                r2,
                c2,
                before@[r]@[c].value,
            ) {
                before@[r2]@[c2].possible_values@.update(
                    before@[r]@[c].value.digit() - 1,
                    before@[r]@[c].value,
                )
            } else {
                before@[r2]@[c2].possible_values@
            }
        }
}

/// Checks whether the two positions, counted from 0, share a row, a column or
/// a box.
pub fn shares_unit(r1: usize, c1: usize, r2: usize, c2: usize) -> (b: bool)
    ensures
        b == same_unit(r1 as int, c1 as int, r2 as int, c2 as int),
{
    r1 == r2 || c1 == c2 || (r1 / 3 == r2 / 3 && c1 / 3 == c2 / 3)
}

impl SudokuBoard {
    /// Places `val` at `(row, col)`, both counted from 1.
    ///
    /// The value is placed if the cell is empty, `val` is one of its
    /// candidates, and no peer has `val` as its only candidate. It is then
    /// ruled out for every peer and the frontier is listed anew. Otherwise the
    /// board stays as it is.
    pub fn add(&mut self, row: usize, col: usize, val: Value) -> (res: AddResult)
        requires
            old(self).wf(),
            1 <= row <= 9,
            1 <= col <= 9,
        ensures
            final(self).wf(),
            res == add_outcome(old(self)@, row - 1, col - 1, val),
            final(self).indicator == old(self).indicator,
            res is Added || res is Solved ==> {
                &&& final(self)@ == placed(old(self)@, row - 1, col - 1, val)
                &&& cells_placed(old(self).board, final(self).board, row - 1, col - 1, val)
                &&& final(self).fresh()
            },
            !(res is Added || res is Solved) ==> *final(self) == *old(self),
            forall|r: int, c: int|
                in_grid(r, c) && (#[trigger] final(self).cell(r, c)).value == Value::Empty
                    ==> final(self).cell(r, c).candidate_list().len() > 0,
    {
        proof {
            old(self).lemma_empty_cells_have_candidates();
        }
        let r: usize = row - 1;
        let c: usize = col - 1;
        proof {
            self.lemma_view();
        }
        if val == Value::Empty {
            return AddResult::NoneValue;
        }
        if self.board[r][c].value != Value::Empty {
            return AddResult::AlreadySet;
        }
        assert(self.cell(r as int, c as int).has_slot(val) <==> !blocked(
            self@,
            r as int,
            c as int,
            val,
        ));
        if !(self.board[r][c].possible_values[val.to_usize() - 1] != Value::Empty
            && self.value_is_removable(r, c, val)) {
            return AddResult::NotPossible;
        }
        self.board[r][c].value = val;
        let ghost mid = *self;
        assert forall|r2: int, c2: int| in_grid(r2, c2) && !(r2 == r && c2 == c) implies (
        #[trigger] mid.cell(r2, c2)) == old(self).cell(r2, c2) by {}
        self.strike(r, c, val);
        proof {
            assert forall|r2: int, c2: int| in_grid(r2, c2) implies {
                &&& (#[trigger] self.board@[r2]@[c2]).value == mid.cell(r2, c2).value
                &&& self.board@[r2]@[c2].mutable == mid.cell(r2, c2).mutable
                &&& self.board@[r2]@[c2].possible_values@ == if same_unit(
                    r as int,
                    c as int,
                    r2,
                    c2,
                ) {
                    mid.cell(r2, c2).possible_values@.update(val.digit() - 1, Value::Empty)
                } else {
                    mid.cell(r2, c2).possible_values@
                }
            } by {
                assert(self.cell(r2, c2) == self.board@[r2]@[c2]);
            }
            lemma_cells_placed(old(self).board, self.board, r as int, c as int, val);
            lemma_place_keeps_valid(old(self)@, r as int, c as int, val);
        }
        self.update_possible_value_heap();
        proof {
            self.lemma_empty_cells_have_candidates();
        }
        if !self.is_solved() {
            AddResult::Added(val)
        } else {
            AddResult::Solved
        }
    }

    /// Removes the value at `(row, col)`, both counted from 1.
    ///
    /// A clue stays, and so does an empty cell. Otherwise the cell is cleared,
    /// the digit that it held is opened again to the cell and to each of its
    /// peers that has no other peer holding it, and the frontier is listed
    /// anew.
    pub fn remove(&mut self, row: usize, col: usize) -> (res: RemoveResult)
        requires
            old(self).wf(),
            1 <= row <= 9,
            1 <= col <= 9,
        ensures
            final(self).wf(),
            res == remove_outcome(old(self).cell(row - 1, col - 1)),
            final(self).indicator == old(self).indicator,
            res is Removed ==> {
                &&& final(self)@ == placed(old(self)@, row - 1, col - 1, Value::Empty)
                &&& cells_cleared(old(self).board, final(self).board, row - 1, col - 1)
                &&& final(self).fresh()
            },
            !(res is Removed) ==> *final(self) == *old(self),
            !old(self).cell(row - 1, col - 1).mutable ==> res is Immutable && *final(self) == *old(
                self,
            ),
    {
        let r: usize = row - 1;
        let c: usize = col - 1;
        proof {
            self.lemma_view();
        }
        if !self.board[r][c].mutable {
            return RemoveResult::Immutable;
        }
        if self.board[r][c].value == Value::Empty {
            return RemoveResult::NoneValue;
        }
        let v = self.board[r][c].value;
        self.board[r][c].value = Value::Empty;
        let ghost mid = *self;
        proof {
            assert forall|r2: int, c2: int| in_grid(r2, c2) && !(r2 == r && c2 == c) implies (
            #[trigger] mid.cell(r2, c2)) == old(self).cell(r2, c2) by {}
            lemma_placed(old(self)@, r as int, c as int, Value::Empty);
            assert forall|r2: int| 0 <= r2 < 9 implies #[trigger] mid@[r2] == placed(
                old(self)@,
                r as int,
                c as int,
                Value::Empty,
            )[r2] by {
                assert forall|c2: int| 0 <= c2 < 9 implies mid@[r2][c2] == placed(
                    old(self)@,
                    r as int,
                    c as int,
                    Value::Empty,
                )[r2][c2] by {
                    assert(in_grid(r2, c2));
                    assert(at(placed(old(self)@, r as int, c as int, Value::Empty), r2, c2)
                        == mid.cell(r2, c2).value);
                }
                assert(mid@[r2] =~= placed(old(self)@, r as int, c as int, Value::Empty)[r2]);
            }
            assert(mid@ =~= placed(old(self)@, r as int, c as int, Value::Empty));
        }
        self.restore(r, c, v);
        proof {
            assert forall|r2: int, c2: int| in_grid(r2, c2) implies {
                &&& (#[trigger] self.board@[r2]@[c2]).value == mid.cell(r2, c2).value
                &&& self.board@[r2]@[c2].mutable == mid.cell(r2, c2).mutable
                &&& self.board@[r2]@[c2].possible_values@ == if same_unit(
                    r as int,
                    c as int,
                    r2,
                    c2,
                ) && !blocked(mid@, r2, c2, v) {
                    mid.cell(r2, c2).possible_values@.update(v.digit() - 1, v)
                } else {
                    mid.cell(r2, c2).possible_values@
                }
            } by {
                assert(self.cell(r2, c2) == self.board@[r2]@[c2]);
            }
            lemma_cells_cleared(old(self).board, self.board, r as int, c as int);
            lemma_clear_keeps_valid(old(self)@, r as int, c as int);
        }
        self.update_possible_value_heap();
        RemoveResult::Removed(v)
    }

    /// Changes the value at `(row, col)`, both counted from 1, to `val`.
    ///
    /// A clue stays, and so does an empty cell. The empty value changes
    /// nothing either: taking a value off is the work of `remove`. Otherwise
    /// the value is taken off and `val` is placed as `add` places it; where
    /// `val` may not be placed, the old value is put back and the cells are as
    /// they were.
    pub fn change(&mut self, row: usize, col: usize, val: Value) -> (res: ChangeResult)
        requires
            old(self).wf(),
            1 <= row <= 9,
            1 <= col <= 9,
        ensures
            final(self).wf(),
            res == change_outcome(
                old(self)@,
                old(self).cell(row - 1, col - 1),
                row - 1,
                col - 1,
                val,
            ),
            final(self).indicator == old(self).indicator,
            res is Changed || res is Solved ==> {
                &&& final(self)@ == placed(old(self)@, row - 1, col - 1, val)
                &&& forall|r: int, c: int|
                    in_grid(r, c) ==> (#[trigger] final(self).cell(r, c)).mutable == old(
                        self,
                    ).cell(r, c).mutable
                &&& final(self).fresh()
            },
            res is NotPossible ==> {
                &&& final(self).board == old(self).board
                &&& final(self)@ == old(self)@
                &&& final(self).fresh()
            },
            res is Immutable || res is NoneValue ==> *final(self) == *old(self),
            !old(self).cell(row - 1, col - 1).mutable ==> res is Immutable && *final(self) == *old(
                self,
            ),
            val == Value::Empty ==> {
                &&& *final(self) == *old(self)
                &&& res == if old(self).cell(row - 1, col - 1).mutable {
                    ChangeResult::NoneValue
                } else {
                    ChangeResult::Immutable
                }
            },
    {
        let ghost r: int = row - 1;
        let ghost c: int = col - 1;
        let ghost g = self@;
        proof {
            self.lemma_view();
            lemma_placed(g, r, c, Value::Empty);
        }
        if val == Value::Empty {
            return if self.board[row - 1][col - 1].mutable {
                ChangeResult::NoneValue
            } else {
                ChangeResult::Immutable
            };
        }
        match self.remove(row, col) {
            RemoveResult::Removed(rem_v) => {
                let ghost mid = *self;
                match self.add(row, col, val) {
                    AddResult::Added(add_v) => {
                        proof {
                            lemma_placed_twice(g, r, c, Value::Empty, val);
                            self.lemma_mutable_kept(mid, *old(self));
                        }
                        ChangeResult::Changed(rem_v, add_v)
                    },
                    // The cell was just emptied and `val` is a digit.
                    AddResult::AlreadySet | AddResult::NoneValue => unreached(),
                    AddResult::NotPossible => {
                        proof {
                            lemma_can_place_again(g, r, c);
                        }
                        let _ = self.add(row, col, rem_v);
                        proof {
                            self.lemma_mutable_kept(mid, *old(self));
                            lemma_cells_determined(self.board, old(self).board);
                        }
                        ChangeResult::NotPossible
                    },
                    AddResult::Solved => {
                        proof {
                            lemma_placed_twice(g, r, c, Value::Empty, val);
                            self.lemma_mutable_kept(mid, *old(self));
                        }
                        ChangeResult::Solved
                    },
                }
            },
            RemoveResult::NoneValue => ChangeResult::NoneValue,
            RemoveResult::Immutable => ChangeResult::Immutable,
        }
    }

    /// The forward check: whether no peer of `(row, col)`, counted from 0, has
    /// `val` as its only candidate.
    fn value_is_removable(&self, row: usize, col: usize, val: Value) -> (b: bool)
        requires
            cells_agree(self.board),
            row < 9,
            col < 9,
        ensures
            b == forward_ok(self@, row as int, col as int, val),
    {
        let mut i: usize = 0;
        while i < 9
            invariant
                i <= 9,
                row < 9,
                col < 9,
                cells_agree(self.board),
                forall|r: int, c: int|
                    in_grid(r, c) && is_peer(row as int, col as int, r, c) && ((c == col && r < i)
                        || (r == row && c < i)) ==> !#[trigger] sole(self@, r, c, val),
            decreases 9 - i,
        {
            if i != row && self.is_sole_candidate(i, col, val) {
                assert(candidate(self@, i as int, col as int, val));
                return false;
            }
            if i != col && self.is_sole_candidate(row, i, val) {
                assert(candidate(self@, row as int, i as int, val));
                return false;
            }
            i += 1;
        }
        let row_off: usize = row / 3;
        let col_off: usize = col / 3;
        let mut row_count: usize = 0;
        while row_count < 3
            invariant
                row_count <= 3,
                row < 9,
                col < 9,
                row_off == row / 3,
                col_off == col / 3,
                cells_agree(self.board),
                forall|r: int, c: int|
                    in_grid(r, c) && is_peer(row as int, col as int, r, c) && (c == col || r
                        == row) ==> !#[trigger] sole(self@, r, c, val),
                forall|r: int, c: int|
                    in_grid(r, c) && is_peer(row as int, col as int, r, c) && r / 3 == row_off
                        && c / 3 == col_off && r < row_off * 3 + row_count ==> !#[trigger] sole(
                        self@,
                        r,
                        c,
                        val,
                    ),
            decreases 3 - row_count,
        {
            let mut col_count: usize = 0;
            while col_count < 3
                invariant
                    row_count < 3,
                    col_count <= 3,
                    row < 9,
                    col < 9,
                    row_off == row / 3,
                    col_off == col / 3,
                    cells_agree(self.board),
                    forall|r: int, c: int|
                        in_grid(r, c) && is_peer(row as int, col as int, r, c) && (c == col || r
                            == row) ==> !#[trigger] sole(self@, r, c, val),
                    forall|r: int, c: int|
                        in_grid(r, c) && is_peer(row as int, col as int, r, c) && r / 3 == row_off
                            && c / 3 == col_off && (r < row_off * 3 + row_count || (r == row_off
                            * 3 + row_count && c < col_off * 3 + col_count)) ==> !#[trigger] sole(
                            self@,
                            r,
                            c,
                            val,
                        ),
                decreases 3 - col_count,
            {
                let r2: usize = row_off * 3 + row_count;
                let c2: usize = col_off * 3 + col_count;
                if (r2 != row || c2 != col) && self.is_sole_candidate(r2, c2, val) {
                    assert(candidate(self@, r2 as int, c2 as int, val));
                    return false;
                }
                col_count += 1;
            }
            row_count += 1;
        }
        assert forall|r: int, c: int|
            in_grid(r, c) && is_peer(row as int, col as int, r, c) && #[trigger] candidate(
                self@,
                r,
                c,
                val,
            ) implies has_rival(self@, r, c, val) by {
            assert(!sole(self@, r, c, val));
        }
        true
    }

    /// Checks whether no cell in the units of `(row, col)`, counted from 0,
    /// holds `val`.
    fn value_is_possible(&self, row: usize, col: usize, val: Value) -> (b: bool)
        requires
            row < 9,
            col < 9,
        ensures
            b == !blocked(self@, row as int, col as int, val),
    {
        proof {
            self.lemma_view();
        }
        let mut i: usize = 0;
        while i < 9
            invariant
                i <= 9,
                row < 9,
                col < 9,
                forall|r: int, c: int| in_grid(r, c) ==> #[trigger] at(self@, r, c) == self.cell(r, c).value,
                forall|r: int, c: int|
                    in_grid(r, c) && ((c == col && r < i) || (r == row && c < i)) ==> #[trigger] at(
                        self@,
                        r,
                        c,
                    ) != val,
            decreases 9 - i,
        {
            if self.board[i][col].value == val {
                assert(at(self@, i as int, col as int) == val);
                return false;
            }
            if self.board[row][i].value == val {
                assert(at(self@, row as int, i as int) == val);
                return false;
            }
            i += 1;
        }
        let row_off: usize = row / 3;
        let col_off: usize = col / 3;
        let mut row_count: usize = 0;
        while row_count < 3
            invariant
                row_count <= 3,
                row < 9,
                col < 9,
                row_off == row / 3,
                col_off == col / 3,
                forall|r: int, c: int| in_grid(r, c) ==> #[trigger] at(self@, r, c) == self.cell(r, c).value,
                forall|r: int, c: int|
                    in_grid(r, c) && (c == col || r == row) ==> #[trigger] at(self@, r, c) != val,
                forall|r: int, c: int|
                    in_grid(r, c) && r / 3 == row_off && c / 3 == col_off && r < row_off * 3
                        + row_count ==> #[trigger] at(self@, r, c) != val,
            decreases 3 - row_count,
        {
            let mut col_count: usize = 0;
            while col_count < 3
                invariant
                    row_count < 3,
                    col_count <= 3,
                    row < 9,
                    col < 9,
                    row_off == row / 3,
                    col_off == col / 3,
                    forall|r: int, c: int| in_grid(r, c) ==> #[trigger] at(self@, r, c) == self.cell(r, c).value,
                    forall|r: int, c: int|
                        in_grid(r, c) && (c == col || r == row) ==> #[trigger] at(self@, r, c)
                            != val,
                    forall|r: int, c: int|
                        in_grid(r, c) && r / 3 == row_off && c / 3 == col_off && (r < row_off * 3
                            + row_count || (r == row_off * 3 + row_count && c < col_off * 3
                            + col_count)) ==> #[trigger] at(self@, r, c) != val,
                decreases 3 - col_count,
            {
                if self.board[row_off * 3 + row_count][col_off * 3 + col_count].value == val {
                    assert(at(self@, row_off * 3 + row_count, col_off * 3 + col_count) == val);
                    return false;
                }
                col_count += 1;
            }
            row_count += 1;
        }
        assert forall|r: int, c: int|
            in_grid(r, c) && same_unit(row as int, col as int, r, c) implies #[trigger] at(
            self@,
            r,
            c,
        ) != val by {}
        true
    }

    /// Checks whether `val` is the only candidate of `(row, col)`, counted
    /// from 0.
    fn is_sole_candidate(&self, row: usize, col: usize, val: Value) -> (b: bool)
        requires
            cells_agree(self.board),
            row < 9,
            col < 9,
        ensures
            b == sole(self@, row as int, col as int, val),
    {
        let values = self.board[row][col].possible_values();
        proof {
            lemma_cell_candidates(self.board, row as int, col as int);
        }
        let b = values.len() == 1 && values[0] == val;
        assert(b == (values@ == seq![val])) by {
            if b {
                assert(values@ =~= seq![val]);
            }
            if values@ == seq![val] {
                assert(values@[0] == val);
            }
        }
        b
    }

    /// Rules `val` out for every cell in the units of `(row, col)`, counted
    /// from 0, the cell itself included.
    fn strike(&mut self, row: usize, col: usize, val: Value)
        requires
            row < 9,
            col < 9,
            val != Value::Empty,
        ensures
            final(self).indicator == old(self).indicator,
            final(self).possible_values == old(self).possible_values,
            forall|r: int, c: int|
                in_grid(r, c) ==> {
                    &&& (#[trigger] final(self).cell(r, c)).value == old(self).cell(r, c).value
                    &&& final(self).cell(r, c).mutable == old(self).cell(r, c).mutable
                    &&& final(self).cell(r, c).possible_values@ == if same_unit(
                        row as int,
                        col as int,
                        r,
                        c,
                    ) {
                        old(self).cell(r, c).possible_values@.update(val.digit() - 1, Value::Empty)
                    } else {
                        old(self).cell(r, c).possible_values@
                    }
                },
    {
        let mut i: usize = 0;
        while i < 9
            invariant
                i <= 9,
                row < 9,
                col < 9,
                val != Value::Empty,
                self.indicator == old(self).indicator,
                self.possible_values == old(self).possible_values,
                forall|r: int, c: int|
                    in_grid(r, c) ==> {
                        &&& (#[trigger] self.cell(r, c)).value == old(self).cell(r, c).value
                        &&& self.cell(r, c).mutable == old(self).cell(r, c).mutable
                        &&& self.cell(r, c).possible_values@ == if r < i && same_unit(
                            row as int,
                            col as int,
                            r,
                            c,
                        ) {
                            old(self).cell(r, c).possible_values@.update(
                                val.digit() - 1,
                                Value::Empty,
                            )
                        } else {
                            old(self).cell(r, c).possible_values@
                        }
                    },
            decreases 9 - i,
        {
            let mut j: usize = 0;
            while j < 9
                invariant
                    i < 9,
                    j <= 9,
                    row < 9,
                    col < 9,
                    val != Value::Empty,
                    self.indicator == old(self).indicator,
                    self.possible_values == old(self).possible_values,
                    forall|r: int, c: int|
                        in_grid(r, c) ==> {
                            &&& (#[trigger] self.cell(r, c)).value == old(self).cell(r, c).value
                            &&& self.cell(r, c).mutable == old(self).cell(r, c).mutable
                            &&& self.cell(r, c).possible_values@ == if (r < i || (r == i && c
                                < j)) && same_unit(row as int, col as int, r, c) {
                                old(self).cell(r, c).possible_values@.update(
                                    val.digit() - 1,
                                    Value::Empty,
                                )
                            } else {
                                old(self).cell(r, c).possible_values@
                            }
                        },
                decreases 9 - j,
            {
                let ghost prev = *self;
                if shares_unit(row, col, i, j) {
                    self.board[i][j].remove_possible_value(val);
                }
                assert forall|r: int, c: int| in_grid(r, c) && !(r == i && c == j) implies (
                #[trigger] self.cell(r, c)) == prev.cell(r, c) by {}
                j += 1;
            }
            i += 1;
        }
    }

    /// Opens `val` again to every cell in the units of `(row, col)`, counted
    /// from 0, in whose own units no cell holds `val`.
    fn restore(&mut self, row: usize, col: usize, val: Value)
        requires
            row < 9,
            col < 9,
            val != Value::Empty,
        ensures
            final(self).indicator == old(self).indicator,
            final(self).possible_values == old(self).possible_values,
            forall|r: int, c: int|
                in_grid(r, c) ==> {
                    &&& (#[trigger] final(self).cell(r, c)).value == old(self).cell(r, c).value
                    &&& final(self).cell(r, c).mutable == old(self).cell(r, c).mutable
                    &&& final(self).cell(r, c).possible_values@ == if same_unit(
                        row as int,
                        col as int,
                        r,
                        c,
                    ) && !blocked(old(self)@, r, c, val) {
                        old(self).cell(r, c).possible_values@.update(val.digit() - 1, val)
                    } else {
                        old(self).cell(r, c).possible_values@
                    }
                },
    {
        let mut i: usize = 0;
        while i < 9
            invariant
                i <= 9,
                row < 9,
                col < 9,
                val != Value::Empty,
                self.indicator == old(self).indicator,
                self.possible_values == old(self).possible_values,
                self@ == old(self)@,
                forall|r: int, c: int|
                    in_grid(r, c) ==> {
                        &&& (#[trigger] self.cell(r, c)).value == old(self).cell(r, c).value
                        &&& self.cell(r, c).mutable == old(self).cell(r, c).mutable
                        &&& self.cell(r, c).possible_values@ == if r < i && same_unit(
                            row as int,
                            col as int,
                            r,
                            c,
                        ) && !blocked(old(self)@, r, c, val) {
                            old(self).cell(r, c).possible_values@.update(val.digit() - 1, val)
                        } else {
                            old(self).cell(r, c).possible_values@
                        }
                    },
            decreases 9 - i,
        {
            let mut j: usize = 0;
            while j < 9
                invariant
                    i < 9,
                    j <= 9,
                    row < 9,
                    col < 9,
                    val != Value::Empty,
                    self.indicator == old(self).indicator,
                    self.possible_values == old(self).possible_values,
                    self@ == old(self)@,
                    forall|r: int, c: int|
                        in_grid(r, c) ==> {
                            &&& (#[trigger] self.cell(r, c)).value == old(self).cell(r, c).value
                            &&& self.cell(r, c).mutable == old(self).cell(r, c).mutable
                            &&& self.cell(r, c).possible_values@ == if (r < i || (r == i && c
                                < j)) && same_unit(row as int, col as int, r, c) && !blocked(
                                old(self)@,
                                r,
                                c,
                                val,
                            ) {
                                old(self).cell(r, c).possible_values@.update(val.digit() - 1, val)
                            } else {
                                old(self).cell(r, c).possible_values@
                            }
                        },
                decreases 9 - j,
            {
                let ghost prev = *self;
                if shares_unit(row, col, i, j) && self.value_is_possible(i, j, val) {
                    self.board[i][j].add_possible_value(val);
                }
                assert forall|r: int, c: int| in_grid(r, c) && !(r == i && c == j) implies (
                #[trigger] self.cell(r, c)) == prev.cell(r, c) by {}
                proof {
                    assert forall|r: int, c: int| in_grid(r, c) implies (
                    #[trigger] self.board@[r]@[c]).value == prev.board@[r]@[c].value by {
                        assert(self.cell(r, c).value == prev.cell(r, c).value);
                    }
                    lemma_same_values(self.board, prev.board);
                }
                j += 1;
            }
            i += 1;
        }
    }

    /// Clues stay clues over a removal and a placement: if `mid` has the
    /// clues of `before` and this board those of `mid`, it has those of
    /// `before`.
    proof fn lemma_mutable_kept(&self, mid: SudokuBoard, before: SudokuBoard)
        requires
            forall|r: int, c: int|
                in_grid(r, c) ==> (#[trigger] mid.board@[r]@[c]).mutable == before.board@[r]@[c].mutable,
            forall|r: int, c: int|
                in_grid(r, c) ==> (#[trigger] self.board@[r]@[c]).mutable == mid.board@[r]@[c].mutable,
        ensures
            forall|r: int, c: int|
                in_grid(r, c) ==> (#[trigger] self.cell(r, c)).mutable == before.cell(r, c).mutable,
            forall|r: int, c: int|
                in_grid(r, c) ==> (#[trigger] self.board@[r]@[c]).mutable == before.board@[r]@[c].mutable,
    {
        assert forall|r: int, c: int| in_grid(r, c) implies (#[trigger] self.board@[r]@[c]).mutable
            == before.board@[r]@[c].mutable by {
            assert(mid.board@[r]@[c].mutable == before.board@[r]@[c].mutable);
        }
    }
}

/// Cells that agreed with their grid agree with the new grid once a value is
/// written and ruled out in its units.
pub proof fn lemma_cells_placed(
    before: [[Cell; 9]; 9],
    after: [[Cell; 9]; 9],
    r: int,
    c: int,
    v: Value,
)
    requires
        cells_agree(before),
        in_grid(r, c),
        v != Value::Empty,
        at(grid_of(before), r, c) == Value::Empty,
        cells_placed(before, after, r, c, v),
    ensures
        grid_of(after) == placed(grid_of(before), r, c, v),
        cells_agree(after),
{
    let g = grid_of(before);
    let p = placed(g, r, c, v);
    let h = grid_of(after);
    lemma_placed(g, r, c, v);
    assert forall|r2: int| 0 <= r2 < 9 implies #[trigger] h[r2] == p[r2] by {
        assert forall|c2: int| 0 <= c2 < 9 implies h[r2][c2] == p[r2][c2] by {
            assert(in_grid(r2, c2));
            assert(at(p, r2, c2) == after@[r2]@[c2].value);
        }
        assert(h[r2] =~= p[r2]);
    }
    assert(h =~= p);
    lemma_blocked_after_place(g, r, c, v);
    assert forall|r2: int, c2: int| in_grid(r2, c2) implies (#[trigger] after@[r2]@[c2]).wf() by {
        assert(before@[r2]@[c2].wf());
    }
    assert forall|r2: int, c2: int, w: Value| in_grid(r2, c2) && w != Value::Empty implies (
    #[trigger] after@[r2]@[c2].has_slot(w) <==> !blocked(h, r2, c2, w)) by {
        assert(before@[r2]@[c2].has_slot(w) <==> !blocked(g, r2, c2, w));
        assert(blocked(p, r2, c2, w) <==> blocked(g, r2, c2, w) || (w == v && same_unit(
            r2,
            c2,
            r,
            c,
        )));
        lemma_digit_of_digit(w, 0);
        lemma_digit_of_digit(v, 0);
    }
}

/// Cells that agreed with their grid agree with the new grid once a cell is
/// cleared and its digit opened again where it is free.
pub proof fn lemma_cells_cleared(before: [[Cell; 9]; 9], after: [[Cell; 9]; 9], r: int, c: int)
    requires
        cells_agree(before),
        in_grid(r, c),
        at(grid_of(before), r, c) != Value::Empty,
        cells_cleared(before, after, r, c),
    ensures
        grid_of(after) == placed(grid_of(before), r, c, Value::Empty),
        cells_agree(after),
{
    let g = grid_of(before);
    let v = before@[r]@[c].value;
    let p = placed(g, r, c, Value::Empty);
    let h = grid_of(after);
    lemma_placed(g, r, c, Value::Empty);
    assert forall|r2: int| 0 <= r2 < 9 implies #[trigger] h[r2] == p[r2] by {
        assert forall|c2: int| 0 <= c2 < 9 implies h[r2][c2] == p[r2][c2] by {
            assert(in_grid(r2, c2));
            assert(at(p, r2, c2) == after@[r2]@[c2].value);
        }
        assert(h[r2] =~= p[r2]);
    }
    assert(h =~= p);
    lemma_blocked_after_clear(g, r, c);
    lemma_digit_of_digit(v, 0);
    assert forall|r2: int, c2: int| in_grid(r2, c2) implies (#[trigger] after@[r2]@[c2]).wf() by {
        assert(before@[r2]@[c2].wf());
    }
    assert forall|r2: int, c2: int, w: Value| in_grid(r2, c2) && w != Value::Empty implies (
    #[trigger] after@[r2]@[c2].has_slot(w) <==> !blocked(h, r2, c2, w)) by {
        assert(before@[r2]@[c2].has_slot(w) <==> !blocked(g, r2, c2, w));
        lemma_digit_of_digit(w, 0);
        if w == v && same_unit(r, c, r2, c2) {
            if blocked(p, r2, c2, w) {
                assert(blocked(g, r2, c2, w));
            }
        } else {
            if blocked(g, r2, c2, w) {
                assert(blocked(p, r2, c2, w));
            }
            if blocked(p, r2, c2, w) {
                assert(blocked(g, r2, c2, w));
            }
        }
    }
}

} // verus!
