//! The board: the grid of cells, the invariant that ties the cells to the
//! grid of their values, and the frontier of empty cells.

use crate::cell::{lemma_candidate_list, Cell};
use crate::grid::{
    at, blocked, candidate, full, has_candidate, has_rival, in_grid, is_grid, same_unit, sole,
    valid, Grid,
};
use crate::possible_cell_values::{
    is_mrv, lemma_mrv_unique, mrv_index, rank, Entry, PossibleCellValues,
};
use crate::value::{lemma_digit_of_digit, Value};
use vstd::prelude::*;

verus! {

/// A Sudoku board.
///
/// `board[row][col]` is a cell, with both indices from 0. `indicator` says
/// whether a display should show the candidates of empty cells.
/// `possible_values` is the frontier: the empty cells that are still to be
/// handed out, each with its candidates.
pub struct SudokuBoard {
    pub board: [[Cell; 9]; 9],
    pub indicator: bool,
    pub possible_values: Vec<PossibleCellValues>,
}

/// The entries of a frontier as mathematical values.
pub open spec fn entries(s: Seq<PossibleCellValues>) -> Seq<Entry> {
    Seq::new(s.len(), |i: int| s[i]@)
}

/// The values that the cells hold.
pub open spec fn grid_of(cells: [[Cell; 9]; 9]) -> Grid {
    Seq::new(9, |r: int| Seq::new(9, |c: int| cells@[r]@[c].value))
}

/// The grid without any value.
pub open spec fn empty_grid() -> Grid {
    Seq::new(9, |r: int| Seq::new(9, |c: int| Value::Empty))
}

/// Every slot of every cell agrees with the grid: a digit is open to a cell
/// exactly if no cell in its units holds that digit.
pub open spec fn cells_agree(cells: [[Cell; 9]; 9]) -> bool {
    &&& forall|r: int, c: int| in_grid(r, c) ==> (#[trigger] cells@[r]@[c]).wf()
    &&& forall|r: int, c: int, v: Value|
        in_grid(r, c) && v != Value::Empty ==> (#[trigger] cells@[r]@[c].has_slot(v) <==> !blocked(
            grid_of(cells),
            r,
            c,
            v,
        ))
}

/// Every clue holds a value: a cell that may not be edited is not empty.
pub open spec fn clues_filled(cells: [[Cell; 9]; 9]) -> bool {
    forall|r: int, c: int|
        in_grid(r, c) && !(#[trigger] cells@[r]@[c]).mutable ==> cells@[r]@[c].value
            != Value::Empty
}

/// The clues are the cells that hold a value.
pub open spec fn clues_are_values(cells: [[Cell; 9]; 9]) -> bool {
    forall|r: int, c: int|
        in_grid(r, c) ==> (#[trigger] cells@[r]@[c]).mutable == (cells@[r]@[c].value
            == Value::Empty)
}

/// The entry for the `k`-th cell, counted row by row from 0.
pub open spec fn entry_of(cells: [[Cell; 9]; 9], k: int) -> Entry {
    Entry { row: k / 9 + 1, col: k % 9 + 1, values: cells@[k / 9]@[k % 9].candidate_list() }
}

/// The entries of the first `n` cells, counted row by row, that have a
/// candidate.
pub open spec fn frontier_upto(cells: [[Cell; 9]; 9], n: int) -> Seq<Entry>
    decreases n,
{
    if n <= 0 {
        Seq::empty()
    } else if entry_of(cells, n - 1).values.len() > 0 {
        frontier_upto(cells, n - 1).push(entry_of(cells, n - 1))
    } else {
        frontier_upto(cells, n - 1)
    }
}

/// Every entry names an empty cell with the candidates that it has, and the
/// entries stand row by row.
pub open spec fn frontier_agrees(cells: [[Cell; 9]; 9], f: Seq<Entry>) -> bool {
    &&& forall|k: int|
        0 <= k < f.len() ==> {
            let e = #[trigger] f[k];
            &&& 1 <= e.row <= 9
            &&& 1 <= e.col <= 9
            &&& e.values.len() > 0
            &&& e.values == cells@[e.row - 1]@[e.col - 1].candidate_list()
        }
    &&& forall|j: int, k: int|
        0 <= j < k < f.len() ==> rank(#[trigger] f[j]) < rank(#[trigger] f[k])
}

impl View for SudokuBoard {
    type V = Grid;

    /// The values on the board.
    open spec fn view(&self) -> Grid {
        grid_of(self.board)
    }
}

impl SudokuBoard {
    /// The cell at `(r, c)`, both counted from 0.
    pub open spec fn cell(&self, r: int, c: int) -> Cell {
        self.board@[r]@[c]
    }

    /// The frontier: the empty cells that `pop_possible_value` has yet to
    /// hand out, in the order in which they were listed.
    pub open spec fn frontier(&self) -> Seq<Entry> {
        entries(self.possible_values@)
    }

    /// The frontier lists every empty cell that has a candidate.
    pub open spec fn fresh(&self) -> bool {
        self.frontier() == frontier_upto(self.board, 81)
    }

    /// The invariant of the board: the grid is valid, the cells agree with it,
    /// every clue holds a value, and the frontier agrees with the cells.
    pub open spec fn wf(&self) -> bool {
        &&& cells_agree(self.board)
        &&& valid(self@)
        &&& clues_filled(self.board)
        &&& frontier_agrees(self.board, self.frontier())
    }

    /// The grid holds the values of the cells.
    pub proof fn lemma_view(&self)
        ensures
            is_grid(self@),
            forall|r: int, c: int| in_grid(r, c) ==> #[trigger] at(self@, r, c) == self.cell(r, c).value,
    {
    }

    /// No empty cell of a board is without a candidate.
    pub proof fn lemma_empty_cells_have_candidates(&self)
        requires
            self.wf(),
        ensures
            forall|r: int, c: int|
                in_grid(r, c) && (#[trigger] self.cell(r, c)).value == Value::Empty
                    ==> self.cell(r, c).candidate_list().len() > 0,
    {
        self.lemma_view();
        assert forall|r: int, c: int|
            in_grid(r, c) && (#[trigger] self.cell(r, c)).value == Value::Empty implies self.cell(
            r,
            c,
        ).candidate_list().len() > 0 by {
            assert(at(self@, r, c) == Value::Empty);
            assert(has_candidate(self@, r, c));
            lemma_cell_candidates(self.board, r, c);
        }
    }

    /// Creates a board without any value: every digit is a candidate of
    /// every cell, and every cell may be edited.
    pub fn blank() -> (board: SudokuBoard)
        ensures
            board.wf(),
            board.fresh(),
            board.indicator,
            board@ == empty_grid(),
            clues_are_values(board.board),
    {
        let fresh_cell = Cell::new();
        let mut board = SudokuBoard {
            board: [[fresh_cell; 9]; 9],
            indicator: true,
            possible_values: Vec::new(),
        };
        proof {
            let g = board@;
            assert forall|r: int, c: int| in_grid(r, c) implies #[trigger] board.board@[r]@[c]
                == fresh_cell by {}
            assert forall|r: int| 0 <= r < 9 implies #[trigger] g[r] == empty_grid()[r] by {
                assert forall|c: int| 0 <= c < 9 implies g[r][c] == empty_grid()[r][c] by {
                    assert(in_grid(r, c));
                }
                assert(g[r] =~= empty_grid()[r]);
            }
            assert(g =~= empty_grid());
            assert forall|r: int, c: int, v: Value| in_grid(r, c) && v != Value::Empty implies !blocked(
                g,
                r,
                c,
                v,
            ) by {
                if blocked(g, r, c, v) {
                    let (r2, c2) = choose|r2: int, c2: int|
                        in_grid(r2, c2) && same_unit(r, c, r2, c2) && #[trigger] at(g, r2, c2) == v;
                    assert(at(g, r2, c2) == Value::Empty);
                }
            }
            assert forall|r: int, c: int|
                in_grid(r, c) && #[trigger] at(g, r, c) == Value::Empty implies has_candidate(
                g,
                r,
                c,
            ) by {
                assert(candidate(g, r, c, Value::One));
            }
            assert forall|r: int, c: int, v: Value| in_grid(r, c) && v != Value::Empty implies (
            #[trigger] board.board@[r]@[c].has_slot(v) <==> !blocked(g, r, c, v)) by {}
        }
        board.update_possible_value_heap();
        board
    }

    /// Lists anew every empty cell that has a candidate.
    pub fn update_possible_value_heap(&mut self)
        ensures
            final(self).board == old(self).board,
            final(self).indicator == old(self).indicator,
            final(self).fresh(),
            frontier_agrees(final(self).board, final(self).frontier()),
    {
        let mut listed: Vec<PossibleCellValues> = Vec::new();
        let mut row: usize = 0;
        assert(entries(listed@) =~= frontier_upto(self.board, 0));
        while row < 9
            invariant
                row <= 9,
                entries(listed@) == frontier_upto(self.board, row * 9),
            decreases 9 - row,
        {
            let mut col: usize = 0;
            while col < 9
                invariant
                    row < 9,
                    col <= 9,
                    entries(listed@) == frontier_upto(self.board, row * 9 + col),
                decreases 9 - col,
            {
                let values = self.board[row][col].possible_values();
                let ghost k: int = row * 9 + col;
                assert(k / 9 == row && k % 9 == col);
                let ghost before = listed@;
                if values.len() > 0 && self.board[row][col].value == Value::Empty {
                    listed.push(PossibleCellValues { row: row + 1, col: col + 1, values });
                    assert(entries(listed@) =~= entries(before).push(entry_of(self.board, k)));
                }
                assert(entries(listed@) == frontier_upto(self.board, k + 1));
                col += 1;
            }
            row += 1;
        }
        self.possible_values = listed;
        proof {
            lemma_frontier_upto(self.board, 81);
        }
    }

    /// Takes the entry with the fewest candidates off the frontier and returns
    /// it; among entries with equally few, the first by row and then by column.
    /// Returns `None` when the frontier is empty.
    pub fn pop_possible_value(&mut self) -> (res: Option<PossibleCellValues>)
        ensures
            final(self).board == old(self).board,
            final(self).indicator == old(self).indicator,
            old(self).frontier().len() == 0 ==> res is None && final(self).frontier() == old(
                self,
            ).frontier(),
            old(self).frontier().len() > 0 ==> {
                let i = mrv_index(old(self).frontier());
                &&& is_mrv(old(self).frontier(), i)
                &&& res is Some
                &&& res->0@ == old(self).frontier()[i]
                &&& final(self).frontier() == old(self).frontier().remove(i)
            },
            old(self).wf() ==> final(self).wf(),
    {
        let n = self.possible_values.len();
        if n == 0 {
            return None;
        }
        let ghost f = self.frontier();
        let mut best: usize = 0;
        let mut k: usize = 1;
        while k < n
            invariant
                1 <= k <= n,
                n == self.possible_values.len(),
                f == self.frontier(),
                best < k,
                forall|j: int| 0 <= j < k ==> f[best as int].values.len() <= (#[trigger] f[j]).values.len(),
                forall|j: int| 0 <= j < best ==> f[best as int].values.len() < (#[trigger] f[j]).values.len(),
            decreases n - k,
        {
            if self.possible_values[k].values.len() < self.possible_values[best].values.len() {
                best = k;
            }
            k += 1;
        }
        proof {
            assert(is_mrv(f, best as int));
            lemma_mrv_unique(f, best as int, mrv_index(f));
        }
        let entry = self.possible_values.remove(best);
        assert(self.frontier() =~= f.remove(best as int));
        proof {
            if old(self).wf() {
                assert forall|j: int| 0 <= j < self.frontier().len() implies {
                    let e = #[trigger] self.frontier()[j];
                    &&& 1 <= e.row <= 9
                    &&& 1 <= e.col <= 9
                    &&& e.values.len() > 0
                    &&& e.values == self.board@[e.row - 1]@[e.col - 1].candidate_list()
                } by {
                    let i = if j < best { j } else { j + 1 };
                    assert(self.frontier()[j] == f[i]);
                }
                assert forall|i: int, j: int| 0 <= i < j < self.frontier().len() implies rank(
                    #[trigger] self.frontier()[i],
                ) < rank(#[trigger] self.frontier()[j]) by {
                    let i2 = if i < best { i } else { i + 1 };
                    let j2 = if j < best { j } else { j + 1 };
                    assert(self.frontier()[i] == f[i2]);
                    assert(self.frontier()[j] == f[j2]);
                }
            }
        }
        Some(entry)
    }

    /// Checks whether no cell is empty.
    pub fn is_solved(&self) -> (b: bool)
        ensures
            b == full(self@),
    {
        proof {
            self.lemma_view();
        }
        let mut row: usize = 0;
        while row < 9
            invariant
                row <= 9,
                forall|r: int, c: int|
                    in_grid(r, c) && r < row ==> #[trigger] at(self@, r, c) != Value::Empty,
            decreases 9 - row,
        {
            let mut col: usize = 0;
            while col < 9
                invariant
                    row < 9,
                    col <= 9,
                    forall|r: int, c: int|
                        in_grid(r, c) && (r < row || (r == row && c < col)) ==> #[trigger] at(
                            self@,
                            r,
                            c,
                        ) != Value::Empty,
                decreases 9 - col,
            {
                if self.board[row][col].value == Value::Empty {
                    assert(at(self@, row as int, col as int) == Value::Empty);
                    return false;
                }
                col += 1;
            }
            row += 1;
        }
        true
    }
}

/// What `frontier_upto` lists: each entry names a cell among the first `n`
/// with the candidates that it has, and the entries stand row by row.
pub proof fn lemma_frontier_upto(cells: [[Cell; 9]; 9], n: int)
    requires
        0 <= n <= 81,
    ensures
        frontier_agrees(cells, frontier_upto(cells, n)),
        forall|k: int|
            0 <= k < frontier_upto(cells, n).len() ==> rank(#[trigger] frontier_upto(cells, n)[k])
                < n,
    decreases n,
{
    if n > 0 {
        lemma_frontier_upto(cells, n - 1);
        let e = entry_of(cells, n - 1);
        assert(rank(e) == n - 1);
    }
}

/// The candidate list of a cell holds the candidates that the grid gives it,
/// and it is the single digit `v` exactly if `v` is the cell's only candidate.
pub proof fn lemma_cell_candidates(cells: [[Cell; 9]; 9], r: int, c: int)
    requires
        cells_agree(cells),
        in_grid(r, c),
    ensures
        forall|v: Value|
            cells@[r]@[c].candidate_list().contains(v) <==> #[trigger] candidate(
                grid_of(cells),
                r,
                c,
                v,
            ),
        forall|v: Value|
            cells@[r]@[c].candidate_list() == seq![v] <==> #[trigger] sole(grid_of(cells), r, c, v),
        cells@[r]@[c].candidate_list().len() > 0 <==> has_candidate(grid_of(cells), r, c),
{
    let cell = cells@[r]@[c];
    let g = grid_of(cells);
    let list = cell.candidate_list();
    lemma_candidate_list(cell);
    assert(cell.wf());
    assert(at(g, r, c) == cell.value);
    assert forall|v: Value| list.contains(v) <==> #[trigger] candidate(g, r, c, v) by {
        if v != Value::Empty {
            assert(cell.has_slot(v) <==> !blocked(g, r, c, v));
        }
    }
    assert forall|v: Value| list == seq![v] <==> #[trigger] sole(g, r, c, v) by {
        if list == seq![v] {
            assert(list[0] == v);
            assert(list.contains(v));
            if has_rival(g, r, c, v) {
                let w = choose|w: Value| w != v && #[trigger] candidate(g, r, c, w);
                assert(list.contains(w));
            }
        }
        if sole(g, r, c, v) {
            assert(list.contains(v));
            if list.len() >= 2 {
                assert(list[0].digit() < list[1].digit());
                assert(list.contains(list[0]));
                assert(list.contains(list[1]));
                assert(candidate(g, r, c, list[0]));
                assert(candidate(g, r, c, list[1]));
            }
            assert(list =~= seq![v]);
        }
    }
    if list.len() > 0 {
        assert(list.contains(list[0]));
        assert(candidate(g, r, c, list[0]));
    }
    if has_candidate(g, r, c) {
        let w = choose|w: Value| #[trigger] candidate(g, r, c, w);
        assert(list.contains(w));
    }
}

/// Cells with the same values have the same grid.
pub proof fn lemma_same_values(a: [[Cell; 9]; 9], b: [[Cell; 9]; 9])
    requires
        forall|r: int, c: int| in_grid(r, c) ==> (#[trigger] a@[r]@[c]).value == b@[r]@[c].value,
    ensures
        grid_of(a) == grid_of(b),
{
    let g = grid_of(a);
    let h = grid_of(b);
    assert forall|r: int| 0 <= r < 9 implies #[trigger] g[r] == h[r] by {
        assert forall|c: int| 0 <= c < 9 implies g[r][c] == h[r][c] by {
            assert(in_grid(r, c));
            assert(a@[r]@[c].value == b@[r]@[c].value);
        }
        assert(g[r] =~= h[r]);
    }
    assert(g =~= h);
}

/// Whether a cell may be edited has no part in what it agrees with: cells
/// that differ from others in this alone agree with the same grid and the
/// same frontier.
pub proof fn lemma_flag_free(a: [[Cell; 9]; 9], b: [[Cell; 9]; 9])
    requires
        grid_of(a) == grid_of(b),
        forall|r: int, c: int|
            in_grid(r, c) ==> (#[trigger] b@[r]@[c]).value == a@[r]@[c].value
                && b@[r]@[c].possible_values == a@[r]@[c].possible_values,
    ensures
        cells_agree(a) ==> cells_agree(b),
        forall|f: Seq<Entry>| frontier_agrees(a, f) ==> #[trigger] frontier_agrees(b, f),
{
    if cells_agree(a) {
        assert forall|r: int, c: int| in_grid(r, c) implies (#[trigger] b@[r]@[c]).wf() by {
            assert(a@[r]@[c].wf());
        }
        assert forall|r: int, c: int, v: Value| in_grid(r, c) && v != Value::Empty implies (
        #[trigger] b@[r]@[c].has_slot(v) <==> !blocked(grid_of(b), r, c, v)) by {
            assert(a@[r]@[c].has_slot(v) <==> !blocked(grid_of(a), r, c, v));
        }
    }
    assert forall|f: Seq<Entry>| frontier_agrees(a, f) implies #[trigger] frontier_agrees(b, f) by {
        assert forall|k: int| 0 <= k < f.len() implies {
            let e = #[trigger] f[k];
            &&& 1 <= e.row <= 9
            &&& 1 <= e.col <= 9
            &&& e.values.len() > 0
            &&& e.values == b@[e.row - 1]@[e.col - 1].candidate_list()
        } by {
            let e = f[k];
            assert(in_grid(e.row - 1, e.col - 1));
            assert(b@[e.row - 1]@[e.col - 1].value == a@[e.row - 1]@[e.col - 1].value);
        }
    }
}

/// The cells are determined by what the board shows: two sets of cells that
/// agree with the same grid and have the same clues are the same cells.
pub proof fn lemma_cells_determined(a: [[Cell; 9]; 9], b: [[Cell; 9]; 9])
    requires
        cells_agree(a),
        cells_agree(b),
        grid_of(a) == grid_of(b),
        forall|r: int, c: int| in_grid(r, c) ==> (#[trigger] a@[r]@[c]).mutable == b@[r]@[c].mutable,
    ensures
        a == b,
{
    let g = grid_of(a);
    assert forall|r: int| 0 <= r < 9 implies a[r] == b[r] by {
        assert forall|c: int| 0 <= c < 9 implies a[r][c] == b[r][c] by {
            let x = a@[r]@[c];
            let y = b@[r]@[c];
            assert(in_grid(r, c));
            assert(x.mutable == y.mutable);
            assert(at(g, r, c) == x.value);
            assert(at(grid_of(b), r, c) == y.value);
            assert(x.wf() && y.wf());
            assert forall|i: int| 0 <= i < 9 implies x.possible_values[i] == y.possible_values[i] by {
                let w = Value::of_digit(i + 1);
                lemma_digit_of_digit(w, i + 1);
                assert(x.has_slot(w) <==> !blocked(g, r, c, w));
                assert(y.has_slot(w) <==> !blocked(g, r, c, w));
                assert(x.possible_values@[i] == Value::Empty || x.possible_values@[i] == w);
                assert(y.possible_values@[i] == Value::Empty || y.possible_values@[i] == w);
            }
            assert(x.possible_values =~= y.possible_values);
        }
        assert(a[r] =~= b[r]);
    }
    assert(a =~= b);
}

} // verus!
