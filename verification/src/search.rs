//! The search as a function of the grid: which cell is tried next, which
//! digits are tried in it, and which solution comes out.

use crate::board::{cells_agree, entry_of, frontier_upto, grid_of, lemma_frontier_upto};
use crate::cell::{open_slots, Cell};
use crate::grid::{
    at, blocked, can_place, candidate, empties, full, has_candidate, in_grid, is_grid, placed,
    solvable, solves, valid, Grid,
};
use crate::grid::{
    lemma_empties_placed, lemma_forward_check_sound, lemma_full_solves_itself,
    lemma_place_keeps_valid, lemma_solution_takes_candidate, lemma_solves_placed,
};
use crate::possible_cell_values::{is_mrv, mrv_index, rank, Entry};
use crate::value::{lemma_digit_of_digit, Value};
use vstd::prelude::*;

verus! {

/// The number of candidates of `(r, c)` among the digits from 1 to `n`.
pub open spec fn count_upto(g: Grid, r: int, c: int, n: int) -> nat
    decreases n,
{
    if n <= 0 {
        0
    } else if candidate(g, r, c, Value::of_digit(n)) {
        count_upto(g, r, c, n - 1) + 1
    } else {
        count_upto(g, r, c, n - 1)
    }
}

/// The number of candidates of `(r, c)`.
pub open spec fn candidate_count(g: Grid, r: int, c: int) -> nat {
    count_upto(g, r, c, 9)
}

/// `(r, c)` is the cell that the search tries next: it has a candidate, no
/// cell with a candidate has fewer, and of those with equally few it is the
/// first, row by row and from left to right.
pub open spec fn is_next(g: Grid, r: int, c: int) -> bool {
    &&& in_grid(r, c)
    &&& candidate_count(g, r, c) > 0
    &&& forall|r2: int, c2: int|
        in_grid(r2, c2) && #[trigger] candidate_count(g, r2, c2) > 0 ==> {
            ||| candidate_count(g, r, c) < candidate_count(g, r2, c2)
            ||| candidate_count(g, r, c) == candidate_count(g, r2, c2) && r * 9 + c <= r2 * 9
                + c2
        }
}

/// Some cell has a candidate, so that there is a cell to try next.
pub open spec fn has_next(g: Grid) -> bool {
    exists|r: int, c: int| is_next(g, r, c)
}

/// The cell that the search tries next, as row and column.
pub open spec fn next_cell(g: Grid) -> (int, int) {
    choose|p: (int, int)| is_next(g, p.0, p.1)
}

/// The solution that the search finds for `g`, if it finds one.
///
/// Where no cell has a candidate, a full grid is its own solution and any
/// other has none. Otherwise the digits are tried in the next cell from 1
/// upwards.
pub open spec fn search(g: Grid) -> Option<Grid>
    decreases empties(g, 81), 10int,
{
    if has_next(g) {
        try_from(g, next_cell(g).0, next_cell(g).1, 1)
    } else if full(g) {
        Some(g)
    } else {
        None
    }
}

/// The solution that the search finds by trying the digits from `d` upwards
/// at `(r, c)`: the first digit that may be placed and whose grid the search
/// solves decides.
pub open spec fn try_from(g: Grid, r: int, c: int, d: int) -> Option<Grid>
    decreases empties(g, 81), 10 - d,
{
    if 1 <= d <= 9 && is_grid(g) && in_grid(r, c) {
        if can_place(g, r, c, Value::of_digit(d)) {
            proof {
                lemma_digit_of_digit(Value::of_digit(d), d);
                lemma_empties_placed(g, r, c, Value::of_digit(d), 81);
            }
            match search(placed(g, r, c, Value::of_digit(d))) {
                Some(s) => Some(s),
                None => try_from(g, r, c, d + 1),
            }
        } else {
            try_from(g, r, c, d + 1)
        }
    } else {
        None
    }
}

/// The solution that the search finds on a board with the grid `g` and the
/// frontier `f`: it starts with the cell that is taken from the frontier,
/// and an empty frontier leaves nothing to try.
pub open spec fn search_from(g: Grid, f: Seq<Entry>) -> Option<Grid> {
    if f.len() > 0 {
        try_from(g, f[mrv_index(f)].row - 1, f[mrv_index(f)].col - 1, 1)
    } else if full(g) {
        Some(g)
    } else {
        None
    }
}

/// Some digit may be placed at `(r, c)`.
pub open spec fn can_place_some(g: Grid, r: int, c: int) -> bool {
    exists|v: Value| #[trigger] can_place(g, r, c, v)
}

/// At most one cell is the next.
pub proof fn lemma_next_unique(g: Grid, r1: int, c1: int, r2: int, c2: int)
    requires
        is_next(g, r1, c1),
        is_next(g, r2, c2),
    ensures
        r1 == r2,
        c1 == c2,
{
    assert(candidate_count(g, r2, c2) > 0);
    assert(candidate_count(g, r1, c1) > 0);
}

/// The cell that is the next is the one that `next_cell` names.
pub proof fn lemma_next_cell(g: Grid, r: int, c: int)
    requires
        is_next(g, r, c),
    ensures
        has_next(g),
        next_cell(g) == (r, c),
{
    let p = (r, c);
    assert(is_next(g, p.0, p.1));
    let q = next_cell(g);
    lemma_next_unique(g, r, c, q.0, q.1);
}

/// A cell that holds a value has no candidate.
pub proof fn lemma_count_of_filled(g: Grid, r: int, c: int, n: int)
    requires
        at(g, r, c) != Value::Empty,
    ensures
        count_upto(g, r, c, n) == 0,
    decreases n,
{
    if n > 0 {
        lemma_count_of_filled(g, r, c, n - 1);
    }
}

/// The search leaves a full grid as it is.
pub proof fn lemma_search_of_full(g: Grid)
    requires
        full(g),
    ensures
        search(g) == Some(g),
{
    assert forall|r: int, c: int| !is_next(g, r, c) by {
        if in_grid(r, c) {
            lemma_count_of_filled(g, r, c, 9);
        }
    }
}

/// Digits that may not be placed are passed over.
pub proof fn lemma_try_skips(g: Grid, r: int, c: int, lo: int, hi: int)
    requires
        1 <= lo <= hi <= 10,
        is_grid(g),
        in_grid(r, c),
        forall|d: int| lo <= d < hi ==> !candidate(g, r, c, #[trigger] Value::of_digit(d)),
    ensures
        try_from(g, r, c, lo) == try_from(g, r, c, hi),
    decreases hi - lo,
{
    if lo < hi {
        assert(!candidate(g, r, c, Value::of_digit(lo)));
        lemma_try_skips(g, r, c, lo + 1, hi);
    }
}

/// The open slots of a cell are as many as the grid gives it candidates.
pub proof fn lemma_count_is_open_slots(cells: [[Cell; 9]; 9], r: int, c: int, n: int)
    requires
        cells_agree(cells),
        in_grid(r, c),
        cells@[r]@[c].value == Value::Empty,
        0 <= n <= 9,
    ensures
        open_slots(cells@[r]@[c].possible_values@, n).len() == count_upto(grid_of(cells), r, c, n),
    decreases n,
{
    if n > 0 {
        lemma_count_is_open_slots(cells, r, c, n - 1);
        let v = Value::of_digit(n);
        lemma_digit_of_digit(v, n);
        assert(cells@[r]@[c].has_slot(v) <==> !blocked(grid_of(cells), r, c, v));
        assert(at(grid_of(cells), r, c) == Value::Empty);
    }
}

/// The candidate list of a cell is as long as the grid gives it candidates.
pub proof fn lemma_count_is_list_len(cells: [[Cell; 9]; 9], r: int, c: int)
    requires
        cells_agree(cells),
        in_grid(r, c),
    ensures
        cells@[r]@[c].candidate_list().len() == candidate_count(grid_of(cells), r, c),
{
    if cells@[r]@[c].value == Value::Empty {
        lemma_count_is_open_slots(cells, r, c, 9);
    } else {
        assert(at(grid_of(cells), r, c) == cells@[r]@[c].value);
        lemma_count_of_filled(grid_of(cells), r, c, 9);
    }
}

/// A list made anew names every cell that has a candidate.
pub proof fn lemma_frontier_lists_all(cells: [[Cell; 9]; 9], n: int, k: int)
    requires
        0 <= k < n <= 81,
        entry_of(cells, k).values.len() > 0,
    ensures
        exists|j: int|
            0 <= j < frontier_upto(cells, n).len() && #[trigger] frontier_upto(cells, n)[j]
                == entry_of(cells, k),
    decreases n,
{
    let f = frontier_upto(cells, n);
    if k == n - 1 {
        assert(f[f.len() - 1] == entry_of(cells, k));
    } else {
        lemma_frontier_lists_all(cells, n - 1, k);
        let j = choose|j: int|
            0 <= j < frontier_upto(cells, n - 1).len() && #[trigger] frontier_upto(cells, n - 1)[j]
                == entry_of(cells, k);
        assert(f[j] == entry_of(cells, k));
    }
}

/// The entry that is taken from a list made anew names the cell that the
/// search tries next.
pub proof fn lemma_mrv_is_next(cells: [[Cell; 9]; 9], i: int)
    requires
        cells_agree(cells),
        is_mrv(frontier_upto(cells, 81), i),
    ensures
        is_next(
            grid_of(cells),
            frontier_upto(cells, 81)[i].row - 1,
            frontier_upto(cells, 81)[i].col - 1,
        ),
{
    let g = grid_of(cells);
    let f = frontier_upto(cells, 81);
    let e = f[i];
    let r = e.row - 1;
    let c = e.col - 1;
    lemma_frontier_upto(cells, 81);
    assert(in_grid(r, c));
    lemma_count_is_list_len(cells, r, c);
    assert forall|r2: int, c2: int|
        in_grid(r2, c2) && #[trigger] candidate_count(g, r2, c2) > 0 implies {
        ||| candidate_count(g, r, c) < candidate_count(g, r2, c2)
        ||| candidate_count(g, r, c) == candidate_count(g, r2, c2) && r * 9 + c <= r2 * 9 + c2
    } by {
        lemma_count_is_list_len(cells, r2, c2);
        let k = r2 * 9 + c2;
        assert(k / 9 == r2 && k % 9 == c2);
        lemma_frontier_lists_all(cells, 81, k);
        let j = choose|j: int| 0 <= j < f.len() && #[trigger] f[j] == entry_of(cells, k);
        assert(f[i].values.len() <= f[j].values.len());
        if j < i {
            assert(f[i].values.len() < f[j].values.len());
        } else if i < j {
            assert(rank(f[i]) < rank(f[j]));
        }
    }
}

/// Where a list made anew is empty, the search has no cell to try.
pub proof fn lemma_empty_frontier_has_no_next(cells: [[Cell; 9]; 9])
    requires
        cells_agree(cells),
        frontier_upto(cells, 81).len() == 0,
    ensures
        !has_next(grid_of(cells)),
{
    let g = grid_of(cells);
    assert forall|r: int, c: int| !is_next(g, r, c) by {
        if is_next(g, r, c) {
            lemma_count_is_list_len(cells, r, c);
            let k = r * 9 + c;
            assert(k / 9 == r && k % 9 == c);
            lemma_frontier_lists_all(cells, 81, k);
        }
    }
}

/// A list that names no cell with a candidate shows that no cell among those
/// it covers has one.
pub proof fn lemma_empty_frontier(cells: [[Cell; 9]; 9], n: int)
    requires
        0 <= n <= 81,
        frontier_upto(cells, n).len() == 0,
    ensures
        forall|k: int| 0 <= k < n ==> (#[trigger] entry_of(cells, k)).values.len() == 0,
    decreases n,
{
    if n > 0 {
        if entry_of(cells, n - 1).values.len() > 0 {
            assert(frontier_upto(cells, n).len() > 0);
        }
        lemma_empty_frontier(cells, n - 1);
    }
}

/// The list of a full board, made anew, is empty.
pub proof fn lemma_frontier_of_full(cells: [[Cell; 9]; 9], n: int)
    requires
        0 <= n <= 81,
        full(grid_of(cells)),
    ensures
        frontier_upto(cells, n) == Seq::<Entry>::empty(),
    decreases n,
{
    if n > 0 {
        lemma_frontier_of_full(cells, n - 1);
        let k = n - 1;
        assert(in_grid(k / 9, k % 9));
        assert(at(grid_of(cells), k / 9, k % 9) == cells@[k / 9]@[k % 9].value);
    }
}

/// The cell `k1` comes before the cell `k2` in the order of the search, both
/// counted row by row from 0: it has fewer candidates, or as many and stands
/// no later.
pub open spec fn comes_first(g: Grid, k1: int, k2: int) -> bool {
    ||| candidate_count(g, k1 / 9, k1 % 9) < candidate_count(g, k2 / 9, k2 % 9)
    ||| candidate_count(g, k1 / 9, k1 % 9) == candidate_count(g, k2 / 9, k2 % 9) && k1 <= k2
}

/// Among the first `n` cells, if any has a candidate, one of those comes
/// first.
pub proof fn lemma_first_upto(g: Grid, n: int) -> (m: int)
    requires
        0 <= n <= 81,
        exists|k: int| 0 <= k < n && #[trigger] candidate_count(g, k / 9, k % 9) > 0,
    ensures
        0 <= m < n,
        candidate_count(g, m / 9, m % 9) > 0,
        forall|k: int|
            0 <= k < n && #[trigger] candidate_count(g, k / 9, k % 9) > 0 ==> comes_first(g, m, k),
    decreases n,
{
    let last = n - 1;
    if exists|k: int| 0 <= k < last && #[trigger] candidate_count(g, k / 9, k % 9) > 0 {
        let m0 = lemma_first_upto(g, last);
        if candidate_count(g, last / 9, last % 9) > 0 && candidate_count(g, last / 9, last % 9)
            < candidate_count(g, m0 / 9, m0 % 9) {
            assert forall|k: int|
                0 <= k < n && #[trigger] candidate_count(g, k / 9, k % 9) > 0 implies comes_first(
                g,
                last,
                k,
            ) by {
                if k < last {
                    assert(comes_first(g, m0, k));
                }
            }
            last
        } else {
            assert forall|k: int|
                0 <= k < n && #[trigger] candidate_count(g, k / 9, k % 9) > 0 implies comes_first(
                g,
                m0,
                k,
            ) by {
                if k < last {
                    assert(comes_first(g, m0, k));
                }
            }
            m0
        }
    } else {
        let k0 = choose|k: int| 0 <= k < n && #[trigger] candidate_count(g, k / 9, k % 9) > 0;
        assert(k0 == last);
        last
    }
}

/// Where some cell has a candidate, the search has a cell to try.
pub proof fn lemma_has_next(g: Grid, r: int, c: int)
    requires
        in_grid(r, c),
        candidate_count(g, r, c) > 0,
    ensures
        has_next(g),
{
    let k0 = r * 9 + c;
    assert(k0 / 9 == r && k0 % 9 == c);
    assert(candidate_count(g, k0 / 9, k0 % 9) > 0);
    let m = lemma_first_upto(g, 81);
    assert forall|r2: int, c2: int|
        in_grid(r2, c2) && #[trigger] candidate_count(g, r2, c2) > 0 implies {
        ||| candidate_count(g, m / 9, m % 9) < candidate_count(g, r2, c2)
        ||| candidate_count(g, m / 9, m % 9) == candidate_count(g, r2, c2) && (m / 9) * 9 + m % 9
            <= r2 * 9 + c2
    } by {
        let k = r2 * 9 + c2;
        assert(k / 9 == r2 && k % 9 == c2);
        assert(candidate_count(g, k / 9, k % 9) > 0);
        assert(comes_first(g, m, k));
    }
    assert(is_next(g, m / 9, m % 9));
}

/// A cell with a candidate among the digits up to `n` counts at least one.
pub proof fn lemma_count_of_candidate(g: Grid, r: int, c: int, n: int, d: int)
    requires
        1 <= d <= n,
        candidate(g, r, c, Value::of_digit(d)),
    ensures
        count_upto(g, r, c, n) > 0,
    decreases n,
{
    if d < n {
        lemma_count_of_candidate(g, r, c, n - 1, d);
    }
}

/// What trying the digits from `d` upwards in an empty cell finds is a
/// solution, and where it finds none, no solution has a digit from `d`
/// upwards in that cell.
pub proof fn lemma_try_from(g: Grid, r: int, c: int, d: int)
    requires
        valid(g),
        in_grid(r, c),
        at(g, r, c) == Value::Empty,
        1 <= d <= 10,
    ensures
        try_from(g, r, c, d) matches Some(s) ==> solves(s, g),
        try_from(g, r, c, d) is None ==> forall|s: Grid| #[trigger]
            solves(s, g) ==> at(s, r, c).digit() < d,
    decreases empties(g, 81), 10 - d,
{
    if d <= 9 {
        let v = Value::of_digit(d);
        lemma_digit_of_digit(v, d);
        lemma_try_from(g, r, c, d + 1);
        if can_place(g, r, c, v) {
            let p = placed(g, r, c, v);
            lemma_place_keeps_valid(g, r, c, v);
            lemma_empties_placed(g, r, c, v, 81);
            law_search_finds_what_there_is(p);
            match search(p) {
                Some(s) => {
                    lemma_solves_placed(s, g, r, c, v);
                },
                None => {
                    assert forall|s: Grid| #[trigger] solves(s, g) implies at(s, r, c) != v by {
                        if at(s, r, c) == v {
                            lemma_solves_placed(s, g, r, c, v);
                            assert(solves(s, p));
                        }
                    }
                },
            }
        } else {
            assert forall|s: Grid| #[trigger] solves(s, g) implies at(s, r, c) != v by {
                if at(s, r, c) == v {
                    lemma_solution_takes_candidate(s, g, r, c);
                    lemma_forward_check_sound(s, g, r, c, v);
                }
            }
        }
        if try_from(g, r, c, d) is None {
            assert forall|s: Grid| #[trigger] solves(s, g) implies at(s, r, c).digit() < d by {
                assert(at(s, r, c).digit() < d + 1);
                lemma_digit_of_digit(at(s, r, c), d);
            }
        }
    } else {
        assert forall|s: Grid| #[trigger] solves(s, g) implies at(s, r, c).digit() < d by {
            lemma_digit_of_digit(at(s, r, c), d);
        }
    }
}

/// The search finds a solution exactly if there is one: what it returns for
/// a valid grid is a solution of that grid, and where it returns none, the
/// grid has none.
pub proof fn law_search_finds_what_there_is(g: Grid)
    requires
        valid(g),
    ensures
        search(g) matches Some(s) ==> solves(s, g),
        search(g) is None ==> !solvable(g),
        search(g) is Some <==> solvable(g),
    decreases empties(g, 81), 10int,
{
    if has_next(g) {
        let (r, c) = choose|r: int, c: int| is_next(g, r, c);
        lemma_next_cell(g, r, c);
        if at(g, r, c) != Value::Empty {
            lemma_count_of_filled(g, r, c, 9);
        }
        lemma_try_from(g, r, c, 1);
        if search(g) is None {
            assert forall|s: Grid| !solves(s, g) by {
                if solves(s, g) {
                    assert(at(s, r, c).digit() < 1);
                    assert(at(s, r, c) != Value::Empty);
                }
            }
        }
    } else if full(g) {
        lemma_full_solves_itself(g);
    } else {
        let (r, c) = choose|r: int, c: int| in_grid(r, c) && #[trigger] at(g, r, c) == Value::Empty;
        assert(has_candidate(g, r, c));
        let w = choose|w: Value| #[trigger] candidate(g, r, c, w);
        lemma_digit_of_digit(w, 0);
        lemma_count_of_candidate(g, r, c, 9, w.digit() as int);
        lemma_has_next(g, r, c);
    }
    match search(g) {
        Some(s) => {
            assert(solves(s, g));
        },
        None => {},
    }
}

} // verus!
