//! The grid of values as a mathematical object: units, peers, candidates and
//! what placing or clearing a value does to them.

use crate::value::Value;
use vstd::prelude::*;

verus! {

/// Nine rows of nine values each, indexed from 0.
pub type Grid = Seq<Seq<Value>>;

/// `(r, c)` is a position of the grid.
pub open spec fn in_grid(r: int, c: int) -> bool {
    0 <= r < 9 && 0 <= c < 9
}

/// The two positions share a row, a column or a 3x3 box. A position shares
/// all three with itself.
pub open spec fn same_unit(r1: int, c1: int, r2: int, c2: int) -> bool {
    r1 == r2 || c1 == c2 || (r1 / 3 == r2 / 3 && c1 / 3 == c2 / 3)
}

/// The two positions are distinct and share a unit.
pub open spec fn is_peer(r1: int, c1: int, r2: int, c2: int) -> bool {
    same_unit(r1, c1, r2, c2) && !(r1 == r2 && c1 == c2)
}

/// The grid has nine rows of nine values.
pub open spec fn is_grid(g: Grid) -> bool {
    g.len() == 9 && forall|r: int| 0 <= r < 9 ==> (#[trigger] g[r]).len() == 9
}

/// The value at `(r, c)`.
pub open spec fn at(g: Grid, r: int, c: int) -> Value {
    g[r][c]
}

/// Some position in a unit of `(r, c)`, itself included, holds `v`.
pub open spec fn blocked(g: Grid, r: int, c: int, v: Value) -> bool {
    exists|r2: int, c2: int|
        in_grid(r2, c2) && same_unit(r, c, r2, c2) && #[trigger] at(g, r2, c2) == v
}

/// `v` is a candidate of `(r, c)`: the cell is empty and no peer holds the
/// digit `v`.
pub open spec fn candidate(g: Grid, r: int, c: int, v: Value) -> bool {
    at(g, r, c) == Value::Empty && v != Value::Empty && !blocked(g, r, c, v)
}

/// `(r, c)` has a candidate other than `v`.
pub open spec fn has_rival(g: Grid, r: int, c: int, v: Value) -> bool {
    exists|w: Value| w != v && #[trigger] candidate(g, r, c, w)
}

/// `(r, c)` has at least one candidate.
pub open spec fn has_candidate(g: Grid, r: int, c: int) -> bool {
    exists|w: Value| #[trigger] candidate(g, r, c, w)
}

/// The forward check: no peer of `(r, c)` has `v` as its only candidate.
pub open spec fn forward_ok(g: Grid, r: int, c: int, v: Value) -> bool {
    forall|r2: int, c2: int|
        in_grid(r2, c2) && is_peer(r, c, r2, c2) && #[trigger] candidate(g, r2, c2, v)
            ==> has_rival(g, r2, c2, v)
}

/// `v` may be placed at `(r, c)`: it is a candidate there and passes the
/// forward check.
pub open spec fn can_place(g: Grid, r: int, c: int, v: Value) -> bool {
    candidate(g, r, c, v) && forward_ok(g, r, c, v)
}

/// The grid with `v` written at `(r, c)`.
pub open spec fn placed(g: Grid, r: int, c: int, v: Value) -> Grid {
    g.update(r, g[r].update(c, v))
}

/// No digit stands twice in a row, a column or a box.
pub open spec fn no_clash(g: Grid) -> bool {
    forall|r1: int, c1: int, r2: int, c2: int|
        in_grid(r1, c1) && in_grid(r2, c2) && is_peer(r1, c1, r2, c2) && #[trigger] at(g, r1, c1)
            != Value::Empty ==> at(g, r1, c1) != #[trigger] at(g, r2, c2)
}

/// Every empty cell has a candidate.
pub open spec fn live(g: Grid) -> bool {
    forall|r: int, c: int|
        in_grid(r, c) && #[trigger] at(g, r, c) == Value::Empty ==> has_candidate(g, r, c)
}

/// No cell is empty.
pub open spec fn full(g: Grid) -> bool {
    forall|r: int, c: int| in_grid(r, c) ==> #[trigger] at(g, r, c) != Value::Empty
}

/// A grid that a board can be in: no digit twice in a unit, and no empty cell
/// without a candidate.
pub open spec fn valid(g: Grid) -> bool {
    is_grid(g) && no_clash(g) && live(g)
}

/// `s` agrees with `g` wherever `g` holds a value.
pub open spec fn extends(s: Grid, g: Grid) -> bool {
    forall|r: int, c: int|
        in_grid(r, c) && #[trigger] at(g, r, c) != Value::Empty ==> at(s, r, c) == at(g, r, c)
}

/// `s` is a solution of `g`: a full grid without a clash that keeps every value
/// of `g`.
pub open spec fn solves(s: Grid, g: Grid) -> bool {
    is_grid(s) && full(s) && no_clash(s) && extends(s, g)
}

/// `g` has a solution.
pub open spec fn solvable(g: Grid) -> bool {
    exists|s: Grid| solves(s, g)
}

/// What writing a value changes: the one position, and nothing else.
pub proof fn lemma_placed(g: Grid, r: int, c: int, v: Value)
    requires
        is_grid(g),
        in_grid(r, c),
    ensures
        is_grid(placed(g, r, c, v)),
        forall|r2: int, c2: int|
            in_grid(r2, c2) ==> #[trigger] at(placed(g, r, c, v), r2, c2) == if r2 == r && c2
                == c {
                v
            } else {
                at(g, r2, c2)
            },
{
    let p = placed(g, r, c, v);
    assert forall|r2: int| 0 <= r2 < 9 implies (#[trigger] p[r2]).len() == 9 by {
        assert(g[r2].len() == 9);
    }
    assert forall|r2: int, c2: int| in_grid(r2, c2) implies #[trigger] at(p, r2, c2) == if r2 == r
        && c2 == c {
        v
    } else {
        at(g, r2, c2)
    } by {
        assert(g[r2].len() == 9);
    }
}

/// Writing a value and clearing it again gives the grid back.
pub proof fn lemma_placed_cleared(g: Grid, r: int, c: int, v: Value)
    requires
        is_grid(g),
        in_grid(r, c),
    ensures
        placed(placed(g, r, c, v), r, c, at(g, r, c)) == g,
{
    let p = placed(g, r, c, v);
    let q = placed(p, r, c, at(g, r, c));
    assert(q[r] =~= g[r]);
    assert(q =~= g);
}

/// Writing twice at one position leaves what was written last.
pub proof fn lemma_placed_twice(g: Grid, r: int, c: int, v: Value, w: Value)
    requires
        is_grid(g),
        in_grid(r, c),
    ensures
        placed(placed(g, r, c, v), r, c, w) == placed(g, r, c, w),
{
    let p = placed(placed(g, r, c, v), r, c, w);
    let q = placed(g, r, c, w);
    assert(p[r] =~= q[r]);
    assert(p =~= q);
}

/// After `v` is placed in an empty cell, a digit is blocked where it was
/// blocked before, and `v` is blocked in every unit of the cell besides.
pub proof fn lemma_blocked_after_place(g: Grid, r: int, c: int, v: Value)
    requires
        is_grid(g),
        in_grid(r, c),
        at(g, r, c) == Value::Empty,
        v != Value::Empty,
    ensures
        forall|r2: int, c2: int, w: Value|
            in_grid(r2, c2) && w != Value::Empty ==> (#[trigger] blocked(
                placed(g, r, c, v),
                r2,
                c2,
                w,
            ) <==> blocked(g, r2, c2, w) || (w == v && same_unit(r2, c2, r, c))),
{
    let p = placed(g, r, c, v);
    lemma_placed(g, r, c, v);
    assert forall|r2: int, c2: int, w: Value| in_grid(r2, c2) && w != Value::Empty implies (
    #[trigger] blocked(p, r2, c2, w) <==> blocked(g, r2, c2, w) || (w == v && same_unit(
        r2,
        c2,
        r,
        c,
    ))) by {
        if blocked(p, r2, c2, w) {
            let (r3, c3) = choose|r3: int, c3: int|
                in_grid(r3, c3) && same_unit(r2, c2, r3, c3) && #[trigger] at(p, r3, c3) == w;
            if !(r3 == r && c3 == c) {
                assert(at(g, r3, c3) == w);
            }
        }
        if blocked(g, r2, c2, w) {
            let (r3, c3) = choose|r3: int, c3: int|
                in_grid(r3, c3) && same_unit(r2, c2, r3, c3) && #[trigger] at(g, r3, c3) == w;
            assert(at(p, r3, c3) == w);
        }
        if w == v && same_unit(r2, c2, r, c) {
            assert(at(p, r, c) == w);
        }
    }
}

/// After a cell is cleared, nothing is blocked that was not blocked before, and
/// only the digit that the cell held, in the units of the cell, can have become
/// free.
pub proof fn lemma_blocked_after_clear(g: Grid, r: int, c: int)
    requires
        is_grid(g),
        in_grid(r, c),
    ensures
        forall|r2: int, c2: int, w: Value|
            in_grid(r2, c2) && w != Value::Empty && #[trigger] blocked(
                placed(g, r, c, Value::Empty),
                r2,
                c2,
                w,
            ) ==> blocked(g, r2, c2, w),
        forall|r2: int, c2: int, w: Value|
            in_grid(r2, c2) && w != Value::Empty && #[trigger] blocked(g, r2, c2, w) && !(w == at(
                g,
                r,
                c,
            ) && same_unit(r2, c2, r, c)) ==> blocked(placed(g, r, c, Value::Empty), r2, c2, w),
{
    let p = placed(g, r, c, Value::Empty);
    lemma_placed(g, r, c, Value::Empty);
    assert forall|r2: int, c2: int, w: Value|
        in_grid(r2, c2) && w != Value::Empty && #[trigger] blocked(p, r2, c2, w) implies blocked(
        g,
        r2,
        c2,
        w,
    ) by {
        let (r3, c3) = choose|r3: int, c3: int|
            in_grid(r3, c3) && same_unit(r2, c2, r3, c3) && #[trigger] at(p, r3, c3) == w;
        assert(at(g, r3, c3) == w);
    }
    assert forall|r2: int, c2: int, w: Value|
        in_grid(r2, c2) && w != Value::Empty && #[trigger] blocked(g, r2, c2, w) && !(w == at(
            g,
            r,
            c,
        ) && same_unit(r2, c2, r, c)) implies blocked(p, r2, c2, w) by {
        let (r3, c3) = choose|r3: int, c3: int|
            in_grid(r3, c3) && same_unit(r2, c2, r3, c3) && #[trigger] at(g, r3, c3) == w;
        assert(at(p, r3, c3) == w);
    }
}

/// Placing a value that may be placed keeps the grid valid.
pub proof fn lemma_place_keeps_valid(g: Grid, r: int, c: int, v: Value)
    requires
        valid(g),
        in_grid(r, c),
        can_place(g, r, c, v),
    ensures
        valid(placed(g, r, c, v)),
{
    let p = placed(g, r, c, v);
    lemma_placed(g, r, c, v);
    lemma_blocked_after_place(g, r, c, v);
    assert forall|r1: int, c1: int, r2: int, c2: int|
        in_grid(r1, c1) && in_grid(r2, c2) && is_peer(r1, c1, r2, c2) && #[trigger] at(p, r1, c1)
            != Value::Empty implies at(p, r1, c1) != #[trigger] at(p, r2, c2) by {
        if r1 == r && c1 == c {
            if at(g, r2, c2) == v {
                assert(blocked(g, r, c, v));
            }
        } else if r2 == r && c2 == c {
            if at(g, r1, c1) == v {
                assert(blocked(g, r, c, v));
            }
        } else {
            assert(at(g, r1, c1) != at(g, r2, c2));
        }
    }
    assert forall|r2: int, c2: int|
        in_grid(r2, c2) && #[trigger] at(p, r2, c2) == Value::Empty implies has_candidate(
        p,
        r2,
        c2,
    ) by {
        assert(at(g, r2, c2) == Value::Empty);
        assert(has_candidate(g, r2, c2));
        let w0 = choose|w: Value| #[trigger] candidate(g, r2, c2, w);
        if same_unit(r2, c2, r, c) && w0 == v {
            assert(is_peer(r, c, r2, c2));
            assert(has_rival(g, r2, c2, v));
            let w = choose|w: Value| w != v && #[trigger] candidate(g, r2, c2, w);
            assert(!blocked(p, r2, c2, w));
            assert(candidate(p, r2, c2, w));
        } else {
            assert(!blocked(p, r2, c2, w0));
            assert(candidate(p, r2, c2, w0));
        }
    }
}

/// Clearing a cell keeps the grid valid, and the digit that the cell held is
/// a candidate of it afterwards.
pub proof fn lemma_clear_keeps_valid(g: Grid, r: int, c: int)
    requires
        valid(g),
        in_grid(r, c),
        at(g, r, c) != Value::Empty,
    ensures
        valid(placed(g, r, c, Value::Empty)),
        candidate(placed(g, r, c, Value::Empty), r, c, at(g, r, c)),
{
    let p = placed(g, r, c, Value::Empty);
    let v = at(g, r, c);
    lemma_placed(g, r, c, Value::Empty);
    lemma_blocked_after_clear(g, r, c);
    assert forall|r1: int, c1: int, r2: int, c2: int|
        in_grid(r1, c1) && in_grid(r2, c2) && is_peer(r1, c1, r2, c2) && #[trigger] at(p, r1, c1)
            != Value::Empty implies at(p, r1, c1) != #[trigger] at(p, r2, c2) by {
        assert(at(g, r1, c1) != at(g, r2, c2));
    }
    if blocked(p, r, c, v) {
        let (r3, c3) = choose|r3: int, c3: int|
            in_grid(r3, c3) && same_unit(r, c, r3, c3) && #[trigger] at(p, r3, c3) == v;
        assert(at(g, r3, c3) == v);
        assert(is_peer(r, c, r3, c3));
        assert(at(g, r, c) != at(g, r3, c3));
    }
    assert(candidate(p, r, c, v));
    assert forall|r2: int, c2: int|
        in_grid(r2, c2) && #[trigger] at(p, r2, c2) == Value::Empty implies has_candidate(
        p,
        r2,
        c2,
    ) by {
        if r2 == r && c2 == c {
        } else {
            assert(at(g, r2, c2) == Value::Empty);
            assert(has_candidate(g, r2, c2));
            let w0 = choose|w: Value| #[trigger] candidate(g, r2, c2, w);
            if blocked(p, r2, c2, w0) {
                assert(blocked(g, r2, c2, w0));
            }
            assert(candidate(p, r2, c2, w0));
        }
    }
}

/// The number of empty cells among the first `n`, counted row by row.
pub open spec fn empties(g: Grid, n: int) -> nat
    decreases n,
{
    if n <= 0 {
        0
    } else if at(g, (n - 1) / 9, (n - 1) % 9) == Value::Empty {
        empties(g, n - 1) + 1
    } else {
        empties(g, n - 1)
    }
}

/// Filling an empty cell leaves one empty cell fewer.
pub proof fn lemma_empties_placed(g: Grid, r: int, c: int, v: Value, n: int)
    requires
        is_grid(g),
        in_grid(r, c),
        at(g, r, c) == Value::Empty,
        v != Value::Empty,
        0 <= n <= 81,
    ensures
        empties(g, n) == empties(placed(g, r, c, v), n) + if r * 9 + c < n {
            1nat
        } else {
            0nat
        },
    decreases n,
{
    if n > 0 {
        lemma_empties_placed(g, r, c, v, n - 1);
        lemma_placed(g, r, c, v);
        let k = n - 1;
        assert(in_grid(k / 9, k % 9));
        assert(k / 9 == r && k % 9 == c <==> k == r * 9 + c);
    }
}

/// A solution gives each empty cell one of its candidates.
pub proof fn lemma_solution_takes_candidate(s: Grid, g: Grid, r: int, c: int)
    requires
        is_grid(g),
        solves(s, g),
        in_grid(r, c),
        at(g, r, c) == Value::Empty,
    ensures
        candidate(g, r, c, at(s, r, c)),
{
    let v = at(s, r, c);
    if blocked(g, r, c, v) {
        let (r2, c2) = choose|r2: int, c2: int|
            in_grid(r2, c2) && same_unit(r, c, r2, c2) && #[trigger] at(g, r2, c2) == v;
        assert(at(s, r2, c2) == v);
        assert(is_peer(r, c, r2, c2));
        assert(at(s, r, c) != at(s, r2, c2));
    }
}

/// The forward check turns no solution away: where a peer of `(r, c)` has
/// `v` as its only candidate, no solution has `v` at `(r, c)`.
pub proof fn lemma_forward_check_sound(s: Grid, g: Grid, r: int, c: int, v: Value)
    requires
        is_grid(g),
        solves(s, g),
        in_grid(r, c),
        !forward_ok(g, r, c, v),
    ensures
        at(s, r, c) != v,
{
    let (r2, c2) = choose|r2: int, c2: int|
        in_grid(r2, c2) && is_peer(r, c, r2, c2) && #[trigger] candidate(g, r2, c2, v)
            && !has_rival(g, r2, c2, v);
    lemma_solution_takes_candidate(s, g, r2, c2);
    let w = at(s, r2, c2);
    assert(candidate(g, r2, c2, w));
    assert(w == v);
    if at(s, r, c) == v {
        assert(at(s, r, c) != at(s, r2, c2));
    }
}

/// A solution of the grid with a value placed in an empty cell is a solution
/// of the grid, and a solution of the grid is one of the grid with its own
/// value placed there.
pub proof fn lemma_solves_placed(s: Grid, g: Grid, r: int, c: int, v: Value)
    requires
        is_grid(g),
        in_grid(r, c),
        at(g, r, c) == Value::Empty,
    ensures
        solves(s, placed(g, r, c, v)) ==> solves(s, g),
        solves(s, g) && at(s, r, c) == v ==> solves(s, placed(g, r, c, v)),
{
    let p = placed(g, r, c, v);
    lemma_placed(g, r, c, v);
    if solves(s, p) {
        assert forall|r2: int, c2: int|
            in_grid(r2, c2) && #[trigger] at(g, r2, c2) != Value::Empty implies at(s, r2, c2)
            == at(g, r2, c2) by {
            assert(at(p, r2, c2) == at(g, r2, c2));
        }
    }
    if solves(s, g) && at(s, r, c) == v {
        assert forall|r2: int, c2: int|
            in_grid(r2, c2) && #[trigger] at(p, r2, c2) != Value::Empty implies at(s, r2, c2)
            == at(p, r2, c2) by {
            if !(r2 == r && c2 == c) {
                assert(at(g, r2, c2) == at(p, r2, c2));
            }
        }
    }
}

/// A full grid without a clash is its own solution.
pub proof fn lemma_full_solves_itself(g: Grid)
    requires
        is_grid(g),
        full(g),
        no_clash(g),
    ensures
        solves(g, g),
        solvable(g),
{
    assert(solves(g, g));
}

/// `v` is the only candidate of `(r, c)`.
pub open spec fn sole(g: Grid, r: int, c: int, v: Value) -> bool {
    candidate(g, r, c, v) && !has_rival(g, r, c, v)
}

/// A value that is taken off a valid grid may be placed again where it stood.
pub proof fn lemma_can_place_again(g: Grid, r: int, c: int)
    requires
        valid(g),
        in_grid(r, c),
        at(g, r, c) != Value::Empty,
    ensures
        can_place(placed(g, r, c, Value::Empty), r, c, at(g, r, c)),
        placed(placed(g, r, c, Value::Empty), r, c, at(g, r, c)) == g,
{
    let p = placed(g, r, c, Value::Empty);
    let v = at(g, r, c);
    lemma_placed(g, r, c, Value::Empty);
    lemma_clear_keeps_valid(g, r, c);
    lemma_blocked_after_clear(g, r, c);
    lemma_placed_cleared(g, r, c, Value::Empty);
    assert forall|r2: int, c2: int|
        in_grid(r2, c2) && is_peer(r, c, r2, c2) && #[trigger] candidate(p, r2, c2, v) implies has_rival(
        p,
        r2,
        c2,
        v,
    ) by {
        assert(at(g, r2, c2) == Value::Empty);
        assert(has_candidate(g, r2, c2));
        let w0 = choose|w: Value| #[trigger] candidate(g, r2, c2, w);
        assert(blocked(g, r2, c2, v)) by {
            assert(at(g, r, c) == v);
        }
        if blocked(p, r2, c2, w0) {
            assert(blocked(g, r2, c2, w0));
        }
        assert(candidate(p, r2, c2, w0));
    }
}

} // verus!
