//! Making a board from the text of a puzzle.

use crate::board::{clues_are_values, empty_grid, lemma_flag_free, lemma_same_values, SudokuBoard};
use crate::grid::{at, can_place, in_grid, lemma_placed, placed, Grid};
use crate::moves::{add_outcome, cells_placed, change_outcome};
use crate::results::{AddResult, ChangeResult, ConfigError};
use crate::text::{line_values, parse_line};
use crate::value::Value;
use vstd::prelude::*;

verus! {

/// The grid after an attempt to place `v` at `(r, c)`: with `v` there if it
/// may be placed, and as it was if not.
pub open spec fn place_if_possible(g: Grid, r: int, c: int, v: Value) -> Grid {
    if v != Value::Empty && can_place(g, r, c, v) {
        placed(g, r, c, v)
    } else {
        g
    }
}

/// The grid after the first `n` values of `vals` were tried from left to right
/// in row `r`.
pub open spec fn load_row(g: Grid, r: int, vals: Seq<Value>, n: int) -> Grid
    decreases n,
{
    if n <= 0 {
        g
    } else {
        place_if_possible(load_row(g, r, vals, n - 1), r, n - 1, vals[n - 1])
    }
}

/// The grid after the first `n` lines were tried from the top on an empty
/// grid.
pub open spec fn load_lines(lines: Seq<&str>, n: int) -> Grid
    decreases n,
{
    if n <= 0 {
        empty_grid()
    } else {
        let vals = line_values(lines[n - 1]@);
        load_row(load_lines(lines, n - 1), n - 1, vals, vals.len() as int)
    }
}

/// The line `i` has more than nine fields, and no line before it has.
pub open spec fn first_long_line(lines: Seq<&str>, i: int) -> bool {
    &&& 0 <= i < lines.len()
    &&& line_values(lines[i]@).len() > 9
    &&& forall|j: int| 0 <= j < i ==> line_values(#[trigger] lines[j]@).len() <= 9
}

impl SudokuBoard {
    /// Creates a board from the lines of a puzzle text.
    ///
    /// Line `i` fills row `i`, field by field from the left; a field that
    /// names a digit is placed as `add` places it and becomes a clue, a field
    /// that names none leaves its cell empty, and so does a digit that may not
    /// be placed. More than nine lines, or more than nine fields in a line,
    /// are an error.
    pub fn new(lines: Vec<&str>) -> (res: Result<SudokuBoard, ConfigError>)
        ensures
            lines@.len() > 9 <==> res == Err::<SudokuBoard, ConfigError>(ConfigError::TooManyLines),
            forall|i: usize|
                lines@.len() <= 9 && first_long_line(lines@, i as int) <==> res == Err::<
                    SudokuBoard,
                    ConfigError,
                >(ConfigError::TooManyColumns(i)),
            res is Ok <==> lines@.len() <= 9 && forall|j: int|
                0 <= j < lines@.len() ==> line_values(#[trigger] lines@[j]@).len() <= 9,
            res matches Ok(board) ==> {
                &&& board.wf()
                &&& board.fresh()
                &&& board.indicator
                &&& board@ == load_lines(lines@, lines@.len() as int)
                &&& clues_are_values(board.board)
            },
    {
        if lines.len() > 9 {
            return Err(ConfigError::TooManyLines);
        }
        let mut board = SudokuBoard::blank();
        let mut row: usize = 0;
        while row < lines.len()
            invariant
                row <= lines@.len() <= 9,
                board.wf(),
                board.indicator,
                board@ == load_lines(lines@, row as int),
                clues_are_values(board.board),
                forall|j: int| 0 <= j < row ==> line_values(#[trigger] lines@[j]@).len() <= 9,
            decreases lines@.len() - row,
        {
            let values = parse_line(lines[row]);
            if values.len() > 9 {
                assert(first_long_line(lines@, row as int));
                assert forall|i: int| first_long_line(lines@, i) implies i == row by {
                    if i < row {
                        assert(line_values(lines@[i]@).len() <= 9);
                    }
                    if row < i {
                        assert(line_values(lines@[row as int]@).len() <= 9);
                    }
                }
                return Err(ConfigError::TooManyColumns(row));
            }
            let mut col: usize = 0;
            while col < values.len()
                invariant
                    row < lines@.len() <= 9,
                    col <= values@.len() <= 9,
                    values@ == line_values(lines@[row as int]@),
                    board.wf(),
                    board.indicator,
                    board@ == load_row(
                        load_lines(lines@, row as int),
                        row as int,
                        values@,
                        col as int,
                    ),
                    clues_are_values(board.board),
                decreases values@.len() - col,
            {
                let ghost before = board;
                match board.add(row + 1, col + 1, values[col]) {
                    AddResult::Added(_) | AddResult::Solved => {
                        let ghost mid = board;
                        board.board[row][col].set_immutable();
                        proof {
                            before.lemma_view();
                            lemma_placed(before@, row as int, col as int, values@[col as int]);
                            assert forall|r: int, c: int| in_grid(r, c) implies {
                                &&& (#[trigger] board.board@[r]@[c]).value == mid.board@[r]@[c].value
                                &&& board.board@[r]@[c].possible_values
                                    == mid.board@[r]@[c].possible_values
                                &&& board.board@[r]@[c].mutable == (board.board@[r]@[c].value
                                    == Value::Empty)
                            } by {
                                assert(at(mid@, r, c) == mid.board@[r]@[c].value);
                                assert(at(before@, r, c) == before.board@[r]@[c].value);
                            }
                            lemma_same_values(board.board, mid.board);
                            lemma_flag_free(mid.board, board.board);
                        }
                    },
                    _ => {},
                }
                col += 1;
            }
            row += 1;
        }
        board.update_possible_value_heap();
        assert forall|i: int| !first_long_line(lines@, i) by {
            if first_long_line(lines@, i) {
                assert(line_values(lines@[i]@).len() <= 9);
            }
        }
        Ok(board)
    }

    /// Places the value that the text `val` names at `(row, col)`, both
    /// counted from 1: see `add`.
    pub fn add_str(&mut self, row: usize, col: usize, val: &str) -> (res: AddResult)
        requires
            old(self).wf(),
            1 <= row <= 9,
            1 <= col <= 9,
        ensures
            final(self).wf(),
            res == add_outcome(old(self)@, row - 1, col - 1, Value::of_text(val@)),
            final(self).indicator == old(self).indicator,
            res is Added || res is Solved ==> {
                &&& final(self)@ == placed(old(self)@, row - 1, col - 1, Value::of_text(val@))
                &&& cells_placed(
                    old(self).board,
                    final(self).board,
                    row - 1,
                    col - 1,
                    Value::of_text(val@),
                )
                &&& final(self).fresh()
            },
            !(res is Added || res is Solved) ==> *final(self) == *old(self),
    {
        self.add(row, col, Value::from(val))
    }

    /// Changes the value at `(row, col)`, both counted from 1, to the value
    /// that the text `val` names: see `change`.
    pub fn change_str(&mut self, row: usize, col: usize, val: &str) -> (res: ChangeResult)
        requires
            old(self).wf(),
            1 <= row <= 9,
            1 <= col <= 9,
        ensures
            final(self).wf(),
            res == change_outcome(
                old(self)@,
                old(self).cell(row - 1, col - 1),
                row - 1,
                col - 1,
                Value::of_text(val@),
            ),
            final(self).indicator == old(self).indicator,
            res is Changed || res is Solved ==> {
                &&& final(self)@ == placed(old(self)@, row - 1, col - 1, Value::of_text(val@))
                &&& forall|r: int, c: int|
                    in_grid(r, c) ==> (#[trigger] final(self).cell(r, c)).mutable == old(
                        self,
                    ).cell(r, c).mutable
                &&& final(self).fresh()
            },
            res is NotPossible ==> {
                &&& final(self).board == old(self).board
                &&& final(self)@ == old(self)@
                &&& final(self).fresh()
            },
            res is Immutable || res is NoneValue ==> *final(self) == *old(self),
            !old(self).cell(row - 1, col - 1).mutable ==> res is Immutable && *final(self) == *old(
                self,
            ),
            Value::of_text(val@) == Value::Empty ==> {
                &&& *final(self) == *old(self)
                &&& res == if old(self).cell(row - 1, col - 1).mutable {
                    ChangeResult::NoneValue
                } else {
                    ChangeResult::Immutable
                }
            },
    {
        self.change(row, col, Value::from(val))
    }
}

} // verus!
