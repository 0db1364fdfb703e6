//! The command that changes a value.

use crate::board::SudokuBoard;
use crate::moves::change_outcome;
use crate::commands::command::{index_of, parse_index, Command};
use crate::commands::result::CommandResult;
use crate::grid::{in_grid, placed};
use crate::results::ChangeResult;
use crate::value::Value;
use vstd::prelude::*;

verus! {

/// Changes a value: `c <row> <col> <val>`.
pub struct ChangeCommand;

/// What the command reports for the outcome of changing at `(row, col)`.
pub open spec fn change_report(outcome: ChangeResult, row: usize, col: usize) -> CommandResult {
    match outcome {
        ChangeResult::Changed(old_v, new_v) => CommandResult::ChangeCommandSuccess(
            old_v,
            new_v,
            row,
            col,
        ),
        ChangeResult::NoneValue => CommandResult::ChangeCommandNoneValue,
        ChangeResult::NotPossible => CommandResult::ChangeCommandNotPossible,
        ChangeResult::Immutable => CommandResult::ChangeCommandImmutable,
        ChangeResult::Solved => CommandResult::ChangeCommandSolved,
    }
}

/// What the command reports on `board` for the arguments `row`, `col` and
/// `val`.
pub open spec fn change_command_outcome(
    board: SudokuBoard,
    row: Seq<char>,
    col: Seq<char>,
    val: Seq<char>,
) -> CommandResult {
    match (index_of(row), index_of(col)) {
        (Some(r), Some(c)) => change_report(
            change_outcome(board@, board.cell(r - 1, c - 1), r - 1, c - 1, Value::of_text(val)),
            r,
            c,
        ),
        _ => CommandResult::ParseError,
    }
}

impl Command for ChangeCommand {
    open spec fn arity(&self) -> nat {
        3
    }

    fn name(&self) -> (s: &'static str)
        ensures
            s@ == "c"@,
    {
        "c"
    }

    fn num_args(&self) -> (n: usize) {
        3
    }

    fn usage(&self) -> (s: &'static str)
        ensures
            s@ == "Usage: `c<row><col><val>`"@,
    {
        "Usage: `c<row><col><val>`"
    }

    fn description(&self) -> (s: &'static str)
        ensures
            s@ == "Changes a value on the board"@,
    {
        "Changes a value on the board"
    }

    /// Reads a row, a column and a value, and changes the value there as
    /// `SudokuBoard::change_str` does. A row or column that cannot be read,
    /// or is not from 1 to 9, is a `ParseError` and leaves the board as it
    /// is.
    fn execute(&self, board: &mut SudokuBoard, args: Vec<&str>) -> (res: CommandResult)
        ensures
            res == change_command_outcome(*old(board), args@[0]@, args@[1]@, args@[2]@),
            final(board).indicator == old(board).indicator,
            res is ChangeCommandSuccess || res is ChangeCommandSolved ==> {
                &&& index_of(args@[0]@) is Some
                &&& index_of(args@[1]@) is Some
                &&& final(board)@ == placed(
                    old(board)@,
                    index_of(args@[0]@)->0 - 1,
                    index_of(args@[1]@)->0 - 1,
                    Value::of_text(args@[2]@),
                )
                &&& forall|r: int, c: int|
                    in_grid(r, c) ==> (#[trigger] final(board).cell(r, c)).mutable == old(
                        board,
                    ).cell(r, c).mutable
                &&& final(board).fresh()
            },
            res is ChangeCommandNotPossible ==> {
                &&& final(board).board == old(board).board
                &&& final(board).fresh()
            },
            !(res is ChangeCommandSuccess || res is ChangeCommandSolved
                || res is ChangeCommandNotPossible) ==> *final(board) == *old(board),
    {
        let row = match parse_index(args[0]) {
            Some(n) => n,
            None => {
                return CommandResult::ParseError;
            },
        };
        let col = match parse_index(args[1]) {
            Some(n) => n,
            None => {
                return CommandResult::ParseError;
            },
        };
        let val = args[2];
        match board.change_str(row, col, val) {
            ChangeResult::Changed(rem_v, add_v) => CommandResult::ChangeCommandSuccess(
                rem_v,
                add_v,
                row,
                col,
            ),
            ChangeResult::NoneValue => CommandResult::ChangeCommandNoneValue,
            ChangeResult::NotPossible => CommandResult::ChangeCommandNotPossible,
            ChangeResult::Immutable => CommandResult::ChangeCommandImmutable,
            ChangeResult::Solved => CommandResult::ChangeCommandSolved,
        }
    }
}

} // verus!
