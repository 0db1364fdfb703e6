//! The command that removes a value.

use crate::board::SudokuBoard;
use crate::moves::{cells_cleared, remove_outcome};
use crate::commands::command::{index_of, parse_index, Command};
use crate::commands::result::CommandResult;
use crate::grid::placed;
use crate::results::RemoveResult;
use crate::value::Value;
use vstd::prelude::*;

verus! {

/// Removes a value: `r <row> <col>`.
pub struct RemoveCommand;

/// What the command reports for the outcome of removing at `(row, col)`.
pub open spec fn remove_report(outcome: RemoveResult, row: usize, col: usize) -> CommandResult {
    match outcome {
        RemoveResult::Removed(v) => CommandResult::RemoveCommandSuccess(v, row, col),
        RemoveResult::NoneValue => CommandResult::RemoveCommandNoneValue,
        RemoveResult::Immutable => CommandResult::RemoveCommandImmutable,
    }
}

/// What the command reports on `board` for the arguments `row` and `col`.
pub open spec fn remove_command_outcome(
    board: SudokuBoard,
    row: Seq<char>,
    col: Seq<char>,
) -> CommandResult {
    match (index_of(row), index_of(col)) {
        (Some(r), Some(c)) => remove_report(remove_outcome(board.cell(r - 1, c - 1)), r, c),
        _ => CommandResult::ParseError,
    }
}

impl Command for RemoveCommand {
    open spec fn arity(&self) -> nat {
        2
    }

    fn name(&self) -> (s: &'static str)
        ensures
            s@ == "r"@,
    {
        "r"
    }

    fn num_args(&self) -> (n: usize) {
        2
    }

    fn usage(&self) -> (s: &'static str)
        ensures
            s@ == "Usage: `r<row><col>`"@,
    {
        "Usage: `r<row><col>`"
    }

    fn description(&self) -> (s: &'static str)
        ensures
            s@ == "Removes a value from the board"@,
    {
        "Removes a value from the board"
    }

    /// Reads a row and a column, and removes the value there as
    /// `SudokuBoard::remove` does. A row or column that cannot be read, or is
    /// not from 1 to 9, is a `ParseError` and leaves the board as it is.
    fn execute(&self, board: &mut SudokuBoard, args: Vec<&str>) -> (res: CommandResult)
        ensures
            res == remove_command_outcome(*old(board), args@[0]@, args@[1]@),
            final(board).indicator == old(board).indicator,
            res is RemoveCommandSuccess ==> {
                &&& index_of(args@[0]@) is Some
                &&& index_of(args@[1]@) is Some
                &&& final(board)@ == placed(
                    old(board)@,
                    index_of(args@[0]@)->0 - 1,
                    index_of(args@[1]@)->0 - 1,
                    Value::Empty,
                )
                &&& cells_cleared(
                    old(board).board,
                    final(board).board,
                    index_of(args@[0]@)->0 - 1,
                    index_of(args@[1]@)->0 - 1,
                )
                &&& final(board).fresh()
            },
            !(res is RemoveCommandSuccess) ==> *final(board) == *old(board),
    {
        let row = match parse_index(args[0]) {
            Some(n) => n,
            None => {
                return CommandResult::ParseError;
            },
        };
        let col = match parse_index(args[1]) {
            Some(n) => n,
            None => {
                return CommandResult::ParseError;
            },
        };
        match board.remove(row, col) {
            RemoveResult::Removed(v) => CommandResult::RemoveCommandSuccess(v, row, col),
            RemoveResult::NoneValue => CommandResult::RemoveCommandNoneValue,
            RemoveResult::Immutable => CommandResult::RemoveCommandImmutable,
        }
    }
}

} // verus!
