//! The command that places a value.

use crate::board::SudokuBoard;
use crate::moves::{add_outcome, cells_placed};
use crate::commands::command::{index_of, parse_index, Command};
use crate::commands::result::CommandResult;
use crate::grid::{placed, Grid};
use crate::results::AddResult;
use crate::value::Value;
use vstd::prelude::*;

verus! {

/// Places a value: `a <row> <col> <val>`.
pub struct AddCommand;

/// What the command reports for the outcome of placing at `(row, col)`.
pub open spec fn add_report(outcome: AddResult, row: usize, col: usize) -> CommandResult {
    match outcome {
        AddResult::Added(v) => CommandResult::AddCommandSuccess(v, row, col),
        AddResult::NoneValue => CommandResult::AddCommandNoneValue,
        AddResult::NotPossible => CommandResult::AddCommandNotPossible,
        AddResult::AlreadySet => CommandResult::AddCommandAlreadySet,
        AddResult::Solved => CommandResult::AddCommandSolved,
    }
}

/// What the command reports on the grid `g` for the arguments `row`, `col`
/// and `val`.
pub open spec fn add_command_outcome(
    g: Grid,
    row: Seq<char>,
    col: Seq<char>,
    val: Seq<char>,
) -> CommandResult {
    match (index_of(row), index_of(col)) {
        (Some(r), Some(c)) => add_report(add_outcome(g, r - 1, c - 1, Value::of_text(val)), r, c),
        _ => CommandResult::ParseError,
    }
}

impl Command for AddCommand {
    open spec fn arity(&self) -> nat {
        3
    }

    fn name(&self) -> (s: &'static str)
        ensures
            s@ == "a"@,
    {
        "a"
    }

    fn num_args(&self) -> (n: usize) {
        3
    }

    fn usage(&self) -> (s: &'static str)
        ensures
            s@ == "Usage: `a<row><col><val>`"@,
    {
        "Usage: `a<row><col><val>`"
    }

    fn description(&self) -> (s: &'static str)
        ensures
            s@ == "Adds a value to the board"@,
    {
        "Adds a value to the board"
    }

    /// Reads a row, a column and a value, and places the value as
    /// `SudokuBoard::add_str` does. A row or column that cannot be read, or is
    /// not from 1 to 9, is a `ParseError` and leaves the board as it is.
    fn execute(&self, board: &mut SudokuBoard, args: Vec<&str>) -> (res: CommandResult)
        ensures
            res == add_command_outcome(old(board)@, args@[0]@, args@[1]@, args@[2]@),
            final(board).indicator == old(board).indicator,
            res is AddCommandSuccess || res is AddCommandSolved ==> {
                &&& index_of(args@[0]@) is Some
                &&& index_of(args@[1]@) is Some
                &&& final(board)@ == placed(
                    old(board)@,
                    index_of(args@[0]@)->0 - 1,
                    index_of(args@[1]@)->0 - 1,
                    Value::of_text(args@[2]@),
                )
                &&& cells_placed(
                    old(board).board,
                    final(board).board,
                    index_of(args@[0]@)->0 - 1,
                    index_of(args@[1]@)->0 - 1,
                    Value::of_text(args@[2]@),
                )
                &&& final(board).fresh()
            },
            !(res is AddCommandSuccess || res is AddCommandSolved) ==> *final(board) == *old(board),
    {
        let row = match parse_index(args[0]) {
            Some(n) => n,
            None => {
                return CommandResult::ParseError;
            },
        };
        let col = match parse_index(args[1]) {
            Some(n) => n,
            None => {
                return CommandResult::ParseError;
            },
        };
        let val = args[2];
        match board.add_str(row, col, val) {
            AddResult::Added(v) => CommandResult::AddCommandSuccess(v, row, col),
            AddResult::NoneValue => CommandResult::AddCommandNoneValue,
            AddResult::NotPossible => CommandResult::AddCommandNotPossible,
            AddResult::AlreadySet => CommandResult::AddCommandAlreadySet,
            AddResult::Solved => CommandResult::AddCommandSolved,
        }
    }
}

} // verus!
