//! What a command reports.

use crate::value::Value;
use vstd::prelude::*;

verus! {

/// The outcome of a command. Where an outcome names a cell, it carries the
/// row and the column after the values, both counted from 1.
#[derive(Clone, Copy, PartialEq, Eq, Structural, Debug)]
pub enum CommandResult {
    /// An argument could not be read, or names no row or column of the
    /// board.
    ParseError,
    AddCommandSuccess(Value, usize, usize),
    AddCommandNoneValue,
    AddCommandNotPossible,
    AddCommandAlreadySet,
    AddCommandSolved,
    RemoveCommandSuccess(Value, usize, usize),
    RemoveCommandNoneValue,
    RemoveCommandImmutable,
    ChangeCommandSuccess(Value, Value, usize, usize),
    ChangeCommandNoneValue,
    ChangeCommandNotPossible,
    ChangeCommandImmutable,
    ChangeCommandSolved,
    SolveCommandSuccess,
    SolveCommandFailure,
    /// The indicator was switched, and stands as the outcome says.
    IndicateCommandSuccess(bool),
}

} // verus!
