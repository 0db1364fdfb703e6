//! What the operations of the board report.

use crate::value::Value;
use vstd::prelude::*;

verus! {

/// The outcome of placing a value.
#[derive(Clone, Copy, PartialEq, Eq, Structural, Debug)]
pub enum AddResult {
    /// The value was placed and the board still has empty cells.
    Added(Value),
    /// The value to place was `Empty`.
    NoneValue,
    /// The value is no candidate of the cell, or a peer would be left without
    /// any.
    NotPossible,
    /// The cell already holds a value.
    AlreadySet,
    /// The value was placed and filled the last empty cell.
    Solved,
}

/// The outcome of removing a value.
#[derive(Clone, Copy, PartialEq, Eq, Structural, Debug)]
pub enum RemoveResult {
    /// The cell held this value and is empty now.
    Removed(Value),
    /// The cell held no value.
    NoneValue,
    /// The cell is a clue.
    Immutable,
}

/// The outcome of changing a value.
#[derive(Clone, Copy, PartialEq, Eq, Structural, Debug)]
pub enum ChangeResult {
    /// The cell held the first value and holds the second now.
    Changed(Value, Value),
    /// The cell held no value.
    NoneValue,
    /// The new value may not be placed; the cell holds what it held.
    NotPossible,
    /// The cell is a clue.
    Immutable,
    /// The new value was placed and filled the last empty cell.
    Solved,
}

/// Why a puzzle text was not accepted.
#[derive(Clone, Copy, PartialEq, Eq, Structural, Debug)]
pub enum ConfigError {
    /// The text has more than nine lines.
    TooManyLines,
    /// The line with this index, counted from 0, has more than nine fields.
    TooManyColumns(usize),
}

/// The outcome of a search for a solution.
#[derive(Clone, Copy, PartialEq, Eq, Structural, Debug)]
pub enum SolveResult {
    /// The board is full.
    Solved,
    /// The board has no solution; it is as it was.
    Failed,
}

} // verus!
