//! The command that searches for a solution.

use crate::board::SudokuBoard;
use crate::commands::command::Command;
use crate::commands::result::CommandResult;
use crate::grid::{in_grid, solvable, solves};
use crate::results::SolveResult;
use crate::search::{search, search_from};
use crate::solver::{frontier_after_failure, solve};
use vstd::prelude::*;

verus! {

/// Solves the board: `solve`.
pub struct SolveCommand;

impl Command for SolveCommand {
    open spec fn arity(&self) -> nat {
        0
    }

    fn name(&self) -> (s: &'static str)
        ensures
            s@ == "solve"@,
    {
        "solve"
    }

    fn num_args(&self) -> (n: usize) {
        0
    }

    fn usage(&self) -> (s: &'static str)
        ensures
            s@ == "Usage: `solve`"@,
    {
        "Usage: `solve`"
    }

    fn description(&self) -> (s: &'static str)
        ensures
            s@ == "Solves the current board"@,
    {
        "Solves the current board"
    }

    /// Searches for a solution as `solve` does: success leaves the solution
    /// that the search finds on the board, failure leaves the cells as they
    /// were.
    fn execute(&self, board: &mut SudokuBoard, args: Vec<&str>) -> (res: CommandResult)
        ensures
            final(board).indicator == old(board).indicator,
            forall|r: int, c: int|
                in_grid(r, c) ==> (#[trigger] final(board).cell(r, c)).mutable == old(board).cell(
                    r,
                    c,
                ).mutable,
            match search_from(old(board)@, old(board).frontier()) {
                Some(s) => res is SolveCommandSuccess && final(board)@ == s,
                None => res is SolveCommandFailure,
            },
            old(board).fresh() ==> search_from(old(board)@, old(board).frontier()) == search(
                old(board)@,
            ),
            old(board).fresh() ==> (res is SolveCommandSuccess <==> solvable(old(board)@)),
            res is SolveCommandSuccess ==> {
                &&& solves(final(board)@, old(board)@)
                &&& final(board).fresh()
            },
            res is SolveCommandFailure ==> {
                &&& final(board).board == old(board).board
                &&& final(board).frontier() == frontier_after_failure(*old(board))
            },
    {
        match solve(board) {
            SolveResult::Solved => CommandResult::SolveCommandSuccess,
            SolveResult::Failed => CommandResult::SolveCommandFailure,
        }
    }
}

} // verus!
