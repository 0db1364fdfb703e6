//! The command that switches the display of candidates.

use crate::board::SudokuBoard;
use crate::commands::command::Command;
use crate::commands::result::CommandResult;
use vstd::prelude::*;

verus! {

/// Switches the indicator of the board: `i`.
pub struct IndicateCommand;

impl Command for IndicateCommand {
    open spec fn arity(&self) -> nat {
        0
    }

    fn name(&self) -> (s: &'static str)
        ensures
            s@ == "i"@,
    {
        "i"
    }

    fn num_args(&self) -> (n: usize) {
        0
    }

    fn usage(&self) -> (s: &'static str)
        ensures
            s@ == "Usage: `i`"@,
    {
        "Usage: `i`"
    }

    fn description(&self) -> (s: &'static str)
        ensures
            s@ == "Toggles the indicators of available values"@,
    {
        "Toggles the indicators of available values"
    }

    /// Switches the indicator and reports how it stands now. Nothing else on
    /// the board changes.
    fn execute(&self, board: &mut SudokuBoard, args: Vec<&str>) -> (res: CommandResult)
        ensures
            res == CommandResult::IndicateCommandSuccess(!old(board).indicator),
            final(board).indicator == !old(board).indicator,
            final(board).board == old(board).board,
            final(board).possible_values == old(board).possible_values,
    {
        let setting = !board.indicator;
        board.indicator = setting;
        CommandResult::IndicateCommandSuccess(setting)
    }
}

} // verus!
