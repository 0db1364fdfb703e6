//! What every command offers.

use crate::board::SudokuBoard;
use crate::commands::result::CommandResult;
use crate::text::{number_of, parse_number};
use vstd::prelude::*;

verus! {

/// A command of the interactive session.
pub trait Command {
    /// The number of arguments that the command reads.
    spec fn arity(&self) -> nat;

    /// The word that calls the command.
    fn name(&self) -> &'static str;

    /// Returns the number of arguments that the command reads.
    fn num_args(&self) -> (n: usize)
        ensures
            n == self.arity(),
    ;

    /// How the command is written.
    fn usage(&self) -> &'static str;

    /// What the command does, in a few words.
    fn description(&self) -> &'static str;

    /// Runs the command on the board with the arguments given, of which there
    /// are at least as many as the command reads.
    fn execute(&self, board: &mut SudokuBoard, args: Vec<&str>) -> (res: CommandResult)
        requires
            old(board).wf(),
            args@.len() >= self.arity(),
        ensures
            final(board).wf(),
    ;
}

/// The row or column that a text names: a number from 1 to 9.
pub open spec fn index_of(s: Seq<char>) -> Option<usize> {
    match number_of(s) {
        Some(n) => if 1 <= n <= 9 {
            Some(n)
        } else {
            None
        },
        None => None,
    }
}

/// Reads a row or a column: a number from 1 to 9.
pub fn parse_index(text: &str) -> (res: Option<usize>)
    ensures
        res == index_of(text@),
{
    match parse_number(text) {
        Some(n) => if 1 <= n && n <= 9 {
            Some(n)
        } else {
            None
        },
        None => None,
    }
}

} // verus!
