//! A 9x9 Sudoku board with candidate tracking and a backtracking solver.
//!
//! [`SudokuBoard`] holds the grid and keeps it legal: a digit is placed only
//! where no peer holds it and no peer is left without a candidate. [`solve`]
//! searches for a solution, the most constrained cell first. The modules
//! `grid` and `search` describe both as mathematics, and `laws` states what
//! holds of every board.

pub mod board;
pub mod cell;
pub mod commands;
pub mod grid;
pub mod laws;
pub mod load;
pub mod moves;
pub mod possible_cell_values;
pub mod render;
pub mod results;
pub mod search;
pub mod solver;
pub mod text;
pub mod value;

pub use board::SudokuBoard;
pub use cell::Cell;
pub use possible_cell_values::PossibleCellValues;
pub use results::{AddResult, ChangeResult, ConfigError, RemoveResult, SolveResult};
pub use solver::solve;
pub use value::Value;
