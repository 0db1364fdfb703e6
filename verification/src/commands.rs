//! The commands of an interactive session, each with its name, the number of
//! arguments it takes, and what it does to the board.

pub mod add;
pub mod change;
pub mod command;
pub mod indicate;
pub mod remove;
pub mod result;
pub mod solve;

pub use add::AddCommand;
pub use change::ChangeCommand;
pub use command::Command;
pub use indicate::IndicateCommand;
pub use remove::RemoveCommand;
pub use result::CommandResult;
pub use solve::SolveCommand;
