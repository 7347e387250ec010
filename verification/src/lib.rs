//! Task board: the logic behind a small deadline tracker.
//!
//! Items carry a deadline; the board works out how much time is left for
//! each of them, sorts them by that, decides which of them count as expired,
//! and lays out the rows of the tab that is open.

pub mod status;
pub mod span;
pub mod text;
pub mod lexical;
pub mod deadline;
pub mod board;
pub mod order;
pub mod options;
pub mod rows;
pub mod ui;
