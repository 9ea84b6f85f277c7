//! Rule engine of a Minesweeper game: a grid of cells with deferred random
//! mine placement, cell revelation with flood fill, flagging, and win/loss
//! detection.

pub mod flood;
pub mod laws;
pub mod minesweeper;
pub mod model;
mod sampling;

pub use crate::minesweeper::Cell;
pub use crate::minesweeper::GameError;
pub use crate::minesweeper::Minesweeper;
