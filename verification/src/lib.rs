//! A verified model of a 9×9 Sudoku board: cells, row/column/block slices,
//! constraint checking, and one-step candidate move generation.

pub mod board;
pub mod cell;
pub mod game;
pub mod slice;
pub mod solver;

pub use board::Board;
pub use cell::Cell;
pub use game::Error;
pub use game::Sudoku;
pub use slice::Slice;
