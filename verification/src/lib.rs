//! A verified simulation of a directional rover on a bounded 2D grid.
//!
//! The library has two halves: a parser that turns three lines of text into
//! a starting rover state and an instruction sequence, and an engine that
//! applies the instructions in order, stopping at the first move that would
//! leave the grid.

pub mod grid;
pub mod laws;
pub mod parser;
pub mod rover;

pub use crate::parser::parse_input;
pub use crate::rover::Dir;
pub use crate::rover::Instr;
pub use crate::rover::Rover;
pub use crate::rover::solve;
pub use crate::grid::Grid;
pub use crate::grid::Point;
pub use crate::grid::SIZE_X;
pub use crate::grid::SIZE_Y;
