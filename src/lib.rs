//! A grid-based optical puzzle: levels of empty cells, blocking cells and
//! diagonal mirrors, and the engine that traces a light beam through them.

pub mod block;
pub mod block_type;
pub mod laser;
pub mod level;
pub mod parse;
pub mod point;
