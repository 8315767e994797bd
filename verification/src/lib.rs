//! A verified engine for a 9 x 9 constraint-grid puzzle.
//!
//! The library models the grid as 81 cells addressed by a linear index.
//! Each cell carries an optional value, a flag marking it as an immutable
//! clue, and a conflict counter that always equals the number of the cell's
//! 20 peers (same row, column, or 3 x 3 block) holding the same value.
//! Edits go through a single validated operation that keeps every counter
//! correct by touching only the edited cell's neighborhood.

pub mod actions;
pub mod cell;
pub mod errors;
pub mod position;
pub mod puzzle;
pub mod update;
