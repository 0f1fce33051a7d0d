//! Conway's Game of Life on a toroidal grid stored one bit per cell.
//!
//! [`universe::Universe`] is the simulation object. Its contracts are written
//! over [`grid::Grid`], the mathematical picture of a universe: two
//! dimensions and a row-major sequence of booleans.

pub mod bitset;
pub mod cell;
pub mod grid;
pub mod laws;
pub mod pattern;
pub mod universe;
