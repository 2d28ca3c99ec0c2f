//! Conway's Game of Life on a fixed-size toroidal grid: a packed bit-per-cell
//! store, neighbor counting with wraparound, and a double-buffered generation
//! step, with point and bulk mutation, randomization from injected coin
//! flips, resizing, and clearing.

pub mod bits;
pub mod grid;
pub mod laws;

pub use grid::Universe;
