//! Conway's Game of Life on a bounded, non-wrapping rectangular grid.

pub mod cell;
pub mod grid;
pub mod laws;

pub use cell::Life;

pub use grid::{advance, fill_from_draws, neighbours, new_game, randomize, show, Game, Point};
