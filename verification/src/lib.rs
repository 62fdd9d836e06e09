//! Chomp on small boards: positions, the chomp move, and an exhaustive
//! search for a move that forces a win.

pub mod board;
pub mod game;
pub mod grid;
pub mod picture;
pub mod play;
pub mod solver;
pub mod text;

pub use board::{Chomp, SizeError};
pub use grid::{MAX_COLS, MAX_ROWS};
