//! The game of Chomp: a board of squares that shrinks by rectangular bites,
//! and an exhaustive search for a move that forces a win.
pub mod grid;
pub mod board;
pub mod search;
pub mod play;
pub mod game;
pub mod input;

pub use board::Board;
