//! The game logic of robotfindskitten: the board, the robot's moves, the
//! placement of items, and what the screen shows of them.

pub mod board;
pub mod laws;
pub mod phrases;
pub mod common;
pub mod console;
pub mod input;
pub mod rng;
pub mod screen;
pub mod text;
