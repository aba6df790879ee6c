//! Rules engine of a two-player chain-reaction game on a 4x4 grid.
//!
//! `model` states the rules as mathematics, `board` is the executable board
//! that is proved to follow them, and `laws` holds what is proved of every
//! game.
pub mod model;
pub mod tally;
pub mod flow;
pub mod board;
pub mod laws;

pub use board::Board;
pub use model::{Color, GameState, BOARD_SIZE};
