//! Rules engine for an 11 by 11 Tafl-family capture board game: one king and
//! his defenders against a band of attackers. The crate owns the board state
//! machine (move validation, sandwich captures, king-surround captures, win
//! detection, legal-move generation), a lossless bit-packed move encoding, and
//! a tag-length-value wire protocol for exchanging game events between peers.

pub mod board;
pub mod command;
pub mod moves;
pub mod pieces;

pub use board::Board;
pub use command::{Command, CommandError};
pub use moves::{CompactMove, Move};
pub use pieces::{Direction, HnefataflError, Piece, Turn};
