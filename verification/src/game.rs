//! The position model: pieces, the board and its move rules.

pub mod board;
pub mod movement;
pub mod piece;
