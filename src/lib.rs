//! Chess position model and a decoder for Forsyth-Edwards Notation.

pub mod board;
pub mod error;
pub mod game;
pub mod piece;
pub mod ranks;
pub mod text;
