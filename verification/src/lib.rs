//! Bitboard-backed chess positions and their FEN text form.

pub mod castling;
pub mod error;
pub mod fen;
pub mod game;
pub mod piece;
pub mod square;
pub mod text;
