//! A chess move generator and perft position enumerator.
//!
//! Sliding-piece attacks are computed through magic bitboards: per-square
//! perfect-hash tables mapping a blocker configuration to an attack set.

pub mod bitboard;
pub mod board;
pub mod error;
pub mod fen;
pub mod magic;
pub mod movegen;
pub mod perft;
pub mod piece;

pub use bitboard::{BitIndices, Bitboard, BitboardExt};
pub use board::{Board, Square};
pub use board::piece::{Colour, UncolouredPiece};
pub use error::Error;
pub use magic::{force_generate, Magic};
pub use movegen::Move;
pub use piece::PieceExt;
