//! A rules engine for standard chess.
//!
//! The crate tracks which piece stands on which square, computes the squares
//! a piece may reach, resolves captures and blocked paths, detects attacks on
//! a king, and keeps the turn order and the history of a game. Every function
//! carries a contract that Verus proves.

pub mod chessboard;
mod clock;
pub mod error;
pub mod file;
pub mod game;
mod order;
pub mod pgn;
pub mod pieces;
pub mod rank;
mod squares;

pub use crate::chessboard::BoardStatus;
pub use crate::chessboard::Chessboard2;
pub use crate::error::Error;
pub use crate::error::NotationCause;
pub use crate::file::File;
pub use crate::file::ALL_FILES;
pub use crate::file::NUM_FILES;
pub use crate::pgn::Position;
pub use crate::pgn::PGN;
pub use crate::pieces::Color;
pub use crate::pieces::Kind;
pub use crate::pieces::Piece;
pub use crate::pieces::PieceMovements;
pub use crate::rank::Rank;
pub use crate::rank::ALL_RANKS;
pub use crate::rank::NUM_RANKS;
