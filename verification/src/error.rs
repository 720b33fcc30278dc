use vstd::prelude::*;

verus! {

/// The part of a move token that could not be decoded.
#[derive(Clone, Copy, Debug, PartialEq, Eq, Structural)]
pub enum NotationCause {
    /// The token has neither four nor five characters.
    Length,
    /// The leading letter of a five-character token names no kind of piece.
    Piece,
    /// A rank letter is outside `a`..`h`.
    Rank,
    /// A file digit is outside `1`..`8`.
    File,
}

/// Every way in which the engine turns a request down.
#[derive(Clone, Copy, Debug, PartialEq, Eq, Structural)]
pub enum Error {
    /// A text does not start with a rank letter.
    InvalidRank,
    /// A text does not start with a file digit, or a number is not in 1..=8.
    InvalidFile,
    /// A text does not start with the letter of a kind of piece.
    InvalidPiece,
    /// A move token is malformed.
    InvalidNotation(NotationCause),
    /// Origin and destination of a move are the same square.
    SameOriginAndDestination,
    /// The origin square of a move is empty.
    NoPieceAtOrigin,
    /// The piece on the origin square belongs to the side that is not to move.
    WrongColorToMove,
    /// A square on the way to the destination is occupied.
    BlockedPath,
    /// The destination is not among the squares the piece may move to.
    IllegalDestination,
    /// No piece of the kind and color asked for stands on the board.
    PieceNotFound,
    /// The move counter of a piece cannot grow any further.
    InvariantViolation,
}

} // verus!
