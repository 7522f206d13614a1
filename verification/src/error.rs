//! The errors of the rules engine.

use vstd::prelude::*;

verus! {

/// Everything that can go wrong while parsing notation or driving a game.
///
/// `InvalidAlgebric`, `IllegalMove` and the notation errors are recoverable:
/// the caller may re-prompt and retry. `LegalMovesNotComputed` reports a
/// read of the cached legal-move mask before it was computed for the
/// current turn.
#[derive(Debug)]
pub enum OthelloError {
    /// Malformed algebraic notation; carries the offending text.
    InvalidAlgebric(String),
    /// A structurally valid move that is not in the current legal-move mask.
    IllegalMove { row: u8, col: u8 },
    /// The legal moves were not computed before a call that depends on them.
    LegalMovesNotComputed,
    /// A board notation string that is not exactly 64 characters long.
    InvalidLenghtOfNotation,
    /// A board notation string with a character that names no cell state.
    InvalidCharInNotation { ch: char },
    /// A player type that the interface does not offer.
    InvalidPlayerType,
}

} // verus!
