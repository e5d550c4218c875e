use vstd::prelude::*;

verus! {

/// Why a FEN string could not be decoded.
#[derive(Clone, Copy, Debug, PartialEq, Eq, Structural)]
pub enum FenError {
    /// The string is empty: there is no placement field at all.
    MissingField,
    /// The placement field holds a character that is neither a piece letter,
    /// a run length `1`..`8` nor the rank separator `/`.
    InvalidPlacementChar(char),
    /// A piece letter, at this character position of the placement field,
    /// would stand past the edge of the board.
    PieceOffBoard(usize),
    /// The side-to-move field is present and neither `w` nor `b`.
    InvalidTurn,
    /// The castling field holds this character, which is not one of `KQkq`.
    InvalidCastlingChar(char),
    /// The halfmove clock or the fullmove number is present but is not a
    /// number that fits, or the ply count derived from it does not fit.
    NumericParse,
}

} // verus!
