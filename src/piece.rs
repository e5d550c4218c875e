use vstd::prelude::*;

verus! {

/// The kind of a chess piece.
#[derive(Clone, Copy, Debug, PartialEq, Eq, Structural)]
pub enum PieceType {
    Pawn,
    Rook,
    Knight,
    Bishop,
    Queen,
    King,
}

/// The side a piece belongs to, or the side to move.
#[derive(Clone, Copy, Debug, PartialEq, Eq, Structural)]
pub enum Color {
    Black,
    White,
}

/// A chess piece: its kind and its color.
#[derive(Clone, Copy, Debug, PartialEq, Eq, Structural)]
pub struct Piece {
    pub piece: PieceType,
    pub color: Color,
}

/// The kind named by a piece letter, in either case.
pub open spec fn kind_of_letter(c: char) -> Option<PieceType> {
    if c == 'p' || c == 'P' {
        Some(PieceType::Pawn)
    } else if c == 'r' || c == 'R' {
        Some(PieceType::Rook)
    } else if c == 'n' || c == 'N' {
        Some(PieceType::Knight)
    } else if c == 'b' || c == 'B' {
        Some(PieceType::Bishop)
    } else if c == 'q' || c == 'Q' {
        Some(PieceType::Queen)
    } else if c == 'k' || c == 'K' {
        Some(PieceType::King)
    } else {
        None
    }
}

/// The piece a letter stands for: upper case is White, lower case is Black.
pub open spec fn piece_of_letter(c: char) -> Option<Piece> {
    match kind_of_letter(c) {
        Some(k) => Some(Piece { piece: k, color: if 'a' <= c <= 'z' { Color::Black } else { Color::White } }),
        None => None,
    }
}

/// Reads a piece letter.
pub fn letter_to_piece(c: char) -> (r: Option<Piece>)
    ensures
        r == piece_of_letter(c),
{
    let color = if 'a' <= c && c <= 'z' { Color::Black } else { Color::White };
    let kind = match c {
        'p' | 'P' => PieceType::Pawn,
        'r' | 'R' => PieceType::Rook,
        'n' | 'N' => PieceType::Knight,
        'b' | 'B' => PieceType::Bishop,
        'q' | 'Q' => PieceType::Queen,
        'k' | 'K' => PieceType::King,
        _ => return None,
    };
    Some(Piece { piece: kind, color })
}

} // verus!
