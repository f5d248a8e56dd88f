//! Pure helpers consumed by a rendering collaborator: mapping pieces to
//! their display code points and border indices to column letters. Drawing
//! itself happens outside the engine.

use crate::pieces::{Color, Piece, PieceVariant};
use vstd::prelude::*;

verus! {

/// The glyph of a piece as a character.
pub open spec fn piece_glyph(p: Piece) -> char {
    match p.color {
        Color::White => match p.variant {
            PieceVariant::Pawn => '\u{2659}',
            PieceVariant::Knight => '\u{2658}',
            PieceVariant::Bishop => '\u{2657}',
            PieceVariant::Rook => '\u{2656}',
            PieceVariant::Queen => '\u{2655}',
            PieceVariant::King => '\u{2654}',
        },
        Color::Black => match p.variant {
            PieceVariant::Pawn => '\u{265F}',
            PieceVariant::Knight => '\u{265E}',
            PieceVariant::Bishop => '\u{265D}',
            PieceVariant::Rook => '\u{265C}',
            PieceVariant::Queen => '\u{265B}',
            PieceVariant::King => '\u{265A}',
        },
    }
}

/// The character a renderer draws for a piece.
pub fn unicode_to_character(piece: &Piece) -> (r: char)
    ensures
        r == piece_glyph(*piece),
{
    match piece.color {
        Color::White => match piece.variant {
            PieceVariant::Pawn => '\u{2659}',
            PieceVariant::Knight => '\u{2658}',
            PieceVariant::Bishop => '\u{2657}',
            PieceVariant::Rook => '\u{2656}',
            PieceVariant::Queen => '\u{2655}',
            PieceVariant::King => '\u{2654}',
        },
        Color::Black => match piece.variant {
            PieceVariant::Pawn => '\u{265F}',
            PieceVariant::Knight => '\u{265E}',
            PieceVariant::Bishop => '\u{265D}',
            PieceVariant::Rook => '\u{265C}',
            PieceVariant::Queen => '\u{265B}',
            PieceVariant::King => '\u{265A}',
        },
    }
}

/// The column letter printed over a border cell (1-based column index),
/// `None` past the eighth column.
pub fn position_to_character(column: u16) -> (r: Option<char>)
    ensures
        1 <= column <= 8 ==> r is Some,
        (column == 0 || column > 8) ==> r is None,
        column == 1 ==> r == Some('A'),
        column == 2 ==> r == Some('B'),
        column == 3 ==> r == Some('C'),
        column == 4 ==> r == Some('D'),
        column == 5 ==> r == Some('E'),
        column == 6 ==> r == Some('F'),
        column == 7 ==> r == Some('G'),
        column == 8 ==> r == Some('H'),
{
    match column {
        1 => Some('A'),
        2 => Some('B'),
        3 => Some('C'),
        4 => Some('D'),
        5 => Some('E'),
        6 => Some('F'),
        7 => Some('G'),
        8 => Some('H'),
        _ => None,
    }
}

} // verus!
