use rusty_chess::console::{position_to_character, unicode_to_character};
use rusty_chess::pieces::{Color, Piece, PieceVariant, Position};

#[test]
fn border_column_letters() {
    assert_eq!(position_to_character(1), Some('A'));
    assert_eq!(position_to_character(2), Some('B'));
    assert_eq!(position_to_character(3), Some('C'));
    assert_eq!(position_to_character(4), Some('D'));
    assert_eq!(position_to_character(5), Some('E'));
    assert_eq!(position_to_character(6), Some('F'));
    assert_eq!(position_to_character(7), Some('G'));
    assert_eq!(position_to_character(8), Some('H'));
}

#[test]
fn border_column_out_of_range() {
    assert_eq!(position_to_character(0), None);
    assert_eq!(position_to_character(9), None);
    assert_eq!(position_to_character(u16::MAX), None);
}

#[test]
fn piece_glyphs() {
    let white_king = Piece::new(PieceVariant::King, Position::new(4, 7), Color::White);
    assert_eq!(unicode_to_character(&white_king), '\u{2654}');
    let black_pawn = Piece::new(PieceVariant::Pawn, Position::new(0, 1), Color::Black);
    assert_eq!(unicode_to_character(&black_pawn), '\u{265F}');
    let black_queen = Piece::new(PieceVariant::Queen, Position::new(3, 0), Color::Black);
    assert_eq!(unicode_to_character(&black_queen), '\u{265B}');
}

#[test]
fn figure_code_points() {
    assert_eq!(PieceVariant::King.get_figure(), 0x2654);
    assert_eq!(PieceVariant::Pawn.get_figure(), 0x2659);
    let white_pawn = Piece::new(PieceVariant::Pawn, Position::new(0, 6), Color::White);
    assert_eq!(white_pawn.get_figure(), 0x2659);
    let black_pawn = Piece::new(PieceVariant::Pawn, Position::new(0, 1), Color::Black);
    assert_eq!(black_pawn.get_figure(), 0x265F);
    // a piece's glyph is exactly its figure code point
    assert_eq!(unicode_to_character(&black_pawn) as u32, black_pawn.get_figure());
}

#[test]
fn is_black_reads_the_color() {
    let black_rook = Piece::new(PieceVariant::Rook, Position::new(0, 0), Color::Black);
    assert!(black_rook.is_black());
    let white_rook = Piece::new(PieceVariant::Rook, Position::new(0, 7), Color::White);
    assert!(!white_rook.is_black());
}
