use rusty_chess::board::Board;
use rusty_chess::pieces::{Color, PieceVariant, Position};

#[test]
fn initial_layout() {
    let mut board = Board::new();
    board.initialize();
    let back_rank = [
        PieceVariant::Rook,
        PieceVariant::Knight,
        PieceVariant::Bishop,
        PieceVariant::Queen,
        PieceVariant::King,
        PieceVariant::Bishop,
        PieceVariant::Knight,
        PieceVariant::Rook,
    ];
    for c in 0..8i8 {
        let top = board.piece_at(Position::new(c, 0)).unwrap();
        assert_eq!(top.variant, back_rank[c as usize]);
        assert_eq!(top.color, Color::Black);
        let top_pawn = board.piece_at(Position::new(c, 1)).unwrap();
        assert_eq!(top_pawn.variant, PieceVariant::Pawn);
        assert_eq!(top_pawn.color, Color::Black);
        let bottom_pawn = board.piece_at(Position::new(c, 6)).unwrap();
        assert_eq!(bottom_pawn.variant, PieceVariant::Pawn);
        assert_eq!(bottom_pawn.color, Color::White);
        let bottom = board.piece_at(Position::new(c, 7)).unwrap();
        assert_eq!(bottom.variant, back_rank[c as usize]);
        assert_eq!(bottom.color, Color::White);
    }
    for r in 2..6i8 {
        for c in 0..8i8 {
            assert!(board.piece_at(Position::new(c, r)).is_none());
        }
    }
}

#[test]
fn empty_board_notation() {
    let board = Board::new();
    assert_eq!(board.to_string(), String::new());
}

#[test]
fn initial_layout_notation() {
    let mut board = Board::new();
    board.initialize();
    let expected = "RA8 NB8 BC8 QD8 KE8 BF8 NG8 RH8 \
                    PA7 PB7 PC7 PD7 PE7 PF7 PG7 PH7 \
                    PA2 PB2 PC2 PD2 PE2 PF2 PG2 PH2 \
                    RA1 NB1 BC1 QD1 KE1 BF1 NG1 RH1 ";
    assert_eq!(board.to_string(), expected.to_owned());
}

#[test]
fn single_piece_notation() {
    let mut board = Board::new();
    board.place_piece(PieceVariant::Queen, Position::new(0, 0), Color::White);
    assert_eq!(board.to_string(), "QA8 ".to_owned());
}

#[test]
fn notation_follows_a_move() {
    let mut board = Board::new();
    board.place_piece(PieceVariant::Queen, Position::new(0, 0), Color::White);
    assert_eq!(board.update_field(Position::new(0, 0), Position::new(7, 7)), Ok(()));
    assert_eq!(board.to_string(), "QH1 ".to_owned());
}

#[test]
fn move_to_empty_cell_continues() {
    let mut board = Board::new();
    board.place_piece(PieceVariant::Rook, Position::new(3, 3), Color::White);
    let outcome = board.update_field(Position::new(3, 3), Position::new(3, 0));
    assert_eq!(outcome, Ok(()));
    assert!(board.piece_at(Position::new(3, 3)).is_none());
    let moved = board.piece_at(Position::new(3, 0)).unwrap();
    assert_eq!(moved.variant, PieceVariant::Rook);
    assert_eq!(moved.color, Color::White);
    assert_eq!(moved.position, Position::new(3, 0));
}

#[test]
fn ordinary_capture_continues() {
    let mut board = Board::new();
    board.place_piece(PieceVariant::Rook, Position::new(3, 3), Color::White);
    board.place_piece(PieceVariant::Pawn, Position::new(3, 0), Color::Black);
    let outcome = board.update_field(Position::new(3, 3), Position::new(3, 0));
    assert_eq!(outcome, Ok(()));
    let moved = board.piece_at(Position::new(3, 0)).unwrap();
    assert_eq!(moved.variant, PieceVariant::Rook);
    assert_eq!(moved.position, Position::new(3, 0));
}

#[test]
fn king_capture_ends_game() {
    let mut board = Board::new();
    board.place_piece(PieceVariant::Rook, Position::new(3, 3), Color::White);
    board.place_piece(PieceVariant::King, Position::new(3, 0), Color::Black);
    let outcome = board.update_field(Position::new(3, 3), Position::new(3, 0));
    assert_eq!(outcome, Err(Color::White));
    // the captured king is gone from the grid; the mover stands in its place
    let there = board.piece_at(Position::new(3, 0)).unwrap();
    assert_eq!(there.variant, PieceVariant::Rook);
    assert_eq!(there.color, Color::White);
    assert!(board.piece_at(Position::new(3, 3)).is_none());
}

#[test]
fn king_capture_by_black_names_black() {
    let mut board = Board::new();
    board.place_piece(PieceVariant::Queen, Position::new(2, 2), Color::Black);
    board.place_piece(PieceVariant::King, Position::new(2, 5), Color::White);
    let outcome = board.update_field(Position::new(2, 2), Position::new(2, 5));
    assert_eq!(outcome, Err(Color::Black));
}

#[test]
fn position_sync_after_moves() {
    let mut board = Board::new();
    board.initialize();
    // white pawn two forward, black pawn two forward, white pawn captures
    assert_eq!(board.update_field(Position::new(4, 6), Position::new(4, 4)), Ok(()));
    assert_eq!(board.update_field(Position::new(3, 1), Position::new(3, 3)), Ok(()));
    assert_eq!(board.update_field(Position::new(4, 4), Position::new(3, 3)), Ok(()));
    for r in 0..8i8 {
        for c in 0..8i8 {
            if let Some(p) = board.piece_at(Position::new(c, r)) {
                assert_eq!(p.position, Position::new(c, r));
            }
        }
    }
}
