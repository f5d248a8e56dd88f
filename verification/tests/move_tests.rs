use rusty_chess::board::Board;
use rusty_chess::pieces::{Color, PieceVariant, Position};

fn board_with(pieces: &[(PieceVariant, i8, i8, Color)]) -> Board {
    let mut board = Board::new();
    for &(variant, col, row, color) in pieces {
        board.place_piece(variant, Position::new(col, row), color);
    }
    board
}

#[test]
fn rook_blocked_and_capture() {
    let board = board_with(&[
        (PieceVariant::Rook, 3, 3, Color::White),
        (PieceVariant::Pawn, 3, 1, Color::White),
        (PieceVariant::Pawn, 5, 3, Color::Black),
    ]);
    let rook = board.piece_at(Position::new(3, 3)).unwrap();
    let moves = rook.get_available_moves(&board);
    // north: up to (3,2) exclusive of the own-color blocker and beyond
    assert!(moves.contains(&Position::new(3, 2)));
    assert!(!moves.contains(&Position::new(3, 1)));
    assert!(!moves.contains(&Position::new(3, 0)));
    // east: includes the opposing piece, excludes everything beyond
    assert!(moves.contains(&Position::new(4, 3)));
    assert!(moves.contains(&Position::new(5, 3)));
    assert!(!moves.contains(&Position::new(6, 3)));
    assert!(!moves.contains(&Position::new(7, 3)));
    // south and west are open to the edges
    assert!(moves.contains(&Position::new(3, 7)));
    assert!(moves.contains(&Position::new(0, 3)));
    // 1 north + 2 east + 4 south + 3 west, in per-direction walk order
    assert_eq!(
        moves,
        vec![
            Position::new(3, 2),
            Position::new(4, 3),
            Position::new(5, 3),
            Position::new(3, 4),
            Position::new(3, 5),
            Position::new(3, 6),
            Position::new(3, 7),
            Position::new(2, 3),
            Position::new(1, 3),
            Position::new(0, 3),
        ]
    );
}

#[test]
fn knight_from_corner() {
    let board = board_with(&[(PieceVariant::Knight, 0, 0, Color::White)]);
    let knight = board.piece_at(Position::new(0, 0)).unwrap();
    let moves = knight.get_available_moves(&board);
    assert_eq!(moves.len(), 2);
    assert!(moves.contains(&Position::new(1, 2)));
    assert!(moves.contains(&Position::new(2, 1)));
    // emission order follows the direction table
    assert_eq!(moves, vec![Position::new(2, 1), Position::new(1, 2)]);
}

#[test]
fn knight_blocked_by_own_color() {
    let board = board_with(&[
        (PieceVariant::Knight, 0, 0, Color::White),
        (PieceVariant::Pawn, 1, 2, Color::White),
    ]);
    let knight = board.piece_at(Position::new(0, 0)).unwrap();
    let moves = knight.get_available_moves(&board);
    assert_eq!(moves.len(), 1);
    assert!(moves.contains(&Position::new(2, 1)));
}

#[test]
fn queen_center_empty_board() {
    let board = board_with(&[(PieceVariant::Queen, 3, 3, Color::Black)]);
    let queen = board.piece_at(Position::new(3, 3)).unwrap();
    let moves = queen.get_available_moves(&board);
    assert_eq!(moves.len(), 27);
}

#[test]
fn king_center_empty_board() {
    let board = board_with(&[(PieceVariant::King, 3, 3, Color::White)]);
    let king = board.piece_at(Position::new(3, 3)).unwrap();
    let moves = king.get_available_moves(&board);
    assert_eq!(moves.len(), 8);
    assert!(moves.contains(&Position::new(2, 2)));
    assert!(moves.contains(&Position::new(4, 4)));
    assert!(!moves.contains(&Position::new(3, 3)));
}

#[test]
fn bishop_corner_empty_board() {
    let board = board_with(&[(PieceVariant::Bishop, 0, 0, Color::White)]);
    let bishop = board.piece_at(Position::new(0, 0)).unwrap();
    let moves = bishop.get_available_moves(&board);
    assert_eq!(moves.len(), 7);
    assert!(moves.contains(&Position::new(7, 7)));
}

#[test]
fn pawn_initial_double_step() {
    let board = board_with(&[(PieceVariant::Pawn, 2, 6, Color::White)]);
    let pawn = board.piece_at(Position::new(2, 6)).unwrap();
    let moves = pawn.get_available_moves(&board);
    // the single step comes before the double step
    assert_eq!(moves, vec![Position::new(2, 5), Position::new(2, 4)]);
}

#[test]
fn pawn_single_step_after_moving() {
    // the same pawn one row further on: only current row is consulted
    let board = board_with(&[(PieceVariant::Pawn, 2, 5, Color::White)]);
    let pawn = board.piece_at(Position::new(2, 5)).unwrap();
    let moves = pawn.get_available_moves(&board);
    assert_eq!(moves.len(), 1);
    assert!(moves.contains(&Position::new(2, 4)));
}

#[test]
fn black_pawn_double_step() {
    let board = board_with(&[(PieceVariant::Pawn, 4, 1, Color::Black)]);
    let pawn = board.piece_at(Position::new(4, 1)).unwrap();
    let moves = pawn.get_available_moves(&board);
    assert_eq!(moves.len(), 2);
    assert!(moves.contains(&Position::new(4, 2)));
    assert!(moves.contains(&Position::new(4, 3)));
}

#[test]
fn pawn_forward_blocked() {
    let board = board_with(&[
        (PieceVariant::Pawn, 2, 6, Color::White),
        (PieceVariant::Rook, 2, 5, Color::Black),
    ]);
    let pawn = board.piece_at(Position::new(2, 6)).unwrap();
    let moves = pawn.get_available_moves(&board);
    // no straight-ahead capture and no hopping over a blocker
    assert!(moves.is_empty());
}

#[test]
fn pawn_second_step_blocked() {
    let board = board_with(&[
        (PieceVariant::Pawn, 2, 6, Color::White),
        (PieceVariant::Rook, 2, 4, Color::Black),
    ]);
    let pawn = board.piece_at(Position::new(2, 6)).unwrap();
    let moves = pawn.get_available_moves(&board);
    assert_eq!(moves.len(), 1);
    assert!(moves.contains(&Position::new(2, 5)));
}

#[test]
fn pawn_diagonal_capture_only() {
    let board = board_with(&[
        (PieceVariant::Pawn, 3, 4, Color::White),
        (PieceVariant::Pawn, 2, 3, Color::Black),
    ]);
    let pawn = board.piece_at(Position::new(3, 4)).unwrap();
    let moves = pawn.get_available_moves(&board);
    assert_eq!(moves.len(), 2);
    assert!(moves.contains(&Position::new(3, 3)));
    assert!(moves.contains(&Position::new(2, 3)));
    // the empty diagonal is never added
    assert!(!moves.contains(&Position::new(4, 3)));
}

#[test]
fn pawn_no_capture_of_own_color() {
    let board = board_with(&[
        (PieceVariant::Pawn, 3, 4, Color::White),
        (PieceVariant::Pawn, 2, 3, Color::White),
    ]);
    let pawn = board.piece_at(Position::new(3, 4)).unwrap();
    let moves = pawn.get_available_moves(&board);
    assert_eq!(moves.len(), 1);
    assert!(moves.contains(&Position::new(3, 3)));
}

#[test]
fn black_pawn_diagonal_capture() {
    let board = board_with(&[
        (PieceVariant::Pawn, 3, 3, Color::Black),
        (PieceVariant::Rook, 4, 4, Color::White),
        (PieceVariant::Rook, 2, 4, Color::Black),
    ]);
    let pawn = board.piece_at(Position::new(3, 3)).unwrap();
    let moves = pawn.get_available_moves(&board);
    // forward and the opposing diagonal; never the own-color diagonal
    assert_eq!(moves.len(), 2);
    assert!(moves.contains(&Position::new(3, 4)));
    assert!(moves.contains(&Position::new(4, 4)));
}

#[test]
fn rook_fully_surrounded_by_own_color() {
    let board = board_with(&[
        (PieceVariant::Rook, 3, 3, Color::White),
        (PieceVariant::Pawn, 3, 2, Color::White),
        (PieceVariant::Pawn, 3, 4, Color::White),
        (PieceVariant::Pawn, 2, 3, Color::White),
        (PieceVariant::Pawn, 4, 3, Color::White),
    ]);
    let rook = board.piece_at(Position::new(3, 3)).unwrap();
    let moves = rook.get_available_moves(&board);
    assert!(moves.is_empty());
}

#[test]
fn promotion_at_white_edge_column() {
    let mut piece = rusty_chess::pieces::Piece::new(
        PieceVariant::Pawn,
        Position::new(0, 3),
        Color::White,
    );
    let outcome = piece.promote(PieceVariant::Queen);
    assert_eq!(outcome, Ok(PieceVariant::Queen));
    assert_eq!(piece.variant, PieceVariant::Queen);
    assert_eq!(piece.position, Position::new(0, 3));
    assert_eq!(piece.color, Color::White);
}

#[test]
fn promotion_rejected_off_edge() {
    let mut piece = rusty_chess::pieces::Piece::new(
        PieceVariant::Pawn,
        Position::new(1, 3),
        Color::White,
    );
    let outcome = piece.promote(PieceVariant::Queen);
    assert!(outcome.is_err());
    // no mutation on failure
    assert_eq!(piece.variant, PieceVariant::Pawn);
    assert_eq!(piece.position, Position::new(1, 3));
}

#[test]
fn promotion_at_black_edge_column() {
    let mut piece = rusty_chess::pieces::Piece::new(
        PieceVariant::Knight,
        Position::new(7, 0),
        Color::Black,
    );
    // the variant is not consulted: any piece on the edge column qualifies
    let outcome = piece.promote(PieceVariant::Rook);
    assert_eq!(outcome, Ok(PieceVariant::Rook));
    assert_eq!(piece.variant, PieceVariant::Rook);
}

#[test]
fn promotion_rejected_for_black_at_white_edge() {
    let mut piece = rusty_chess::pieces::Piece::new(
        PieceVariant::Pawn,
        Position::new(0, 3),
        Color::Black,
    );
    assert!(piece.promote(PieceVariant::Queen).is_err());
    assert_eq!(piece.variant, PieceVariant::Pawn);
}
