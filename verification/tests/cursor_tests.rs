use rusty_chess::pieces::Position;
use rusty_chess::CursorPosition;

#[test]
fn cursor_starts_at_origin() {
    let cursor = CursorPosition::new();
    assert_eq!(cursor.get_position(), (0, 0));
}

#[test]
fn cursor_moves_and_clamps() {
    let mut cursor = CursorPosition::new();
    cursor.move_cursor_up();
    cursor.move_cursor_left();
    assert_eq!(cursor.get_position(), (0, 0));
    cursor.move_cursor_down();
    cursor.move_cursor_right();
    assert_eq!(cursor.get_position(), (1, 1));
    for _ in 0..10 {
        cursor.move_cursor_down();
        cursor.move_cursor_right();
    }
    assert_eq!(cursor.get_position(), (7, 7));
    cursor.move_cursor_up();
    assert_eq!(cursor.get_position(), (7, 6));
}

#[test]
fn manhattan_metrik_values() {
    let mut cursor = CursorPosition::new();
    cursor.move_cursor_down();
    cursor.move_cursor_down();
    cursor.move_cursor_down();
    cursor.move_cursor_right();
    cursor.move_cursor_right();
    cursor.move_cursor_right();
    // cursor at (3, 3)
    let move_set = vec![Position::new(5, 5), Position::new(2, 2), Position::new(3, 3)];
    let metrik = cursor.calc_manhattan_metrik(&move_set);
    assert_eq!(metrik, vec![4, 2, 0]);
}

#[test]
fn nearest_position_picks_first_minimum() {
    let mut cursor = CursorPosition::new();
    cursor.move_cursor_down();
    cursor.move_cursor_down();
    cursor.move_cursor_down();
    cursor.move_cursor_right();
    cursor.move_cursor_right();
    cursor.move_cursor_right();
    // cursor at (3, 3); (2, 2) and (4, 4) are equally near, the first wins
    let move_set = vec![Position::new(5, 5), Position::new(2, 2), Position::new(4, 4)];
    cursor.set_to_nearest_pos(&move_set);
    assert_eq!(cursor.get_position(), (2, 2));
}

#[test]
fn nearest_position_empty_set_leaves_cursor() {
    let mut cursor = CursorPosition::new();
    cursor.move_cursor_right();
    let move_set: Vec<Position> = vec![];
    cursor.set_to_nearest_pos(&move_set);
    assert_eq!(cursor.get_position(), (1, 0));
}

#[test]
fn move_with_piece_up_takes_candidates_above() {
    let mut cursor = CursorPosition::new();
    for _ in 0..3 {
        cursor.move_cursor_down();
        cursor.move_cursor_right();
    }
    // cursor at (3, 3); rows strictly above are rows 0..3
    let move_set = vec![Position::new(3, 5), Position::new(3, 1), Position::new(2, 2)];
    cursor.move_with_piece_up(&move_set);
    assert_eq!(cursor.get_position(), (3, 1));
}

#[test]
fn move_with_piece_down_takes_candidates_below() {
    let mut cursor = CursorPosition::new();
    for _ in 0..3 {
        cursor.move_cursor_down();
        cursor.move_cursor_right();
    }
    let move_set = vec![Position::new(3, 5), Position::new(3, 1), Position::new(2, 2)];
    cursor.move_with_piece_down(&move_set);
    assert_eq!(cursor.get_position(), (3, 5));
}

#[test]
fn move_with_piece_left_takes_candidates_leftward() {
    let mut cursor = CursorPosition::new();
    for _ in 0..3 {
        cursor.move_cursor_down();
        cursor.move_cursor_right();
    }
    let move_set = vec![Position::new(5, 3), Position::new(1, 3), Position::new(2, 4)];
    cursor.move_with_piece_left(&move_set);
    // (1, 3) and (2, 4) are equally near; the first in order wins
    assert_eq!(cursor.get_position(), (1, 3));
}

#[test]
fn move_with_piece_right_takes_candidates_rightward() {
    let mut cursor = CursorPosition::new();
    for _ in 0..3 {
        cursor.move_cursor_down();
        cursor.move_cursor_right();
    }
    let move_set = vec![Position::new(5, 3), Position::new(1, 3), Position::new(2, 4)];
    cursor.move_with_piece_right(&move_set);
    assert_eq!(cursor.get_position(), (5, 3));
}

#[test]
fn move_with_piece_no_candidate_leaves_cursor() {
    let mut cursor = CursorPosition::new();
    // cursor at (0, 0): nothing lies above it
    let move_set = vec![Position::new(3, 5)];
    cursor.move_with_piece_up(&move_set);
    assert_eq!(cursor.get_position(), (0, 0));
}
