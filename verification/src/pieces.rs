//! Pieces and geometry: colors, piece variants, positions, the table of the
//! sixteen movement directions, and per-piece legal-move generation.

use crate::board::Board;
use crate::CursorPosition;
use core::ops::ControlFlow;
use vstd::prelude::*;

verus! {

#[derive(Clone, Copy, PartialEq, Eq, Structural, Debug)]
pub enum Color {
    White,
    Black,
}

#[derive(Clone, Copy, PartialEq, Eq, Structural, Debug)]
pub enum PieceVariant {
    Pawn,
    Knight,
    Bishop,
    Rook,
    Queen,
    King,
}

/// The sixteen named movement directions: the eight compass directions used
/// by sliding pieces and the king, and the eight knight-shaped L-offsets.
#[derive(Clone, Copy, PartialEq, Eq, Structural, Debug)]
pub enum Direction {
    North,
    NorthEast,
    East,
    SouthEast,
    South,
    SouthWest,
    West,
    NorthWest,
    NorthNorthEast,
    EastNorthEast,
    EastSouthEast,
    SouthSouthEast,
    SouthSouthWest,
    WestSouthWest,
    WestNorthWest,
    NorthNorthWest,
}

#[derive(Clone, Copy, PartialEq, Eq, Structural, Debug)]
pub struct Position {
    pub col: i8,
    pub row: i8,
}

#[derive(Clone, Copy, PartialEq, Eq, Structural, Debug)]
pub struct Piece {
    pub variant: PieceVariant,
    pub position: Position,
    pub color: Color,
}

impl Position {
    pub fn new(col: i8, row: i8) -> (r: Position)
        ensures
            r.col == col,
            r.row == row,
    {
        Position { col, row }
    }
}

impl From<CursorPosition> for Position {
    fn from(value: CursorPosition) -> (r: Position) {
        Position { col: value.col, row: value.row }
    }
}

impl vstd::std_specs::convert::FromSpecImpl<CursorPosition> for Position {
    open spec fn obeys_from_spec() -> bool {
        true
    }

    open spec fn from_spec(value: CursorPosition) -> Position {
        Position { col: value.col, row: value.row }
    }
}

/// True iff the position lies on the 8x8 board.
pub open spec fn on_board(p: Position) -> bool {
    0 <= p.col <= 7 && 0 <= p.row <= 7
}

/// The (column, row) offset of one step in a direction. This table is the
/// single source of truth for all non-pawn movement.
pub open spec fn dir_offset(d: Direction) -> Position {
    match d {
        Direction::North => (Position { col: 0i8, row: -1i8 }),
        Direction::NorthEast => (Position { col: 1i8, row: -1i8 }),
        Direction::East => (Position { col: 1i8, row: 0i8 }),
        Direction::SouthEast => (Position { col: 1i8, row: 1i8 }),
        Direction::South => (Position { col: 0i8, row: 1i8 }),
        Direction::SouthWest => (Position { col: -1i8, row: 1i8 }),
        Direction::West => (Position { col: -1i8, row: 0i8 }),
        Direction::NorthWest => (Position { col: -1i8, row: -1i8 }),
        Direction::NorthNorthEast => (Position { col: 1i8, row: -2i8 }),
        Direction::EastNorthEast => (Position { col: 2i8, row: -1i8 }),
        Direction::EastSouthEast => (Position { col: 2i8, row: 1i8 }),
        Direction::SouthSouthEast => (Position { col: 1i8, row: 2i8 }),
        Direction::SouthSouthWest => (Position { col: -1i8, row: 2i8 }),
        Direction::WestSouthWest => (Position { col: -2i8, row: 1i8 }),
        Direction::WestNorthWest => (Position { col: -2i8, row: -1i8 }),
        Direction::NorthNorthWest => (Position { col: -1i8, row: -2i8 }),
    }
}

/// Column of the k-th step from `p` in offset `off`.
pub open spec fn step_col(p: Position, off: Position, k: int) -> int {
    p.col as int + k * (off.col as int)
}

/// Row of the k-th step from `p` in offset `off`.
pub open spec fn step_row(p: Position, off: Position, k: int) -> int {
    p.row as int + k * (off.row as int)
}

/// True iff the k-th step from `p` in offset `off` lies on the board.
pub open spec fn step_on_board(p: Position, off: Position, k: int) -> bool {
    0 <= step_col(p, off, k) <= 7 && 0 <= step_row(p, off, k) <= 7
}

/// The contents of the cell reached by the k-th step from `p` in offset `off`.
pub open spec fn step_cell(b: Board, p: Position, off: Position, k: int) -> Option<Piece> {
    b.at(step_col(p, off, k), step_row(p, off, k))
}

/// True iff `q` is exactly the k-th step from `p` in offset `off`.
pub open spec fn hits_step(q: Position, p: Position, off: Position, k: int) -> bool {
    q.col as int == step_col(p, off, k) && q.row as int == step_row(p, off, k)
}

/// The k-th step from `p` in offset `off`, as a position value (exact for
/// the on-board steps the move lists hold).
pub open spec fn step_position(p: Position, off: Position, k: int) -> Position {
    Position { col: step_col(p, off, k) as i8, row: step_row(p, off, k) as i8 }
}

/// The sliding/stepping rule: `q` is the k-th step of the walk (k within
/// range), the whole walk so far stays on the board, every cell strictly
/// before `q` is empty, and `q` itself is empty or holds an opposing piece.
pub open spec fn reaches_at(
    piece: Piece,
    board: Board,
    off: Position,
    range: int,
    q: Position,
    k: int,
) -> bool {
    &&& 1 <= k <= range
    &&& hits_step(q, piece.position, off, k)
    &&& forall|j: int| 1 <= j <= k ==> #[trigger] step_on_board(piece.position, off, j)
    &&& forall|j: int| 1 <= j < k ==> #[trigger] step_cell(board, piece.position, off, j) is None
    &&& match step_cell(board, piece.position, off, k) {
            Some(blocker) => blocker.color != piece.color,
            None => true,
        }
}

/// True iff `q` can be reached by walking from `piece` in direction `d`,
/// at most `range` steps, under the sliding/stepping rule.
pub open spec fn reachable_in_dir(
    piece: Piece,
    board: Board,
    d: Direction,
    range: int,
    q: Position,
) -> bool {
    exists|k: int| #[trigger] reaches_at(piece, board, dir_offset(d), range, q, k)
}

/// The list a direction walk emits from step `k` on: steps in increasing
/// order while the cells are on the board and empty; an opposing piece ends
/// the list with its own cell, a blocker or the board's edge ends it without.
pub open spec fn walk_list_from(
    piece: Piece,
    board: Board,
    d: Direction,
    k: int,
    range: int,
) -> Seq<Position>
    decreases range - k + 1,
{
    if k > range || !step_on_board(piece.position, dir_offset(d), k) {
        Seq::<Position>::empty()
    } else {
        match step_cell(board, piece.position, dir_offset(d), k) {
            Some(blocker) => if blocker.color == piece.color {
                Seq::<Position>::empty()
            } else {
                seq![step_position(piece.position, dir_offset(d), k)]
            },
            None => seq![step_position(piece.position, dir_offset(d), k)] + walk_list_from(
                piece,
                board,
                d,
                k + 1,
                range,
            ),
        }
    }
}

/// The full list a direction walk emits: its steps from the first one on.
pub open spec fn walk_list(piece: Piece, board: Board, d: Direction, range: int) -> Seq<Position> {
    walk_list_from(piece, board, d, 1, range)
}

/// The row offset of a pawn's forward step: south for black, north for white.
pub open spec fn pawn_offset(c: Color) -> Position {
    match c {
        Color::Black => (Position { col: 0i8, row: 1i8 }),
        Color::White => (Position { col: 0i8, row: -1i8 }),
    }
}

/// A pawn's home row, from which it may advance two squares.
pub open spec fn pawn_home_row(c: Color) -> int {
    match c {
        Color::Black => 1,
        Color::White => 6,
    }
}

/// How far the pawn may advance: two squares from its home row, else one.
pub open spec fn pawn_range(piece: Piece) -> int {
    if piece.position.row as int == pawn_home_row(piece.color) {
        2
    } else {
        1
    }
}

/// Pawn forward movement is pure-empty-only: every cell up to and including
/// the k-th must be on the board and empty.
pub open spec fn pawn_forward_at(piece: Piece, board: Board, q: Position, k: int) -> bool {
    &&& 1 <= k <= pawn_range(piece)
    &&& hits_step(q, piece.position, pawn_offset(piece.color), k)
    &&& forall|j: int| 1 <= j <= k ==> #[trigger] step_on_board(piece.position, pawn_offset(piece.color), j)
    &&& forall|j: int|
        1 <= j <= k ==> #[trigger] step_cell(board, piece.position, pawn_offset(piece.color), j) is None
}

/// Pawn diagonal capture: one column to the side (`side` is -1 or 1), one
/// forward step ahead, on the board, and occupied by an opposing piece.
pub open spec fn pawn_capture_at(piece: Piece, board: Board, q: Position, side: int) -> bool {
    &&& q.col as int == piece.position.col as int + side
    &&& q.row as int == piece.position.row as int + pawn_offset(piece.color).row as int
    &&& on_board(q)
    &&& match board.at(q.col as int, q.row as int) {
            Some(p) => p.color != piece.color,
            None => false,
        }
}

/// A pawn's legal destinations: forward while empty, or a diagonal capture.
pub open spec fn pawn_destination(piece: Piece, board: Board, q: Position) -> bool {
    ||| exists|k: int| #[trigger] pawn_forward_at(piece, board, q, k)
    ||| pawn_capture_at(piece, board, q, -1)
    ||| pawn_capture_at(piece, board, q, 1)
}

/// The pawn's forward steps from step `k` on, in increasing order: the walk
/// ends at the pawn's range, the board's edge, or any occupied cell.
pub open spec fn pawn_forward_list_from(piece: Piece, board: Board, k: int) -> Seq<Position>
    decreases pawn_range(piece) - k + 1,
{
    if k > pawn_range(piece) || !step_on_board(piece.position, pawn_offset(piece.color), k)
        || step_cell(board, piece.position, pawn_offset(piece.color), k) is Some {
        Seq::<Position>::empty()
    } else {
        seq![step_position(piece.position, pawn_offset(piece.color), k)] + pawn_forward_list_from(
            piece,
            board,
            k + 1,
        )
    }
}

/// The cell one forward step ahead and one column to the side of the pawn.
pub open spec fn pawn_side_square(piece: Piece, side: int) -> Position {
    Position {
        col: (piece.position.col as int + side) as i8,
        row: (piece.position.row as int + pawn_offset(piece.color).row as int) as i8,
    }
}

/// What the side diagonal contributes to the pawn's move list: its one cell
/// when it holds an opposing piece, nothing otherwise.
pub open spec fn pawn_capture_list(piece: Piece, board: Board, side: int) -> Seq<Position> {
    if pawn_capture_at(piece, board, pawn_side_square(piece, side), side) {
        seq![pawn_side_square(piece, side)]
    } else {
        Seq::<Position>::empty()
    }
}

/// The pawn's move list: the forward steps in walk order, then the left
/// diagonal capture, then the right one.
pub open spec fn pawn_move_list(piece: Piece, board: Board) -> Seq<Position> {
    pawn_forward_list_from(piece, board, 1) + pawn_capture_list(piece, board, -1)
        + pawn_capture_list(piece, board, 1)
}

/// The legal destinations of a piece, per variant: sliding pieces walk their
/// directions up to eight steps, stepping pieces one step, pawns use the
/// pawn-specific rule.
pub open spec fn legal_destination(piece: Piece, board: Board, q: Position) -> bool {
    match piece.variant {
        PieceVariant::Pawn => pawn_destination(piece, board, q),
        PieceVariant::Knight => {
            ||| reachable_in_dir(piece, board, Direction::NorthNorthEast, 1, q)
            ||| reachable_in_dir(piece, board, Direction::EastNorthEast, 1, q)
            ||| reachable_in_dir(piece, board, Direction::EastSouthEast, 1, q)
            ||| reachable_in_dir(piece, board, Direction::SouthSouthEast, 1, q)
            ||| reachable_in_dir(piece, board, Direction::SouthSouthWest, 1, q)
            ||| reachable_in_dir(piece, board, Direction::WestSouthWest, 1, q)
            ||| reachable_in_dir(piece, board, Direction::WestNorthWest, 1, q)
            ||| reachable_in_dir(piece, board, Direction::NorthNorthWest, 1, q)
        },
        PieceVariant::Bishop => {
            ||| reachable_in_dir(piece, board, Direction::NorthEast, 8, q)
            ||| reachable_in_dir(piece, board, Direction::SouthEast, 8, q)
            ||| reachable_in_dir(piece, board, Direction::SouthWest, 8, q)
            ||| reachable_in_dir(piece, board, Direction::NorthWest, 8, q)
        },
        PieceVariant::Rook => {
            ||| reachable_in_dir(piece, board, Direction::North, 8, q)
            ||| reachable_in_dir(piece, board, Direction::East, 8, q)
            ||| reachable_in_dir(piece, board, Direction::South, 8, q)
            ||| reachable_in_dir(piece, board, Direction::West, 8, q)
        },
        PieceVariant::Queen => {
            ||| reachable_in_dir(piece, board, Direction::North, 8, q)
            ||| reachable_in_dir(piece, board, Direction::NorthEast, 8, q)
            ||| reachable_in_dir(piece, board, Direction::East, 8, q)
            ||| reachable_in_dir(piece, board, Direction::SouthEast, 8, q)
            ||| reachable_in_dir(piece, board, Direction::South, 8, q)
            ||| reachable_in_dir(piece, board, Direction::SouthWest, 8, q)
            ||| reachable_in_dir(piece, board, Direction::West, 8, q)
            ||| reachable_in_dir(piece, board, Direction::NorthWest, 8, q)
        },
        PieceVariant::King => {
            ||| reachable_in_dir(piece, board, Direction::North, 1, q)
            ||| reachable_in_dir(piece, board, Direction::NorthEast, 1, q)
            ||| reachable_in_dir(piece, board, Direction::East, 1, q)
            ||| reachable_in_dir(piece, board, Direction::SouthEast, 1, q)
            ||| reachable_in_dir(piece, board, Direction::South, 1, q)
            ||| reachable_in_dir(piece, board, Direction::SouthWest, 1, q)
            ||| reachable_in_dir(piece, board, Direction::West, 1, q)
            ||| reachable_in_dir(piece, board, Direction::NorthWest, 1, q)
        },
    }
}

/// The exact vector of destinations the move generator emits: the per-variant
/// direction walks in their fixed order, each walk's steps in increasing
/// order (the pawn: forward steps, then the left capture, then the right).
pub open spec fn available_moves_list(piece: Piece, board: Board) -> Seq<Position> {
    match piece.variant {
        PieceVariant::Pawn => pawn_move_list(piece, board),
        PieceVariant::Knight => walk_list(piece, board, Direction::NorthNorthEast, 1) + walk_list(
            piece,
            board,
            Direction::EastNorthEast,
            1,
        ) + walk_list(piece, board, Direction::EastSouthEast, 1) + walk_list(
            piece,
            board,
            Direction::SouthSouthEast,
            1,
        ) + walk_list(piece, board, Direction::SouthSouthWest, 1) + walk_list(
            piece,
            board,
            Direction::WestSouthWest,
            1,
        ) + walk_list(piece, board, Direction::WestNorthWest, 1) + walk_list(
            piece,
            board,
            Direction::NorthNorthWest,
            1,
        ),
        PieceVariant::Bishop => walk_list(piece, board, Direction::NorthEast, 8) + walk_list(
            piece,
            board,
            Direction::SouthEast,
            8,
        ) + walk_list(piece, board, Direction::SouthWest, 8) + walk_list(
            piece,
            board,
            Direction::NorthWest,
            8,
        ),
        PieceVariant::Rook => walk_list(piece, board, Direction::North, 8) + walk_list(
            piece,
            board,
            Direction::East,
            8,
        ) + walk_list(piece, board, Direction::South, 8) + walk_list(
            piece,
            board,
            Direction::West,
            8,
        ),
        PieceVariant::Queen => walk_list(piece, board, Direction::North, 8) + walk_list(
            piece,
            board,
            Direction::NorthEast,
            8,
        ) + walk_list(piece, board, Direction::East, 8) + walk_list(
            piece,
            board,
            Direction::SouthEast,
            8,
        ) + walk_list(piece, board, Direction::South, 8) + walk_list(
            piece,
            board,
            Direction::SouthWest,
            8,
        ) + walk_list(piece, board, Direction::West, 8) + walk_list(
            piece,
            board,
            Direction::NorthWest,
            8,
        ),
        PieceVariant::King => walk_list(piece, board, Direction::North, 1) + walk_list(
            piece,
            board,
            Direction::NorthEast,
            1,
        ) + walk_list(piece, board, Direction::East, 1) + walk_list(
            piece,
            board,
            Direction::SouthEast,
            1,
        ) + walk_list(piece, board, Direction::South, 1) + walk_list(
            piece,
            board,
            Direction::SouthWest,
            1,
        ) + walk_list(piece, board, Direction::West, 1) + walk_list(
            piece,
            board,
            Direction::NorthWest,
            1,
        ),
    }
}

/// A piece qualifies for promotion at the far edge reached by its color's
/// forward movement: column 0 for white, column 7 for black. The variant is
/// not consulted.
pub open spec fn can_promote(p: Piece) -> bool {
    (p.color is White && p.position.col == 0) || (p.color is Black && p.position.col == 7)
}

/// The display code point of a variant, as drawn for the white side.
pub open spec fn variant_figure(v: PieceVariant) -> u32 {
    match v {
        PieceVariant::Pawn => 0x2659,
        PieceVariant::Knight => 0x2658,
        PieceVariant::Bishop => 0x2657,
        PieceVariant::Rook => 0x2656,
        PieceVariant::Queen => 0x2655,
        PieceVariant::King => 0x2654,
    }
}

/// The display code point of a piece: the black glyphs sit six code points
/// above the white ones.
pub open spec fn piece_figure(p: Piece) -> u32 {
    match p.color {
        Color::Black => (variant_figure(p.variant) + 6) as u32,
        Color::White => variant_figure(p.variant),
    }
}

/// The sixteen (column, row) offsets of the direction table.
pub open spec fn is_table_offset(c: int, r: int) -> bool {
    ||| (c == 0 && r == -1)
    ||| (c == 1 && r == -1)
    ||| (c == 1 && r == 0)
    ||| (c == 1 && r == 1)
    ||| (c == 0 && r == 1)
    ||| (c == -1 && r == 1)
    ||| (c == -1 && r == 0)
    ||| (c == -1 && r == -1)
    ||| (c == 1 && r == -2)
    ||| (c == 2 && r == -1)
    ||| (c == 2 && r == 1)
    ||| (c == 1 && r == 2)
    ||| (c == -1 && r == 2)
    ||| (c == -2 && r == 1)
    ||| (c == -2 && r == -1)
    ||| (c == -1 && r == -2)
}

/// Two positively scaled table offsets coincide only when the offsets and
/// the scales already do: no table offset is a positive multiple of another.
proof fn lemma_scaled_offsets_equal(c1: int, r1: int, c2: int, r2: int, k1: int, k2: int)
    requires
        k1 >= 1,
        k2 >= 1,
        k1 * c1 == k2 * c2,
        k1 * r1 == k2 * r2,
        is_table_offset(c1, r1),
        is_table_offset(c2, r2),
    ensures
        c1 == c2,
        r1 == r2,
        k1 == k2,
{
    assert(c1 == c2 && r1 == r2 && k1 == k2) by (nonlinear_arith)
        requires
            k1 >= 1,
            k2 >= 1,
            k1 * c1 == k2 * c2,
            k1 * r1 == k2 * r2,
            (c1 == 0 && r1 == -1) || (c1 == 1 && r1 == -1) || (c1 == 1 && r1 == 0) || (c1 == 1
                && r1 == 1) || (c1 == 0 && r1 == 1) || (c1 == -1 && r1 == 1) || (c1 == -1 && r1
                == 0) || (c1 == -1 && r1 == -1) || (c1 == 1 && r1 == -2) || (c1 == 2 && r1 == -1)
                || (c1 == 2 && r1 == 1) || (c1 == 1 && r1 == 2) || (c1 == -1 && r1 == 2) || (c1
                == -2 && r1 == 1) || (c1 == -2 && r1 == -1) || (c1 == -1 && r1 == -2),
            (c2 == 0 && r2 == -1) || (c2 == 1 && r2 == -1) || (c2 == 1 && r2 == 0) || (c2 == 1
                && r2 == 1) || (c2 == 0 && r2 == 1) || (c2 == -1 && r2 == 1) || (c2 == -1 && r2
                == 0) || (c2 == -1 && r2 == -1) || (c2 == 1 && r2 == -2) || (c2 == 2 && r2 == -1)
                || (c2 == 2 && r2 == 1) || (c2 == 1 && r2 == 2) || (c2 == -1 && r2 == 2) || (c2
                == -2 && r2 == 1) || (c2 == -2 && r2 == -1) || (c2 == -1 && r2 == -2),
    {
    }
}

/// No two of the sixteen direction rays out of one position share a cell,
/// and one ray visits each of its cells once: the hit determines both the
/// direction and the step count.
pub broadcast proof fn lemma_hits_unique(
    q: Position,
    p: Position,
    d1: Direction,
    d2: Direction,
    k1: int,
    k2: int,
)
    requires
        1 <= k1,
        1 <= k2,
        #[trigger] hits_step(q, p, dir_offset(d1), k1),
        #[trigger] hits_step(q, p, dir_offset(d2), k2),
    ensures
        d1 == d2,
        k1 == k2,
{
    let off1 = dir_offset(d1);
    let off2 = dir_offset(d2);
    assert(is_table_offset(off1.col as int, off1.row as int));
    assert(is_table_offset(off2.col as int, off2.row as int));
    assert(k1 * (off1.col as int) == k2 * (off2.col as int));
    assert(k1 * (off1.row as int) == k2 * (off2.row as int));
    lemma_scaled_offsets_equal(
        off1.col as int,
        off1.row as int,
        off2.col as int,
        off2.row as int,
        k1,
        k2,
    );
    assert(d1 == d2);
}

// Proof helpers: how `contains` distributes over `+` and `push`.

proof fn lemma_concat_contains(a: Seq<Position>, b: Seq<Position>, q: Position)
    ensures
        (a + b).contains(q) <==> a.contains(q) || b.contains(q),
{
    if (a + b).contains(q) {
        let i = choose|i: int| 0 <= i < (a + b).len() && (a + b)[i] == q;
        if i < a.len() {
            assert(a[i] == q);
        } else {
            assert(b[i - a.len()] == q);
        }
    }
    if a.contains(q) {
        let i = choose|i: int| 0 <= i < a.len() && a[i] == q;
        assert((a + b)[i] == q);
    }
    if b.contains(q) {
        let i = choose|i: int| 0 <= i < b.len() && b[i] == q;
        assert((a + b)[a.len() + i] == q);
    }
}

proof fn lemma_push_contains(s: Seq<Position>, x: Position, q: Position)
    ensures
        s.push(x).contains(q) <==> s.contains(q) || q == x,
{
    if s.push(x).contains(q) {
        let i = choose|i: int| 0 <= i < s.push(x).len() && s.push(x)[i] == q;
        if i < s.len() {
            assert(s[i] == q);
        }
    }
    if s.contains(q) {
        let i = choose|i: int| 0 <= i < s.len() && s[i] == q;
        assert(s.push(x)[i] == q);
    }
    if q == x {
        assert(s.push(x)[s.len() as int] == q);
    }
}

/// Each element of a walk list from step `k` on is the corresponding step
/// of the walk's ray, in increasing order; the list never exceeds the range.
proof fn lemma_walk_list_from_props(piece: Piece, board: Board, d: Direction, k: int, range: int)
    requires
        1 <= k <= range + 1,
    ensures
        walk_list_from(piece, board, d, k, range).len() <= range + 1 - k,
        forall|j: int|
            0 <= j < walk_list_from(piece, board, d, k, range).len() ==> hits_step(
                #[trigger] walk_list_from(piece, board, d, k, range)[j],
                piece.position,
                dir_offset(d),
                k + j,
            ),
    decreases range + 1 - k,
{
    let wl = walk_list_from(piece, board, d, k, range);
    if k > range || !step_on_board(piece.position, dir_offset(d), k) {
    } else {
        assert(hits_step(
            step_position(piece.position, dir_offset(d), k),
            piece.position,
            dir_offset(d),
            k,
        ));
        match step_cell(board, piece.position, dir_offset(d), k) {
            Some(blocker) => {},
            None => {
                lemma_walk_list_from_props(piece, board, d, k + 1, range);
                let tail = walk_list_from(piece, board, d, k + 1, range);
                assert forall|j: int| 0 <= j < wl.len() implies hits_step(
                    #[trigger] wl[j],
                    piece.position,
                    dir_offset(d),
                    k + j,
                ) by {
                    if j > 0 {
                        assert(wl[j] == tail[j - 1]);
                        assert(hits_step(tail[j - 1], piece.position, dir_offset(d), k + 1 + (j - 1)));
                    }
                }
            },
        }
    }
}

/// Each element of the pawn's forward list from step `k` on is the
/// corresponding forward step, in increasing order.
proof fn lemma_pawn_forward_props(piece: Piece, board: Board, k: int)
    requires
        1 <= k <= pawn_range(piece) + 1,
    ensures
        pawn_forward_list_from(piece, board, k).len() <= pawn_range(piece) + 1 - k,
        forall|j: int|
            0 <= j < pawn_forward_list_from(piece, board, k).len() ==> hits_step(
                #[trigger] pawn_forward_list_from(piece, board, k)[j],
                piece.position,
                pawn_offset(piece.color),
                k + j,
            ),
    decreases pawn_range(piece) + 1 - k,
{
    let wl = pawn_forward_list_from(piece, board, k);
    if k > pawn_range(piece) || !step_on_board(piece.position, pawn_offset(piece.color), k)
        || step_cell(board, piece.position, pawn_offset(piece.color), k) is Some {
    } else {
        assert(hits_step(
            step_position(piece.position, pawn_offset(piece.color), k),
            piece.position,
            pawn_offset(piece.color),
            k,
        ));
        lemma_pawn_forward_props(piece, board, k + 1);
        let tail = pawn_forward_list_from(piece, board, k + 1);
        assert forall|j: int| 0 <= j < wl.len() implies hits_step(
            #[trigger] wl[j],
            piece.position,
            pawn_offset(piece.color),
            k + j,
        ) by {
            if j > 0 {
                assert(wl[j] == tail[j - 1]);
                assert(hits_step(tail[j - 1], piece.position, pawn_offset(piece.color), k + 1 + (j - 1)));
            }
        }
    }
}

/// A walk list never holds a cell twice: one ray visits each of its cells
/// at most once.
proof fn lemma_walk_no_dup(piece: Piece, board: Board, d: Direction, range: int)
    requires
        1 <= range,
    ensures
        walk_list(piece, board, d, range).no_duplicates(),
{
    lemma_walk_list_from_props(piece, board, d, 1, range);
    let wl = walk_list(piece, board, d, range);
    assert forall|i: int, j: int|
        0 <= i < wl.len() && 0 <= j < wl.len() && i != j implies wl[i] != wl[j] by {
        if wl[i] == wl[j] {
            lemma_hits_unique(wl[i], piece.position, d, d, i + 1, j + 1);
        }
    }
}

/// Walks in two different directions share no cell: two distinct rays out of
/// one position meet only there.
proof fn lemma_walks_disjoint(piece: Piece, board: Board, d1: Direction, d2: Direction, range: int)
    requires
        d1 != d2,
        1 <= range,
    ensures
        forall|q: Position|
            !(#[trigger] walk_list(piece, board, d1, range).contains(q) && walk_list(
                piece,
                board,
                d2,
                range,
            ).contains(q)),
{
    lemma_walk_list_from_props(piece, board, d1, 1, range);
    lemma_walk_list_from_props(piece, board, d2, 1, range);
    let w1 = walk_list(piece, board, d1, range);
    let w2 = walk_list(piece, board, d2, range);
    assert forall|q: Position| !(#[trigger] w1.contains(q) && w2.contains(q)) by {
        if w1.contains(q) && w2.contains(q) {
            let i = choose|i: int| 0 <= i < w1.len() && w1[i] == q;
            let j = choose|j: int| 0 <= j < w2.len() && w2[j] == q;
            lemma_hits_unique(q, piece.position, d1, d2, i + 1, j + 1);
        }
    }
}

/// Concatenating duplicate-free lists with no common element keeps the
/// result duplicate-free.
proof fn lemma_no_dup_concat(a: Seq<Position>, b: Seq<Position>)
    requires
        a.no_duplicates(),
        b.no_duplicates(),
        forall|q: Position| !(#[trigger] a.contains(q) && b.contains(q)),
    ensures
        (a + b).no_duplicates(),
{
    assert forall|i: int, j: int|
        0 <= i < (a + b).len() && 0 <= j < (a + b).len() && i != j implies (a + b)[i] != (a
        + b)[j] by {
        if i < a.len() && j >= a.len() {
            assert(a.contains(a[i]));
            assert(b.contains(b[j - a.len()]));
        } else if i >= a.len() && j < a.len() {
            assert(a.contains(a[j]));
            assert(b.contains(b[i - a.len()]));
        }
    }
}

/// Four walks in pairwise different directions concatenate to a
/// duplicate-free list.
proof fn lemma_four_walks_no_dup(
    piece: Piece,
    board: Board,
    range: int,
    d1: Direction,
    d2: Direction,
    d3: Direction,
    d4: Direction,
)
    requires
        1 <= range,
        d1 != d2 && d1 != d3 && d1 != d4 && d2 != d3 && d2 != d4 && d3 != d4,
    ensures
        (walk_list(piece, board, d1, range) + walk_list(piece, board, d2, range) + walk_list(
            piece,
            board,
            d3,
            range,
        ) + walk_list(piece, board, d4, range)).no_duplicates(),
{
    let w1 = walk_list(piece, board, d1, range);
    let w2 = walk_list(piece, board, d2, range);
    let w3 = walk_list(piece, board, d3, range);
    let w4 = walk_list(piece, board, d4, range);
    lemma_walk_no_dup(piece, board, d1, range);
    lemma_walk_no_dup(piece, board, d2, range);
    lemma_walk_no_dup(piece, board, d3, range);
    lemma_walk_no_dup(piece, board, d4, range);
    lemma_walks_disjoint(piece, board, d1, d2, range);
    lemma_walks_disjoint(piece, board, d1, d3, range);
    lemma_walks_disjoint(piece, board, d1, d4, range);
    lemma_walks_disjoint(piece, board, d2, d3, range);
    lemma_walks_disjoint(piece, board, d2, d4, range);
    lemma_walks_disjoint(piece, board, d3, d4, range);
    lemma_no_dup_concat(w1, w2);
    assert forall|q: Position| !(#[trigger] (w1 + w2).contains(q) && w3.contains(q)) by {
        lemma_concat_contains(w1, w2, q);
    }
    lemma_no_dup_concat(w1 + w2, w3);
    assert forall|q: Position| !(#[trigger] (w1 + w2 + w3).contains(q) && w4.contains(q)) by {
        lemma_concat_contains(w1, w2, q);
        lemma_concat_contains(w1 + w2, w3, q);
    }
    lemma_no_dup_concat(w1 + w2 + w3, w4);
}

/// Eight walks in pairwise different directions concatenate to a
/// duplicate-free list.
proof fn lemma_eight_walks_no_dup(
    piece: Piece,
    board: Board,
    range: int,
    d1: Direction,
    d2: Direction,
    d3: Direction,
    d4: Direction,
    d5: Direction,
    d6: Direction,
    d7: Direction,
    d8: Direction,
)
    requires
        1 <= range,
        d1 != d2 && d1 != d3 && d1 != d4 && d1 != d5 && d1 != d6 && d1 != d7 && d1 != d8,
        d2 != d3 && d2 != d4 && d2 != d5 && d2 != d6 && d2 != d7 && d2 != d8,
        d3 != d4 && d3 != d5 && d3 != d6 && d3 != d7 && d3 != d8,
        d4 != d5 && d4 != d6 && d4 != d7 && d4 != d8,
        d5 != d6 && d5 != d7 && d5 != d8,
        d6 != d7 && d6 != d8,
        d7 != d8,
    ensures
        (walk_list(piece, board, d1, range) + walk_list(piece, board, d2, range) + walk_list(
            piece,
            board,
            d3,
            range,
        ) + walk_list(piece, board, d4, range) + walk_list(piece, board, d5, range) + walk_list(
            piece,
            board,
            d6,
            range,
        ) + walk_list(piece, board, d7, range) + walk_list(piece, board, d8, range)).no_duplicates(),
{
    let w1 = walk_list(piece, board, d1, range);
    let w2 = walk_list(piece, board, d2, range);
    let w3 = walk_list(piece, board, d3, range);
    let w4 = walk_list(piece, board, d4, range);
    let w5 = walk_list(piece, board, d5, range);
    let w6 = walk_list(piece, board, d6, range);
    let w7 = walk_list(piece, board, d7, range);
    let w8 = walk_list(piece, board, d8, range);
    lemma_four_walks_no_dup(piece, board, range, d1, d2, d3, d4);
    lemma_walk_no_dup(piece, board, d5, range);
    lemma_walk_no_dup(piece, board, d6, range);
    lemma_walk_no_dup(piece, board, d7, range);
    lemma_walks_disjoint(piece, board, d1, d5, range);
    lemma_walks_disjoint(piece, board, d2, d5, range);
    lemma_walks_disjoint(piece, board, d3, d5, range);
    lemma_walks_disjoint(piece, board, d4, d5, range);
    lemma_walks_disjoint(piece, board, d1, d6, range);
    lemma_walks_disjoint(piece, board, d2, d6, range);
    lemma_walks_disjoint(piece, board, d3, d6, range);
    lemma_walks_disjoint(piece, board, d4, d6, range);
    lemma_walks_disjoint(piece, board, d5, d6, range);
    lemma_walks_disjoint(piece, board, d1, d7, range);
    lemma_walks_disjoint(piece, board, d2, d7, range);
    lemma_walks_disjoint(piece, board, d3, d7, range);
    lemma_walks_disjoint(piece, board, d4, d7, range);
    lemma_walks_disjoint(piece, board, d5, d7, range);
    lemma_walks_disjoint(piece, board, d6, d7, range);
    lemma_walk_no_dup(piece, board, d8, range);
    lemma_walks_disjoint(piece, board, d1, d8, range);
    lemma_walks_disjoint(piece, board, d2, d8, range);
    lemma_walks_disjoint(piece, board, d3, d8, range);
    lemma_walks_disjoint(piece, board, d4, d8, range);
    lemma_walks_disjoint(piece, board, d5, d8, range);
    lemma_walks_disjoint(piece, board, d6, d8, range);
    lemma_walks_disjoint(piece, board, d7, d8, range);
    assert forall|q: Position| !(#[trigger] (w1 + w2 + w3 + w4).contains(q) && w5.contains(q)) by {
        lemma_concat_contains(w1, w2, q);
        lemma_concat_contains(w1 + w2, w3, q);
        lemma_concat_contains(w1 + w2 + w3, w4, q);
    }
    lemma_no_dup_concat(w1 + w2 + w3 + w4, w5);
    assert forall|q: Position|
        !(#[trigger] (w1 + w2 + w3 + w4 + w5).contains(q) && w6.contains(q)) by {
        lemma_concat_contains(w1, w2, q);
        lemma_concat_contains(w1 + w2, w3, q);
        lemma_concat_contains(w1 + w2 + w3, w4, q);
        lemma_concat_contains(w1 + w2 + w3 + w4, w5, q);
    }
    lemma_no_dup_concat(w1 + w2 + w3 + w4 + w5, w6);
    assert forall|q: Position|
        !(#[trigger] (w1 + w2 + w3 + w4 + w5 + w6).contains(q) && w7.contains(q)) by {
        lemma_concat_contains(w1, w2, q);
        lemma_concat_contains(w1 + w2, w3, q);
        lemma_concat_contains(w1 + w2 + w3, w4, q);
        lemma_concat_contains(w1 + w2 + w3 + w4, w5, q);
        lemma_concat_contains(w1 + w2 + w3 + w4 + w5, w6, q);
    }
    lemma_no_dup_concat(w1 + w2 + w3 + w4 + w5 + w6, w7);
    assert forall|q: Position|
        !(#[trigger] (w1 + w2 + w3 + w4 + w5 + w6 + w7).contains(q) && w8.contains(q)) by {
        lemma_concat_contains(w1, w2, q);
        lemma_concat_contains(w1 + w2, w3, q);
        lemma_concat_contains(w1 + w2 + w3, w4, q);
        lemma_concat_contains(w1 + w2 + w3 + w4, w5, q);
        lemma_concat_contains(w1 + w2 + w3 + w4 + w5, w6, q);
        lemma_concat_contains(w1 + w2 + w3 + w4 + w5 + w6, w7, q);
    }
    lemma_no_dup_concat(w1 + w2 + w3 + w4 + w5 + w6 + w7, w8);
}

/// The pawn's move list holds no cell twice: the forward steps keep the
/// pawn's own column and visit distinct rows, and the two capture diagonals
/// sit one column to either side.
proof fn lemma_pawn_list_no_dup(piece: Piece, board: Board)
    requires
        on_board(piece.position),
    ensures
        pawn_move_list(piece, board).no_duplicates(),
{
    lemma_pawn_forward_props(piece, board, 1);
    let fwd = pawn_forward_list_from(piece, board, 1);
    let left = pawn_capture_list(piece, board, -1);
    let right = pawn_capture_list(piece, board, 1);
    match piece.color {
        Color::White => assert(pawn_offset(piece.color) == dir_offset(Direction::North)),
        Color::Black => assert(pawn_offset(piece.color) == dir_offset(Direction::South)),
    }
    assert forall|t: int| 0 <= t < fwd.len() implies (#[trigger] fwd[t]).col as int
        == piece.position.col as int by {
        assert(hits_step(fwd[t], piece.position, pawn_offset(piece.color), 1 + t));
        assert((1 + t) * (pawn_offset(piece.color).col as int) == 0) by (nonlinear_arith)
            requires
                pawn_offset(piece.color).col as int == 0,
        ;
    }
    assert forall|i: int, j: int|
        0 <= i < fwd.len() && 0 <= j < fwd.len() && i != j implies fwd[i] != fwd[j] by {
        if fwd[i] == fwd[j] {
            match piece.color {
                Color::White => lemma_hits_unique(
                    fwd[i],
                    piece.position,
                    Direction::North,
                    Direction::North,
                    i + 1,
                    j + 1,
                ),
                Color::Black => lemma_hits_unique(
                    fwd[i],
                    piece.position,
                    Direction::South,
                    Direction::South,
                    i + 1,
                    j + 1,
                ),
            }
        }
    }
    assert(pawn_side_square(piece, -1).col as int == piece.position.col as int - 1);
    assert(pawn_side_square(piece, 1).col as int == piece.position.col as int + 1);
    assert forall|q: Position| !(#[trigger] fwd.contains(q) && left.contains(q)) by {
        if fwd.contains(q) {
            let t = choose|t: int| 0 <= t < fwd.len() && fwd[t] == q;
            assert(fwd[t].col as int == piece.position.col as int);
        }
    }
    lemma_no_dup_concat(fwd, left);
    assert forall|q: Position| !(#[trigger] (fwd + left).contains(q) && right.contains(q)) by {
        lemma_concat_contains(fwd, left, q);
        if fwd.contains(q) {
            let t = choose|t: int| 0 <= t < fwd.len() && fwd[t] == q;
            assert(fwd[t].col as int == piece.position.col as int);
        }
    }
    lemma_no_dup_concat(fwd + left, right);
}

/// The move generator's list holds no position twice.
proof fn lemma_moves_list_no_dup(piece: Piece, board: Board)
    requires
        on_board(piece.position),
    ensures
        available_moves_list(piece, board).no_duplicates(),
{
    match piece.variant {
        PieceVariant::Pawn => {
            lemma_pawn_list_no_dup(piece, board);
        },
        PieceVariant::Knight => {
            lemma_eight_walks_no_dup(
                piece,
                board,
                1,
                Direction::NorthNorthEast,
                Direction::EastNorthEast,
                Direction::EastSouthEast,
                Direction::SouthSouthEast,
                Direction::SouthSouthWest,
                Direction::WestSouthWest,
                Direction::WestNorthWest,
                Direction::NorthNorthWest,
            );
        },
        PieceVariant::Bishop => {
            lemma_four_walks_no_dup(
                piece,
                board,
                8,
                Direction::NorthEast,
                Direction::SouthEast,
                Direction::SouthWest,
                Direction::NorthWest,
            );
        },
        PieceVariant::Rook => {
            lemma_four_walks_no_dup(
                piece,
                board,
                8,
                Direction::North,
                Direction::East,
                Direction::South,
                Direction::West,
            );
        },
        PieceVariant::Queen => {
            lemma_eight_walks_no_dup(
                piece,
                board,
                8,
                Direction::North,
                Direction::NorthEast,
                Direction::East,
                Direction::SouthEast,
                Direction::South,
                Direction::SouthWest,
                Direction::West,
                Direction::NorthWest,
            );
        },
        PieceVariant::King => {
            lemma_eight_walks_no_dup(
                piece,
                board,
                1,
                Direction::North,
                Direction::NorthEast,
                Direction::East,
                Direction::SouthEast,
                Direction::South,
                Direction::SouthWest,
                Direction::West,
                Direction::NorthWest,
            );
        },
    }
}

/// Append freshly generated moves to an accumulator, tracking membership.
fn append_moves(valid_moves: &mut Vec<Position>, next_moves: &mut Vec<Position>)
    ensures
        final(valid_moves)@ == old(valid_moves)@ + old(next_moves)@,
        forall|q: Position| #[trigger] final(valid_moves)@.contains(q) == (old(
            valid_moves,
        )@.contains(q) || old(next_moves)@.contains(q)),
{
    let ghost pre = valid_moves@;
    let ghost next = next_moves@;
    valid_moves.append(next_moves);
    proof {
        assert forall|q: Position| #[trigger] valid_moves@.contains(q) == (pre.contains(q)
            || next.contains(q)) by {
            lemma_concat_contains(pre, next, q);
        }
    }
}

impl Piece {
    pub fn new(variant: PieceVariant, position: Position, color: Color) -> (r: Piece)
        ensures
            r == (Piece { variant, position, color }),
    {
        Piece { variant, position, color }
    }

    /// returns a vec of the possible moves of a specific piece on a given board
    pub fn get_available_moves(&self, board: &Board) -> (valid_moves: Vec<Position>)
        requires
            board.wf(),
            on_board(self.position),
        ensures
            valid_moves@ == available_moves_list(*self, *board),
            valid_moves@.no_duplicates(),
            forall|q: Position| #[trigger] valid_moves@.contains(q) <==> legal_destination(
                *self,
                *board,
                q,
            ),
            forall|i: int| 0 <= i < valid_moves@.len() ==> on_board(#[trigger] valid_moves@[i]),
    {
        let mut valid_moves: Vec<Position> = Vec::new();
        match self.variant {
            PieceVariant::Pawn => {
                match self.color {
                    Color::Black => {
                        if self.position.row == 1 {
                            let mut pawn_moves = self.generate_pawn_moves_in_direction(
                                Direction::South,
                                2,
                                board,
                            );
                            append_moves(&mut valid_moves, &mut pawn_moves);
                        } else {
                            let mut pawn_moves = self.generate_pawn_moves_in_direction(
                                Direction::South,
                                1,
                                board,
                            );
                            append_moves(&mut valid_moves, &mut pawn_moves);
                        }
                    },
                    Color::White => {
                        if self.position.row == 6 {
                            let mut pawn_moves = self.generate_pawn_moves_in_direction(
                                Direction::North,
                                2,
                                board,
                            );
                            append_moves(&mut valid_moves, &mut pawn_moves);
                        } else {
                            let mut pawn_moves = self.generate_pawn_moves_in_direction(
                                Direction::North,
                                1,
                                board,
                            );
                            append_moves(&mut valid_moves, &mut pawn_moves);
                        }
                    },
                }
            },
            PieceVariant::Knight => {
                self.push_moves_in_direction(Direction::NorthNorthEast, 1, board, &mut valid_moves);
                self.push_moves_in_direction(Direction::EastNorthEast, 1, board, &mut valid_moves);
                self.push_moves_in_direction(Direction::EastSouthEast, 1, board, &mut valid_moves);
                self.push_moves_in_direction(Direction::SouthSouthEast, 1, board, &mut valid_moves);
                self.push_moves_in_direction(Direction::SouthSouthWest, 1, board, &mut valid_moves);
                self.push_moves_in_direction(Direction::WestSouthWest, 1, board, &mut valid_moves);
                self.push_moves_in_direction(Direction::WestNorthWest, 1, board, &mut valid_moves);
                self.push_moves_in_direction(Direction::NorthNorthWest, 1, board, &mut valid_moves);
            },
            PieceVariant::Bishop => {
                self.push_moves_in_direction(Direction::NorthEast, 8, board, &mut valid_moves);
                self.push_moves_in_direction(Direction::SouthEast, 8, board, &mut valid_moves);
                self.push_moves_in_direction(Direction::SouthWest, 8, board, &mut valid_moves);
                self.push_moves_in_direction(Direction::NorthWest, 8, board, &mut valid_moves);
            },
            PieceVariant::Rook => {
                self.push_moves_in_direction(Direction::North, 8, board, &mut valid_moves);
                self.push_moves_in_direction(Direction::East, 8, board, &mut valid_moves);
                self.push_moves_in_direction(Direction::South, 8, board, &mut valid_moves);
                self.push_moves_in_direction(Direction::West, 8, board, &mut valid_moves);
            },
            PieceVariant::Queen => {
                self.push_moves_in_direction(Direction::North, 8, board, &mut valid_moves);
                self.push_moves_in_direction(Direction::NorthEast, 8, board, &mut valid_moves);
                self.push_moves_in_direction(Direction::East, 8, board, &mut valid_moves);
                self.push_moves_in_direction(Direction::SouthEast, 8, board, &mut valid_moves);
                self.push_moves_in_direction(Direction::South, 8, board, &mut valid_moves);
                self.push_moves_in_direction(Direction::SouthWest, 8, board, &mut valid_moves);
                self.push_moves_in_direction(Direction::West, 8, board, &mut valid_moves);
                self.push_moves_in_direction(Direction::NorthWest, 8, board, &mut valid_moves);
            },
            PieceVariant::King => {
                self.push_moves_in_direction(Direction::North, 1, board, &mut valid_moves);
                self.push_moves_in_direction(Direction::NorthEast, 1, board, &mut valid_moves);
                self.push_moves_in_direction(Direction::East, 1, board, &mut valid_moves);
                self.push_moves_in_direction(Direction::SouthEast, 1, board, &mut valid_moves);
                self.push_moves_in_direction(Direction::South, 1, board, &mut valid_moves);
                self.push_moves_in_direction(Direction::SouthWest, 1, board, &mut valid_moves);
                self.push_moves_in_direction(Direction::West, 1, board, &mut valid_moves);
                self.push_moves_in_direction(Direction::NorthWest, 1, board, &mut valid_moves);
            },
        }
        proof {
            assert(valid_moves@ =~= available_moves_list(*self, *board));
            lemma_moves_list_no_dup(*self, *board);
        }
        valid_moves
    }

    /// Append the moves of one direction walk to the accumulator.
    fn push_moves_in_direction(
        &self,
        direction: Direction,
        range: u8,
        board: &Board,
        valid_moves: &mut Vec<Position>,
    )
        requires
            board.wf(),
            on_board(self.position),
            1 <= range <= 8,
        ensures
            final(valid_moves)@ == old(valid_moves)@ + walk_list(
                *self,
                *board,
                direction,
                range as int,
            ),
            forall|q: Position| #[trigger] final(valid_moves)@.contains(q) == (old(
                valid_moves,
            )@.contains(q) || reachable_in_dir(*self, *board, direction, range as int, q)),
            forall|i: int|
                0 <= i < final(valid_moves)@.len() && old(valid_moves)@.len() <= i ==> on_board(
                    #[trigger] final(valid_moves)@[i],
                ),
            forall|i: int|
                0 <= i < old(valid_moves)@.len() ==> final(valid_moves)@[i] == old(
                    valid_moves,
                )@[i],
            final(valid_moves)@.len() >= old(valid_moves)@.len(),
    {
        let mut next_moves = self.generate_moves_in_direction(direction, range, board);
        let ghost pre = valid_moves@;
        let ghost next = next_moves@;
        valid_moves.append(&mut next_moves);
        proof {
            assert forall|q: Position| #[trigger] valid_moves@.contains(q) == (pre.contains(q)
                || reachable_in_dir(*self, *board, direction, range as int, q)) by {
                lemma_concat_contains(pre, next, q);
            }
        }
    }

    fn generate_moves_in_direction(
        &self,
        direction: Direction,
        range: u8,
        board: &Board,
    ) -> (ret_vec: Vec<Position>)
        requires
            board.wf(),
            on_board(self.position),
            1 <= range <= 8,
        ensures
            ret_vec@ == walk_list(*self, *board, direction, range as int),
            ret_vec@.len() <= range as int,
            forall|j: int|
                0 <= j < ret_vec@.len() ==> hits_step(
                    #[trigger] ret_vec@[j],
                    self.position,
                    dir_offset(direction),
                    j + 1,
                ),
            forall|q: Position| #[trigger] ret_vec@.contains(q) <==> reachable_in_dir(
                *self,
                *board,
                direction,
                range as int,
                q,
            ),
            forall|i: int| 0 <= i < ret_vec@.len() ==> on_board(#[trigger] ret_vec@[i]),
    {
        let mut ret_vec: Vec<Position> = Vec::new();
        let next_move = dir_to_offset(direction);
        let ghost piece = *self;
        proof {
            assert(Seq::<Position>::empty() + walk_list_from(
                piece,
                *board,
                direction,
                1,
                range as int,
            ) =~= walk_list_from(piece, *board, direction, 1, range as int));
        }
        let mut walk_length: u8 = 1;
        loop
            invariant_except_break
                board.wf(),
                on_board(piece.position),
                piece == *self,
                1 <= range <= 8,
                next_move == dir_offset(direction),
                -2 <= next_move.col <= 2,
                -2 <= next_move.row <= 2,
                1 <= walk_length <= range + 1,
                forall|j: int|
                    1 <= j < walk_length ==> #[trigger] step_on_board(
                        piece.position,
                        dir_offset(direction),
                        j,
                    ),
                forall|j: int|
                    1 <= j < walk_length ==> #[trigger] step_cell(
                        *board,
                        piece.position,
                        dir_offset(direction),
                        j,
                    ) is None,
                ret_vec@.len() == walk_length - 1,
                forall|j: int|
                    0 <= j < walk_length - 1 ==> hits_step(
                        #[trigger] ret_vec@[j],
                        piece.position,
                        dir_offset(direction),
                        j + 1,
                    ),
                forall|i: int| 0 <= i < ret_vec@.len() ==> on_board(#[trigger] ret_vec@[i]),
                walk_list(piece, *board, direction, range as int) == ret_vec@ + walk_list_from(
                    piece,
                    *board,
                    direction,
                    walk_length as int,
                    range as int,
                ),
            ensures
                ret_vec@ == walk_list(piece, *board, direction, range as int),
                ret_vec@.len() <= range as int,
                forall|j: int|
                    0 <= j < ret_vec@.len() ==> hits_step(
                        #[trigger] ret_vec@[j],
                        piece.position,
                        dir_offset(direction),
                        j + 1,
                    ),
                forall|q: Position| #[trigger] ret_vec@.contains(q) <==> reachable_in_dir(
                    piece,
                    *board,
                    direction,
                    range as int,
                    q,
                ),
                forall|i: int| 0 <= i < ret_vec@.len() ==> on_board(#[trigger] ret_vec@[i]),
            decreases range + 1 - walk_length,
        {
            let ghost off = dir_offset(direction);
            let ghost pre = ret_vec@;
            if walk_length > range {
                proof {
                    assert forall|q: Position| #[trigger] ret_vec@.contains(q) implies
                        reachable_in_dir(piece, *board, direction, range as int, q) by {
                        let i = choose|i: int| 0 <= i < pre.len() && pre[i] == q;
                        assert(hits_step(pre[i], piece.position, off, i + 1));
                        assert(reaches_at(piece, *board, dir_offset(direction), range as int, q, i + 1));
                    }
                    assert forall|q: Position| reachable_in_dir(piece, *board, direction, range as int, q)
                        implies #[trigger] ret_vec@.contains(q) by {
                        let k = choose|k: int|
                            reaches_at(piece, *board, dir_offset(direction), range as int, q, k);
                        assert(hits_step(pre[k - 1], piece.position, off, k));
                        assert(ret_vec@[k - 1] == q);
                    }
                    assert(walk_list_from(piece, *board, direction, walk_length as int, range as int)
                        =~= Seq::<Position>::empty());
                    assert(ret_vec@ + Seq::<Position>::empty() =~= ret_vec@);
                }
                break ;
            }
            proof {
                assert((walk_length as i8) as int == walk_length as int);
                assert(-16 <= (walk_length as int) * (next_move.col as int) <= 16) by (nonlinear_arith)
                    requires 1 <= walk_length as int <= 8, -2 <= next_move.col as int <= 2;
                assert(-16 <= (walk_length as int) * (next_move.row as int) <= 16) by (nonlinear_arith)
                    requires 1 <= walk_length as int <= 8, -2 <= next_move.row as int <= 2;
            }
            let new_move = Position::new(
                self.position.col + (walk_length as i8) * next_move.col,
                self.position.row + (walk_length as i8) * next_move.row,
            );
            let ghost w = walk_length as int;
            proof {
                assert(hits_step(new_move, piece.position, off, w));
            }
            let flow = self.check_next_position(new_move, board, &mut ret_vec);
            if let ControlFlow::Break(_) = flow {
                proof {
                    assert forall|q: Position| #[trigger] ret_vec@.contains(q) implies
                        reachable_in_dir(piece, *board, direction, range as int, q) by {
                        if pre.contains(q) {
                            let i = choose|i: int| 0 <= i < pre.len() && pre[i] == q;
                            assert(hits_step(pre[i], piece.position, off, i + 1));
                            assert(reaches_at(piece, *board, dir_offset(direction), range as int, q, i + 1));
                        } else {
                            lemma_push_contains(pre, new_move, q);
                            assert(q == new_move);
                            assert(reaches_at(piece, *board, dir_offset(direction), range as int, q, w));
                        }
                    }
                    assert forall|q: Position| reachable_in_dir(piece, *board, direction, range as int, q)
                        implies #[trigger] ret_vec@.contains(q) by {
                        let k = choose|k: int|
                            reaches_at(piece, *board, dir_offset(direction), range as int, q, k);
                        if k < w {
                            assert(hits_step(pre[k - 1], piece.position, off, k));
                            assert(pre[k - 1] == q);
                            assert(ret_vec@[k - 1] == q);
                        } else {
                            assert(step_on_board(piece.position, off, w));
                            if k == w {
                                assert(q == new_move);
                                assert(ret_vec@ == pre.push(new_move));
                                assert(ret_vec@[pre.len() as int] == q);
                            } else {
                                assert(step_cell(*board, piece.position, off, w) is None);
                                assert(false);
                            }
                        }
                    }
                    if !on_board(new_move) {
                        assert(!step_on_board(piece.position, off, w));
                        assert(walk_list_from(piece, *board, direction, w, range as int)
                            =~= Seq::<Position>::empty());
                        assert(ret_vec@ + Seq::<Position>::empty() =~= ret_vec@);
                    } else {
                        match board.at(new_move.col as int, new_move.row as int) {
                            Some(blocker) => {
                                if blocker.color == piece.color {
                                    assert(walk_list_from(piece, *board, direction, w, range as int)
                                        =~= Seq::<Position>::empty());
                                    assert(ret_vec@ + Seq::<Position>::empty() =~= ret_vec@);
                                } else {
                                    assert(new_move == step_position(piece.position, off, w));
                                    assert(walk_list_from(piece, *board, direction, w, range as int)
                                        =~= seq![new_move]);
                                    assert(pre + seq![new_move] =~= pre.push(new_move));
                                }
                            },
                            None => {
                                assert(false);
                            },
                        }
                    }
                }
                break ;
            }
            proof {
                assert(on_board(new_move));
                assert(step_cell(*board, piece.position, off, w) is None);
                assert(new_move == step_position(piece.position, off, w));
                assert(walk_list_from(piece, *board, direction, w, range as int) == seq![new_move]
                    + walk_list_from(piece, *board, direction, w + 1, range as int));
                assert(pre + (seq![new_move] + walk_list_from(piece, *board, direction, w + 1, range as int))
                    =~= pre.push(new_move) + walk_list_from(piece, *board, direction, w + 1, range as int));
            }
            walk_length += 1;
        }
        ret_vec
    }

    fn check_next_position(
        &self,
        new_move: Position,
        board: &Board,
        ret_vec: &mut Vec<Position>,
    ) -> (flow: ControlFlow<()>)
        requires
            board.wf(),
        ensures
            !on_board(new_move) ==> flow is Break && final(ret_vec)@ == old(ret_vec)@,
            on_board(new_move) ==> match board.at(new_move.col as int, new_move.row as int) {
                Some(p) => flow is Break && if p.color == self.color {
                    final(ret_vec)@ == old(ret_vec)@
                } else {
                    final(ret_vec)@ == old(ret_vec)@.push(new_move)
                },
                None => flow is Continue && final(ret_vec)@ == old(ret_vec)@.push(new_move),
            },
    {
        if is_move_on_field(new_move) {
            match field_color(new_move, board) {
                Some(c) => {
                    if c == self.color {
                        return ControlFlow::Break(());
                    } else {
                        ret_vec.push(new_move);
                        return ControlFlow::Break(());
                    }
                },
                None => ret_vec.push(new_move),
            }
        } else {
            return ControlFlow::Break(());
        }
        ControlFlow::Continue(())
    }

    fn generate_pawn_moves_in_direction(
        &self,
        direction: Direction,
        range: u8,
        board: &Board,
    ) -> (ret_vec: Vec<Position>)
        requires
            board.wf(),
            on_board(self.position),
            1 <= range <= 2,
            dir_offset(direction) == pawn_offset(self.color),
            range as int == pawn_range(*self),
        ensures
            ret_vec@ == pawn_move_list(*self, *board),
            forall|q: Position| #[trigger] ret_vec@.contains(q) <==> pawn_destination(
                *self,
                *board,
                q,
            ),
            forall|i: int| 0 <= i < ret_vec@.len() ==> on_board(#[trigger] ret_vec@[i]),
    {
        let mut ret_vec: Vec<Position> = Vec::new();
        let next_move = dir_to_offset(direction);
        let ghost piece = *self;
        proof {
            match piece.color {
                Color::White => assert(pawn_offset(piece.color) == (Position { col: 0i8, row: -1i8 })),
                Color::Black => assert(pawn_offset(piece.color) == (Position { col: 0i8, row: 1i8 })),
            }
            assert(Seq::<Position>::empty() + pawn_forward_list_from(piece, *board, 1)
                =~= pawn_forward_list_from(piece, *board, 1));
        }
        let mut walk_length: u8 = 1;
        loop
            invariant_except_break
                board.wf(),
                on_board(piece.position),
                piece == *self,
                1 <= range <= 2,
                next_move == pawn_offset(piece.color),
                next_move.col == 0,
                -1 <= next_move.row <= 1,
                range as int == pawn_range(piece),
                1 <= walk_length <= range + 1,
                forall|j: int|
                    1 <= j < walk_length ==> #[trigger] step_on_board(
                        piece.position,
                        pawn_offset(piece.color),
                        j,
                    ),
                forall|j: int|
                    1 <= j < walk_length ==> #[trigger] step_cell(
                        *board,
                        piece.position,
                        pawn_offset(piece.color),
                        j,
                    ) is None,
                ret_vec@.len() == walk_length - 1,
                forall|j: int|
                    0 <= j < walk_length - 1 ==> hits_step(
                        #[trigger] ret_vec@[j],
                        piece.position,
                        pawn_offset(piece.color),
                        j + 1,
                    ),
                forall|i: int| 0 <= i < ret_vec@.len() ==> on_board(#[trigger] ret_vec@[i]),
                pawn_forward_list_from(piece, *board, 1) == ret_vec@ + pawn_forward_list_from(
                    piece,
                    *board,
                    walk_length as int,
                ),
            ensures
                ret_vec@ == pawn_forward_list_from(piece, *board, 1),
                forall|q: Position| #[trigger] ret_vec@.contains(q) <==> exists|k: int|
                    pawn_forward_at(piece, *board, q, k),
                forall|i: int| 0 <= i < ret_vec@.len() ==> on_board(#[trigger] ret_vec@[i]),
            decreases range + 1 - walk_length,
        {
            let ghost off = pawn_offset(piece.color);
            let ghost pre = ret_vec@;
            if walk_length > range {
                proof {
                    assert forall|q: Position| #[trigger] ret_vec@.contains(q) implies exists|k: int|
                        pawn_forward_at(piece, *board, q, k) by {
                        let i = choose|i: int| 0 <= i < ret_vec@.len() && ret_vec@[i] == q;
                        assert(pawn_forward_at(piece, *board, q, i + 1));
                    }
                    assert forall|q: Position| (exists|k: int| pawn_forward_at(piece, *board, q, k))
                        implies #[trigger] ret_vec@.contains(q) by {
                        let k = choose|k: int| pawn_forward_at(piece, *board, q, k);
                        assert(hits_step(ret_vec@[k - 1], piece.position, off, k));
                        assert(ret_vec@[k - 1] == q);
                    }
                    assert(pawn_forward_list_from(piece, *board, walk_length as int)
                        =~= Seq::<Position>::empty());
                    assert(ret_vec@ + Seq::<Position>::empty() =~= ret_vec@);
                }
                break ;
            }
            proof {
                assert((walk_length as i8) as int == walk_length as int);
                assert(-16 <= (walk_length as int) * (next_move.col as int) <= 16) by (nonlinear_arith)
                    requires 1 <= walk_length as int <= 8, -2 <= next_move.col as int <= 2;
                assert(-16 <= (walk_length as int) * (next_move.row as int) <= 16) by (nonlinear_arith)
                    requires 1 <= walk_length as int <= 8, -2 <= next_move.row as int <= 2;
            }
            let new_move = Position::new(
                self.position.col + (walk_length as i8) * next_move.col,
                self.position.row + (walk_length as i8) * next_move.row,
            );
            let ghost w = walk_length as int;
            proof {
                assert(hits_step(new_move, piece.position, off, w));
            }
            let open_cell = if is_move_on_field(new_move) {
                field_color(new_move, board).is_none()
            } else {
                false
            };
            if open_cell {
                ret_vec.push(new_move);
                proof {
                    assert(new_move == step_position(piece.position, off, w));
                    assert(pawn_forward_list_from(piece, *board, w) == seq![new_move]
                        + pawn_forward_list_from(piece, *board, w + 1));
                    assert(pre + (seq![new_move] + pawn_forward_list_from(piece, *board, w + 1))
                        =~= pre.push(new_move) + pawn_forward_list_from(piece, *board, w + 1));
                }
            } else {
                // if one move is invalid in one direction, the ones behind it
                // will be invalid as well
                proof {
                    assert forall|q: Position| #[trigger] ret_vec@.contains(q) implies exists|k: int|
                        pawn_forward_at(piece, *board, q, k) by {
                        let i = choose|i: int| 0 <= i < ret_vec@.len() && ret_vec@[i] == q;
                        assert(pawn_forward_at(piece, *board, q, i + 1));
                    }
                    assert forall|q: Position| (exists|k: int| pawn_forward_at(piece, *board, q, k))
                        implies #[trigger] ret_vec@.contains(q) by {
                        let k = choose|k: int| pawn_forward_at(piece, *board, q, k);
                        if k < w {
                            assert(hits_step(ret_vec@[k - 1], piece.position, off, k));
                            assert(ret_vec@[k - 1] == q);
                        } else {
                            assert(step_on_board(piece.position, off, w));
                            assert(step_cell(*board, piece.position, off, w) is None);
                            assert(false);
                        }
                    }
                    assert(pawn_forward_list_from(piece, *board, w) =~= Seq::<Position>::empty());
                    assert(ret_vec@ + Seq::<Position>::empty() =~= ret_vec@);
                }
                break ;
            }
            walk_length += 1;
        }
        let left_diagonal = Position::new(self.position.col - 1, self.position.row + next_move.row);
        let right_diagonal = Position::new(
            self.position.col + 1,
            self.position.row + next_move.row,
        );
        let ghost forward_only = ret_vec@;
        let take_left = if is_move_on_field(left_diagonal) {
            match field_color(left_diagonal, board) {
                Some(c) => c != self.color,
                None => false,
            }
        } else {
            false
        };
        if take_left {
            ret_vec.push(left_diagonal);
        }
        let ghost after_left = ret_vec@;
        let take_right = if is_move_on_field(right_diagonal) {
            match field_color(right_diagonal, board) {
                Some(c) => c != self.color,
                None => false,
            }
        } else {
            false
        };
        if take_right {
            ret_vec.push(right_diagonal);
        }
        proof {
            assert forall|q: Position| #[trigger] ret_vec@.contains(q) <==> pawn_destination(
                piece,
                *board,
                q,
            ) by {
                lemma_push_contains(after_left, right_diagonal, q);
                lemma_push_contains(forward_only, left_diagonal, q);
                if pawn_capture_at(piece, *board, q, -1) {
                    assert(q == left_diagonal);
                }
                if pawn_capture_at(piece, *board, q, 1) {
                    assert(q == right_diagonal);
                }
                if forward_only.contains(q) {
                    assert(exists|k: int| pawn_forward_at(piece, *board, q, k));
                }
            }
            assert(left_diagonal == pawn_side_square(piece, -1));
            assert(right_diagonal == pawn_side_square(piece, 1));
            assert(take_left == pawn_capture_at(piece, *board, pawn_side_square(piece, -1), -1));
            assert(take_right == pawn_capture_at(piece, *board, pawn_side_square(piece, 1), 1));
            assert(after_left =~= forward_only + pawn_capture_list(piece, *board, -1));
            assert(ret_vec@ =~= after_left + pawn_capture_list(piece, *board, 1));
            assert(ret_vec@ == pawn_move_list(piece, *board));
        }
        ret_vec
    }

    /// transform a piece into a desired variant if it stands on its color's
    /// far edge column
    pub fn promote(&mut self, piece_variant: PieceVariant) -> (r: Result<
        PieceVariant,
        &'static str,
    >)
        ensures
            can_promote(*old(self)) ==> r == Ok::<PieceVariant, &'static str>(piece_variant)
                && *final(self) == (Piece {
                variant: piece_variant,
                position: old(self).position,
                color: old(self).color,
            }),
            !can_promote(*old(self)) ==> r is Err && *final(self) == *old(self),
    {
        if self.color == Color::White && self.position.col == 0 || self.color == Color::Black
            && self.position.col == 7 {
            self.variant = piece_variant;
            Ok(piece_variant)
        } else {
            Err("This piece is not qualified for conversion.")
        }
    }

    pub fn get_figure(self) -> (r: u32)
        ensures
            r == piece_figure(self),
    {
        match self.color {
            Color::Black => self.variant.get_figure() + 6,
            Color::White => self.variant.get_figure(),
        }
    }

    pub fn is_black(self) -> (r: bool)
        ensures
            r == (self.color is Black),
    {
        matches!(self.color, Color::Black)
    }
}

/// A white pawn on its home row (row 6) of an otherwise empty board may
/// advance exactly one or two squares: its legal destinations are (c, 5) and
/// (c, 4), and nothing else. No historical flag is consulted, only the row.
pub proof fn lemma_pawn_double_step(pawn: Piece, board: Board, c: int)
    requires
        forall|col: int, row: int|
            crate::board::in_range(col, row) && !(col == c && row == 6) ==> (#[trigger] board.at(
                col,
                row,
            )) is None,
        pawn.variant is Pawn,
        pawn.color is White,
        pawn.position.col as int == c,
        pawn.position.row == 6,
        0 <= c < 8,
    ensures
        forall|q: Position| #[trigger] legal_destination(pawn, board, q) <==> (q.col as int == c
            && (q.row == 5 || q.row == 4)),
        available_moves_list(pawn, board) == seq![
            (Position { col: c as i8, row: 5i8 }),
            (Position { col: c as i8, row: 4i8 }),
        ],
{
    assert forall|q: Position| #[trigger] legal_destination(pawn, board, q) <==> (q.col as int == c
        && (q.row == 5 || q.row == 4)) by {
        let off = pawn_offset(pawn.color);
        assert(off == (Position { col: 0i8, row: -1i8 }));
        assert(pawn_range(pawn) == 2);
        assert(step_col(pawn.position, off, 1) == c && step_row(pawn.position, off, 1) == 5);
        assert(step_col(pawn.position, off, 2) == c && step_row(pawn.position, off, 2) == 4);
        assert(step_cell(board, pawn.position, off, 1) is None);
        assert(step_cell(board, pawn.position, off, 2) is None);
        if q.col as int == c && q.row == 5 {
            assert(pawn_forward_at(pawn, board, q, 1));
        }
        if q.col as int == c && q.row == 4 {
            assert(pawn_forward_at(pawn, board, q, 2));
        }
        if legal_destination(pawn, board, q) {
            if pawn_capture_at(pawn, board, q, -1) || pawn_capture_at(pawn, board, q, 1) {
                assert(board.at(q.col as int, q.row as int) is None);
                assert(false);
            }
            let k = choose|k: int| pawn_forward_at(pawn, board, q, k);
            assert(1 <= k <= 2);
            assert(hits_step(q, pawn.position, off, k));
        }
    }
    let off = pawn_offset(pawn.color);
    assert(off == (Position { col: 0i8, row: -1i8 }));
    assert(pawn_range(pawn) == 2);
    assert(step_cell(board, pawn.position, off, 1) is None);
    assert(step_cell(board, pawn.position, off, 2) is None);
    assert(step_position(pawn.position, off, 1) == (Position { col: c as i8, row: 5i8 }));
    assert(step_position(pawn.position, off, 2) == (Position { col: c as i8, row: 4i8 }));
    assert(pawn_forward_list_from(pawn, board, 3) =~= Seq::<Position>::empty());
    assert(pawn_forward_list_from(pawn, board, 2) =~= seq![(Position { col: c as i8, row: 4i8 })]);
    assert(pawn_forward_list_from(pawn, board, 1) =~= seq![
        (Position { col: c as i8, row: 5i8 }),
        (Position { col: c as i8, row: 4i8 }),
    ]);
    assert(!pawn_capture_at(pawn, board, pawn_side_square(pawn, -1), -1)) by {
        let q = pawn_side_square(pawn, -1);
        if on_board(q) {
            assert(board.at(q.col as int, q.row as int) is None);
        }
    }
    assert(!pawn_capture_at(pawn, board, pawn_side_square(pawn, 1), 1)) by {
        let q = pawn_side_square(pawn, 1);
        if on_board(q) {
            assert(board.at(q.col as int, q.row as int) is None);
        }
    }
    assert(pawn_move_list(pawn, board) =~= seq![
        (Position { col: c as i8, row: 5i8 }),
        (Position { col: c as i8, row: 4i8 }),
    ]);
}

/// The same pawn after it has moved once, now on row 5 of an otherwise empty
/// board, may advance only a single square: its one legal destination is
/// (c, 4).
pub proof fn lemma_pawn_single_step(pawn: Piece, board: Board, c: int)
    requires
        forall|col: int, row: int|
            crate::board::in_range(col, row) && !(col == c && row == 5) ==> (#[trigger] board.at(
                col,
                row,
            )) is None,
        pawn.variant is Pawn,
        pawn.color is White,
        pawn.position.col as int == c,
        pawn.position.row == 5,
        0 <= c < 8,
    ensures
        forall|q: Position| #[trigger] legal_destination(pawn, board, q) <==> (q.col as int == c
            && q.row == 4),
        available_moves_list(pawn, board) == seq![(Position { col: c as i8, row: 4i8 })],
{
    assert forall|q: Position| #[trigger] legal_destination(pawn, board, q) <==> (q.col as int == c
        && q.row == 4) by {
        let off = pawn_offset(pawn.color);
        assert(off == (Position { col: 0i8, row: -1i8 }));
        assert(pawn_range(pawn) == 1);
        assert(step_col(pawn.position, off, 1) == c && step_row(pawn.position, off, 1) == 4);
        assert(step_cell(board, pawn.position, off, 1) is None);
        if q.col as int == c && q.row == 4 {
            assert(pawn_forward_at(pawn, board, q, 1));
        }
        if legal_destination(pawn, board, q) {
            if pawn_capture_at(pawn, board, q, -1) || pawn_capture_at(pawn, board, q, 1) {
                assert(board.at(q.col as int, q.row as int) is None);
                assert(false);
            }
            let k = choose|k: int| pawn_forward_at(pawn, board, q, k);
            assert(k == 1);
            assert(hits_step(q, pawn.position, off, k));
        }
    }
    let off = pawn_offset(pawn.color);
    assert(off == (Position { col: 0i8, row: -1i8 }));
    assert(pawn_range(pawn) == 1);
    assert(step_cell(board, pawn.position, off, 1) is None);
    assert(step_position(pawn.position, off, 1) == (Position { col: c as i8, row: 4i8 }));
    assert(pawn_forward_list_from(pawn, board, 2) =~= Seq::<Position>::empty());
    assert(pawn_forward_list_from(pawn, board, 1) =~= seq![(Position { col: c as i8, row: 4i8 })]);
    assert(!pawn_capture_at(pawn, board, pawn_side_square(pawn, -1), -1)) by {
        let q = pawn_side_square(pawn, -1);
        if on_board(q) {
            assert(board.at(q.col as int, q.row as int) is None);
        }
    }
    assert(!pawn_capture_at(pawn, board, pawn_side_square(pawn, 1), 1)) by {
        let q = pawn_side_square(pawn, 1);
        if on_board(q) {
            assert(board.at(q.col as int, q.row as int) is None);
        }
    }
    assert(pawn_move_list(pawn, board) =~= seq![(Position { col: c as i8, row: 4i8 })]);
}

impl PieceVariant {
    pub fn get_figure(self) -> (r: u32)
        ensures
            r == variant_figure(self),
    {
        match self {
            PieceVariant::Pawn => 0x2659,
            PieceVariant::Knight => 0x2658,
            PieceVariant::Bishop => 0x2657,
            PieceVariant::Rook => 0x2656,
            PieceVariant::Queen => 0x2655,
            PieceVariant::King => 0x2654,
        }
    }
}

// Helper functions

/// check if moves go beyond the chess field
pub fn is_move_on_field(check_move: Position) -> (r: bool)
    ensures
        r == on_board(check_move),
{
    check_move.row >= 0 && check_move.row <= 7 && check_move.col >= 0 && check_move.col <= 7
}

/// check if a move lands on a colored field, and if so on which color
fn field_color(check_move: Position, board: &Board) -> (r: Option<Color>)
    requires
        board.wf(),
        on_board(check_move),
    ensures
        r == match board.at(check_move.col as int, check_move.row as int) {
            Some(p) => Some(p.color),
            None => None::<Color>,
        },
{
    match board.piece_at(check_move) {
        Some(p) => Some(p.color),
        None => None,
    }
}

/// return offset values for walking straight, diagonal, or knight lines
fn dir_to_offset(direction: Direction) -> (r: Position)
    ensures
        r == dir_offset(direction),
        -2 <= r.col <= 2,
        -2 <= r.row <= 2,
{
    match direction {
        Direction::North => Position::new(0, -1),
        Direction::NorthEast => Position::new(1, -1),
        Direction::East => Position::new(1, 0),
        Direction::SouthEast => Position::new(1, 1),
        Direction::South => Position::new(0, 1),
        Direction::SouthWest => Position::new(-1, 1),
        Direction::West => Position::new(-1, 0),
        Direction::NorthWest => Position::new(-1, -1),
        Direction::NorthNorthEast => Position::new(1, -2),
        Direction::EastNorthEast => Position::new(2, -1),
        Direction::EastSouthEast => Position::new(2, 1),
        Direction::SouthSouthEast => Position::new(1, 2),
        Direction::SouthSouthWest => Position::new(-1, 2),
        Direction::WestSouthWest => Position::new(-2, 1),
        Direction::WestNorthWest => Position::new(-2, -1),
        Direction::NorthNorthWest => Position::new(-1, -2),
    }
}

} // verus!
