//! The board: an 8x8 grid of optional pieces, stored row-major, plus the
//! bookkeeping of captured ("beaten") pieces. The board owns all pieces and
//! keeps every stored piece's `position` field synchronized with its cell.

use crate::pieces::{on_board, Color, Piece, PieceVariant, Position};
use vstd::prelude::*;
use vstd::string::StringExecFns;

verus! {

/// The back rank, by column: Rook, Knight, Bishop, Queen, King, Bishop,
/// Knight, Rook.
pub open spec fn back_rank_variant(col: int) -> PieceVariant {
    if col == 0 || col == 7 {
        PieceVariant::Rook
    } else if col == 1 || col == 6 {
        PieceVariant::Knight
    } else if col == 2 || col == 5 {
        PieceVariant::Bishop
    } else if col == 3 {
        PieceVariant::Queen
    } else {
        PieceVariant::King
    }
}

/// The one-letter code of a variant in the textual board export.
pub open spec fn variant_letter(v: PieceVariant) -> char {
    match v {
        PieceVariant::Pawn => 'P',
        PieceVariant::Rook => 'R',
        PieceVariant::Knight => 'N',
        PieceVariant::Bishop => 'B',
        PieceVariant::Queen => 'Q',
        PieceVariant::King => 'K',
    }
}

/// The file letter of a column, A through H.
pub open spec fn column_letter(col: int) -> char {
    if col == 0 {
        'A'
    } else if col == 1 {
        'B'
    } else if col == 2 {
        'C'
    } else if col == 3 {
        'D'
    } else if col == 4 {
        'E'
    } else if col == 5 {
        'F'
    } else if col == 6 {
        'G'
    } else if col == 7 {
        'H'
    } else {
        '?'
    }
}

/// The rank digit of a row: row 0 prints as '8' down to row 7 as '1'.
pub open spec fn rank_digit(row: int) -> char {
    if row == 0 {
        '8'
    } else if row == 1 {
        '7'
    } else if row == 2 {
        '6'
    } else if row == 3 {
        '5'
    } else if row == 4 {
        '4'
    } else if row == 5 {
        '3'
    } else if row == 6 {
        '2'
    } else if row == 7 {
        '1'
    } else {
        '?'
    }
}

/// The one-letter code of a variant, as text.
fn variant_code(v: PieceVariant) -> (r: &'static str)
    ensures
        r@ == seq![variant_letter(v)],
{
    match v {
        PieceVariant::Pawn => {
            proof {
                reveal_strlit("P");
                assert("P"@ =~= seq!['P']);
            }
            "P"
        },
        PieceVariant::Rook => {
            proof {
                reveal_strlit("R");
                assert("R"@ =~= seq!['R']);
            }
            "R"
        },
        PieceVariant::Knight => {
            proof {
                reveal_strlit("N");
                assert("N"@ =~= seq!['N']);
            }
            "N"
        },
        PieceVariant::Bishop => {
            proof {
                reveal_strlit("B");
                assert("B"@ =~= seq!['B']);
            }
            "B"
        },
        PieceVariant::Queen => {
            proof {
                reveal_strlit("Q");
                assert("Q"@ =~= seq!['Q']);
            }
            "Q"
        },
        PieceVariant::King => {
            proof {
                reveal_strlit("K");
                assert("K"@ =~= seq!['K']);
            }
            "K"
        },
    }
}

/// The file letter of a column, as text.
fn file_code(col: i8) -> (r: &'static str)
    ensures
        r@ == seq![column_letter(col as int)],
{
    match col {
        0 => {
            proof {
                reveal_strlit("A");
                assert("A"@ =~= seq!['A']);
            }
            "A"
        },
        1 => {
            proof {
                reveal_strlit("B");
                assert("B"@ =~= seq!['B']);
            }
            "B"
        },
        2 => {
            proof {
                reveal_strlit("C");
                assert("C"@ =~= seq!['C']);
            }
            "C"
        },
        3 => {
            proof {
                reveal_strlit("D");
                assert("D"@ =~= seq!['D']);
            }
            "D"
        },
        4 => {
            proof {
                reveal_strlit("E");
                assert("E"@ =~= seq!['E']);
            }
            "E"
        },
        5 => {
            proof {
                reveal_strlit("F");
                assert("F"@ =~= seq!['F']);
            }
            "F"
        },
        6 => {
            proof {
                reveal_strlit("G");
                assert("G"@ =~= seq!['G']);
            }
            "G"
        },
        7 => {
            proof {
                reveal_strlit("H");
                assert("H"@ =~= seq!['H']);
            }
            "H"
        },
        _ => {
            proof {
                reveal_strlit("?");
                assert("?"@ =~= seq!['?']);
            }
            "?"
        },
    }
}

/// The rank digit of a row, as text.
fn rank_code(row: i8) -> (r: &'static str)
    ensures
        r@ == seq![rank_digit(row as int)],
{
    match row {
        0 => {
            proof {
                reveal_strlit("8");
                assert("8"@ =~= seq!['8']);
            }
            "8"
        },
        1 => {
            proof {
                reveal_strlit("7");
                assert("7"@ =~= seq!['7']);
            }
            "7"
        },
        2 => {
            proof {
                reveal_strlit("6");
                assert("6"@ =~= seq!['6']);
            }
            "6"
        },
        3 => {
            proof {
                reveal_strlit("5");
                assert("5"@ =~= seq!['5']);
            }
            "5"
        },
        4 => {
            proof {
                reveal_strlit("4");
                assert("4"@ =~= seq!['4']);
            }
            "4"
        },
        5 => {
            proof {
                reveal_strlit("3");
                assert("3"@ =~= seq!['3']);
            }
            "3"
        },
        6 => {
            proof {
                reveal_strlit("2");
                assert("2"@ =~= seq!['2']);
            }
            "2"
        },
        7 => {
            proof {
                reveal_strlit("1");
                assert("1"@ =~= seq!['1']);
            }
            "1"
        },
        _ => {
            proof {
                reveal_strlit("?");
                assert("?"@ =~= seq!['?']);
            }
            "?"
        },
    }
}

/// What one cell contributes to the textual export: nothing when empty, else
/// variant code, file letter, rank digit, and a trailing space.
pub open spec fn cell_notation(cell: Option<Piece>) -> Seq<char> {
    match cell {
        Some(p) => seq![
            variant_letter(p.variant),
            column_letter(p.position.col as int),
            rank_digit(p.position.row as int),
            ' ',
        ],
        None => Seq::<char>::empty(),
    }
}

/// The textual export of a board's first `n` cells, spelled over the public
/// cell lookup `at`: cell i lies in column i % 8 of row i / 8, and the cells
/// contribute in row-major order.
pub open spec fn notation_of_cells(board: Board, n: int) -> Seq<char>
    decreases n,
{
    if n <= 0 {
        Seq::<char>::empty()
    } else {
        notation_of_cells(board, n - 1) + cell_notation(board.at((n - 1) % 8, (n - 1) / 8))
    }
}

/// What `Board::to_string` exports, cell by cell: the board's notation is
/// the concatenation of each cell's contribution, in row-major order.
pub proof fn lemma_notation(board: Board)
    ensures
        board.notation() == notation_of_cells(board, 64),
{
    lemma_notation_upto(board, 64);
}

/// The cell-by-cell reading of the export, for any prefix of the grid.
pub proof fn lemma_notation_upto(board: Board, n: int)
    requires
        n <= 64,
    ensures
        board.notation_upto(n) == notation_of_cells(board, n),
    decreases n,
{
    if n > 0 {
        lemma_notation_upto(board, n - 1);
        assert(((n - 1) / 8) * 8 + ((n - 1) % 8) == n - 1);
        assert(board.at((n - 1) % 8, (n - 1) / 8) == board.board_array@[n - 1]);
    }
}

/// Every occupied cell of a well-formed board holds a piece whose stored
/// `position` equals that cell's coordinates. `Board::new`, `initialize` and
/// `update_field` each ensure well-formedness, so this holds after any
/// sequence of applied moves.
pub proof fn lemma_position_cell_sync(board: Board, col: int, row: int)
    requires
        board.wf(),
        in_range(col, row),
        board.at(col, row) is Some,
    ensures
        board.at(col, row)->Some_0.position.col as int == col,
        board.at(col, row)->Some_0.position.row as int == row,
{
}

/// No two occupied cells of a well-formed board hold the same piece: the
/// stored position pins each piece to its own cell.
pub proof fn lemma_distinct_pieces(board: Board, c1: int, r1: int, c2: int, r2: int)
    requires
        board.wf(),
        in_range(c1, r1),
        in_range(c2, r2),
        !(c1 == c2 && r1 == r2),
        board.at(c1, r1) is Some,
        board.at(c2, r2) is Some,
    ensures
        board.at(c1, r1)->Some_0 != board.at(c2, r2)->Some_0,
{
    lemma_position_cell_sync(board, c1, r1);
    lemma_position_cell_sync(board, c2, r2);
}

/// The standard starting layout places exactly one king per color: black's
/// on cell (4, 0) and white's on cell (4, 7), and no other cell holds a
/// king. Together with the preservation clause of `update_field` this gives
/// the invariant that a color's king occupies exactly one cell until it is
/// captured.
pub proof fn lemma_initial_kings(board: Board)
    requires
        forall|c: int|
            0 <= c < 8 ==> #[trigger] board.at(c, 0) == Some(
                (Piece {
                    variant: back_rank_variant(c),
                    position: (Position { col: c as i8, row: 0 }),
                    color: Color::Black,
                }),
            ),
        forall|c: int|
            0 <= c < 8 ==> #[trigger] board.at(c, 1) == Some(
                (Piece {
                    variant: PieceVariant::Pawn,
                    position: (Position { col: c as i8, row: 1 }),
                    color: Color::Black,
                }),
            ),
        forall|c: int|
            0 <= c < 8 ==> #[trigger] board.at(c, 6) == Some(
                (Piece {
                    variant: PieceVariant::Pawn,
                    position: (Position { col: c as i8, row: 6 }),
                    color: Color::White,
                }),
            ),
        forall|c: int|
            0 <= c < 8 ==> #[trigger] board.at(c, 7) == Some(
                (Piece {
                    variant: back_rank_variant(c),
                    position: (Position { col: c as i8, row: 7 }),
                    color: Color::White,
                }),
            ),
        forall|c: int, r: int| in_range(c, r) && 2 <= r <= 5 ==> #[trigger] board.at(c, r) is None,
    ensures
        is_king_of(board.at(4, 0), Color::Black),
        is_king_of(board.at(4, 7), Color::White),
        board.king_unique(Color::Black),
        board.king_unique(Color::White),
{
    assert(back_rank_variant(4) is King);
    assert(board.at(4, 0) == board.at(4, 0));
    assert(board.at(4, 7) == board.at(4, 7));
    assert forall|c1: int, r1: int, c2: int, r2: int|
        in_range(c1, r1) && in_range(c2, r2) && is_king_of(#[trigger] board.at(c1, r1), Color::Black)
            && is_king_of(#[trigger] board.at(c2, r2), Color::Black) implies c1 == c2 && r1 == r2 by {
        assert(board.at(c1, 0) == board.at(c1, 0));
        assert(board.at(c1, 1) == board.at(c1, 1));
        assert(board.at(c1, 6) == board.at(c1, 6));
        assert(board.at(c1, 7) == board.at(c1, 7));
        assert(board.at(c2, 0) == board.at(c2, 0));
        assert(board.at(c2, 1) == board.at(c2, 1));
        assert(board.at(c2, 6) == board.at(c2, 6));
        assert(board.at(c2, 7) == board.at(c2, 7));
    }
    assert forall|c1: int, r1: int, c2: int, r2: int|
        in_range(c1, r1) && in_range(c2, r2) && is_king_of(#[trigger] board.at(c1, r1), Color::White)
            && is_king_of(#[trigger] board.at(c2, r2), Color::White) implies c1 == c2 && r1 == r2 by {
        assert(board.at(c1, 0) == board.at(c1, 0));
        assert(board.at(c1, 1) == board.at(c1, 1));
        assert(board.at(c1, 6) == board.at(c1, 6));
        assert(board.at(c1, 7) == board.at(c1, 7));
        assert(board.at(c2, 0) == board.at(c2, 0));
        assert(board.at(c2, 1) == board.at(c2, 1));
        assert(board.at(c2, 6) == board.at(c2, 6));
        assert(board.at(c2, 7) == board.at(c2, 7));
    }
}

pub struct Board {
    beaten_white_pieces: Vec<Piece>,
    beaten_black_pieces: Vec<Piece>,
    /// Cell (col, row) lives at index `row * 8 + col`.
    board_array: Vec<Option<Piece>>,
}

/// True iff (col, row) denotes one of the 64 cells.
pub open spec fn in_range(col: int, row: int) -> bool {
    0 <= col < 8 && 0 <= row < 8
}

/// True iff the cell holds a king of the given color.
pub open spec fn is_king_of(cell: Option<Piece>, color: Color) -> bool {
    match cell {
        Some(p) => p.variant is King && p.color == color,
        None => false,
    }
}

impl Board {
    /// The piece stored in cell (col, row), as a mathematical lookup.
    pub closed spec fn at(self, col: int, row: int) -> Option<Piece> {
        self.board_array@[row * 8 + col]
    }

    pub closed spec fn beaten_white(self) -> Seq<Piece> {
        self.beaten_white_pieces@
    }

    pub closed spec fn beaten_black(self) -> Seq<Piece> {
        self.beaten_black_pieces@
    }

    /// At most one cell holds a king of the given color: the invariant
    /// "a color's king occupies exactly one cell until captured", in the
    /// at-most-one half that every move preserves.
    pub open spec fn king_unique(self, color: Color) -> bool {
        forall|c1: int, r1: int, c2: int, r2: int|
            in_range(c1, r1) && in_range(c2, r2) && is_king_of(#[trigger] self.at(c1, r1), color)
                && is_king_of(#[trigger] self.at(c2, r2), color) ==> c1 == c2 && r1 == r2
    }

    /// Well-formedness: the grid has all 64 cells, and every occupied cell
    /// holds a piece whose `position` field equals that cell's coordinates.
    pub closed spec fn wf(self) -> bool {
        &&& self.board_array@.len() == 64
        &&& forall|col: int, row: int|
            in_range(col, row) ==> match #[trigger] self.at(col, row) {
                Some(p) => p.position.col as int == col && p.position.row as int == row,
                None => true,
            }
    }

    /// A fresh board: all cells empty, no captured pieces.
    pub fn new() -> (r: Board)
        ensures
            r.wf(),
            forall|col: int, row: int| in_range(col, row) ==> #[trigger] r.at(col, row) is None,
            r.beaten_white() == Seq::<Piece>::empty(),
            r.beaten_black() == Seq::<Piece>::empty(),
    {
        let mut cells: Vec<Option<Piece>> = Vec::new();
        let mut i: usize = 0;
        while i < 64
            invariant
                i <= 64,
                cells@.len() == i as int,
                forall|j: int| 0 <= j < i as int ==> cells@[j] is None,
            decreases 64 - i,
        {
            cells.push(None);
            i += 1;
        }
        Board { beaten_white_pieces: Vec::new(), beaten_black_pieces: Vec::new(), board_array: cells }
    }

    /// The textual export of the first `n` cells, in row-major order.
    pub closed spec fn notation_upto(self, n: int) -> Seq<char>
        decreases n,
    {
        if n <= 0 {
            Seq::<char>::empty()
        } else {
            self.notation_upto(n - 1) + cell_notation(self.board_array@[n - 1])
        }
    }

    /// The whitespace-separated textual export of the whole board.
    pub closed spec fn notation(self) -> Seq<char> {
        self.notation_upto(64)
    }

    /// initializes a board with the default chess layout: black's back rank
    /// on row 0 and pawns on row 1, white's pawns on row 6 and back rank on
    /// row 7; the middle rows are left as they were
    pub fn initialize(&mut self)
        requires
            old(self).wf(),
        ensures
            final(self).wf(),
            forall|c: int|
                0 <= c < 8 ==> #[trigger] final(self).at(c, 0) == Some(
                    (Piece {
                        variant: back_rank_variant(c),
                        position: (Position { col: c as i8, row: 0 }),
                        color: Color::Black,
                    }),
                ),
            forall|c: int|
                0 <= c < 8 ==> #[trigger] final(self).at(c, 1) == Some(
                    (Piece {
                        variant: PieceVariant::Pawn,
                        position: (Position { col: c as i8, row: 1 }),
                        color: Color::Black,
                    }),
                ),
            forall|c: int|
                0 <= c < 8 ==> #[trigger] final(self).at(c, 6) == Some(
                    (Piece {
                        variant: PieceVariant::Pawn,
                        position: (Position { col: c as i8, row: 6 }),
                        color: Color::White,
                    }),
                ),
            forall|c: int|
                0 <= c < 8 ==> #[trigger] final(self).at(c, 7) == Some(
                    (Piece {
                        variant: back_rank_variant(c),
                        position: (Position { col: c as i8, row: 7 }),
                        color: Color::White,
                    }),
                ),
            forall|c: int, r: int|
                in_range(c, r) && 2 <= r <= 5 ==> #[trigger] final(self).at(c, r) == old(self).at(
                    c,
                    r,
                ),
            final(self).beaten_white() == old(self).beaten_white(),
            final(self).beaten_black() == old(self).beaten_black(),
    {
        self.fill_with_pieces(0, Color::Black);
        self.fill_with_pawns(1, Color::Black);
        self.fill_with_pawns(6, Color::White);
        self.fill_with_pieces(7, Color::White);
    }

    fn fill_with_pieces(&mut self, row_index: i8, color: Color)
        requires
            old(self).wf(),
            0 <= row_index <= 7,
        ensures
            final(self).wf(),
            forall|c: int|
                0 <= c < 8 ==> #[trigger] final(self).at(c, row_index as int) == Some(
                    (Piece {
                        variant: back_rank_variant(c),
                        position: (Position { col: c as i8, row: row_index }),
                        color,
                    }),
                ),
            forall|c: int, r: int|
                in_range(c, r) && r != row_index as int ==> #[trigger] final(self).at(c, r) == old(
                    self,
                ).at(c, r),
            final(self).beaten_white() == old(self).beaten_white(),
            final(self).beaten_black() == old(self).beaten_black(),
    {
        let mut col_index: usize = 0;
        while col_index < 8
            invariant
                old(self).wf(),
                0 <= row_index <= 7,
                col_index <= 8,
                self.board_array@.len() == 64,
                self.beaten_white() == old(self).beaten_white(),
                self.beaten_black() == old(self).beaten_black(),
                forall|c: int|
                    0 <= c < col_index as int ==> #[trigger] self.at(c, row_index as int) == Some(
                        (Piece {
                            variant: back_rank_variant(c),
                            position: (Position { col: c as i8, row: row_index }),
                            color,
                        }),
                    ),
                forall|c: int, r: int|
                    in_range(c, r) && !(r == row_index as int && c < col_index as int)
                        ==> #[trigger] self.at(c, r) == old(self).at(c, r),
            decreases 8 - col_index,
        {
            let variant = if col_index == 0 || col_index == 7 {
                PieceVariant::Rook
            } else if col_index == 1 || col_index == 6 {
                PieceVariant::Knight
            } else if col_index == 2 || col_index == 5 {
                PieceVariant::Bishop
            } else if col_index == 3 {
                PieceVariant::Queen
            } else {
                PieceVariant::King
            };
            let idx: usize = (row_index as usize) * 8 + col_index;
            let ghost prev = *self;
            self.board_array[idx] = Some(
                Piece::new(variant, Position::new(col_index as i8, row_index), color),
            );
            proof {
                assert forall|c: int, r: int| in_range(c, r) implies #[trigger] self.at(c, r)
                    == if r == row_index as int && c == col_index as int {
                    Some(
                        (Piece {
                            variant: back_rank_variant(c),
                            position: (Position { col: c as i8, row: row_index }),
                            color,
                        }),
                    )
                } else {
                    prev.at(c, r)
                } by {
                    assert(prev.at(c, r) == prev.board_array@[r * 8 + c]);
                }
            }
            col_index += 1;
        }
    }

    fn fill_with_pawns(&mut self, row_index: i8, color: Color)
        requires
            old(self).wf(),
            0 <= row_index <= 7,
        ensures
            final(self).wf(),
            forall|c: int|
                0 <= c < 8 ==> #[trigger] final(self).at(c, row_index as int) == Some(
                    (Piece {
                        variant: PieceVariant::Pawn,
                        position: (Position { col: c as i8, row: row_index }),
                        color,
                    }),
                ),
            forall|c: int, r: int|
                in_range(c, r) && r != row_index as int ==> #[trigger] final(self).at(c, r) == old(
                    self,
                ).at(c, r),
            final(self).beaten_white() == old(self).beaten_white(),
            final(self).beaten_black() == old(self).beaten_black(),
    {
        let mut col_index: usize = 0;
        while col_index < 8
            invariant
                old(self).wf(),
                0 <= row_index <= 7,
                col_index <= 8,
                self.board_array@.len() == 64,
                self.beaten_white() == old(self).beaten_white(),
                self.beaten_black() == old(self).beaten_black(),
                forall|c: int|
                    0 <= c < col_index as int ==> #[trigger] self.at(c, row_index as int) == Some(
                        (Piece {
                            variant: PieceVariant::Pawn,
                            position: (Position { col: c as i8, row: row_index }),
                            color,
                        }),
                    ),
                forall|c: int, r: int|
                    in_range(c, r) && !(r == row_index as int && c < col_index as int)
                        ==> #[trigger] self.at(c, r) == old(self).at(c, r),
            decreases 8 - col_index,
        {
            let idx: usize = (row_index as usize) * 8 + col_index;
            let ghost prev = *self;
            self.board_array[idx] = Some(
                Piece::new(PieceVariant::Pawn, Position::new(col_index as i8, row_index), color),
            );
            proof {
                assert forall|c: int, r: int| in_range(c, r) implies #[trigger] self.at(c, r)
                    == if r == row_index as int && c == col_index as int {
                    Some(
                        (Piece {
                            variant: PieceVariant::Pawn,
                            position: (Position { col: c as i8, row: row_index }),
                            color,
                        }),
                    )
                } else {
                    prev.at(c, r)
                } by {
                    assert(prev.at(c, r) == prev.board_array@[r * 8 + c]);
                }
            }
            col_index += 1;
        }
    }

    /// Applies a move: captures whatever stands on the destination, moves the
    /// piece, and keeps its `position` field synchronized. Returns the
    /// game-over signal, carrying the mover's color, exactly when the
    /// captured piece is a king.
    pub fn update_field(&mut self, old_piece_pos: Position, new_piece_pos: Position) -> (r: Result<
        (),
        Color,
    >)
        requires
            old(self).wf(),
            on_board(old_piece_pos),
            on_board(new_piece_pos),
            old(self).at(old_piece_pos.col as int, old_piece_pos.row as int) is Some,
            old_piece_pos != new_piece_pos,
        ensures
            final(self).wf(),
            forall|kc: Color|
                old(self).king_unique(kc) ==> #[trigger] final(self).king_unique(kc),
            ({
                let moved = old(self).at(old_piece_pos.col as int, old_piece_pos.row as int)->Some_0;
                let target = old(self).at(new_piece_pos.col as int, new_piece_pos.row as int);
                &&& final(self).at(new_piece_pos.col as int, new_piece_pos.row as int) == Some(
                    (Piece { variant: moved.variant, position: new_piece_pos, color: moved.color }),
                )
                &&& final(self).at(old_piece_pos.col as int, old_piece_pos.row as int) is None
                &&& forall|c: int, r: int|
                    in_range(c, r) && !(c == old_piece_pos.col as int && r == old_piece_pos.row as int)
                        && !(c == new_piece_pos.col as int && r == new_piece_pos.row as int)
                        ==> #[trigger] final(self).at(c, r) == old(self).at(c, r)
                &&& (r is Err <==> target is Some && target->Some_0.variant is King)
                &&& (r is Err ==> r->Err_0 == moved.color)
                &&& match target {
                    Some(captured) => if captured.color is Black {
                        final(self).beaten_black() == old(self).beaten_black().push(captured)
                            && final(self).beaten_white() == old(self).beaten_white()
                    } else {
                        final(self).beaten_white() == old(self).beaten_white().push(captured)
                            && final(self).beaten_black() == old(self).beaten_black()
                    },
                    None => final(self).beaten_white() == old(self).beaten_white()
                        && final(self).beaten_black() == old(self).beaten_black(),
                }
            }),
    {
        let to_idx: usize = (new_piece_pos.row as usize) * 8 + (new_piece_pos.col as usize);
        let from_idx: usize = (old_piece_pos.row as usize) * 8 + (old_piece_pos.col as usize);
        let mut king_captured = false;
        if let Some(p) = self.board_array[to_idx] {
            if p.is_black() {
                self.beaten_black_pieces.push(p);
            } else {
                self.beaten_white_pieces.push(p);
            }
            if matches!(p.variant, PieceVariant::King) {
                king_captured = true;
            }
        }
        let moving = self.board_array[from_idx];
        self.board_array[from_idx] = None;
        let mut r: Result<(), Color> = Ok(());
        if let Some(moved_piece) = moving {
            let relocated = Piece::new(moved_piece.variant, new_piece_pos, moved_piece.color);
            self.board_array[to_idx] = Some(relocated);
            if king_captured {
                r = Err(moved_piece.color);
            }
            proof {
                let fc = old_piece_pos.col as int;
                let fr = old_piece_pos.row as int;
                let tc = new_piece_pos.col as int;
                let tr = new_piece_pos.row as int;
                assert forall|c: int, r2: int| in_range(c, r2) implies #[trigger] self.at(c, r2)
                    == if c == tc && r2 == tr {
                    Some(relocated)
                } else if c == fc && r2 == fr {
                    None
                } else {
                    old(self).at(c, r2)
                } by {
                    assert(old(self).at(c, r2) == old(self).board_array@[r2 * 8 + c]);
                }
                assert forall|kc: Color| old(self).king_unique(kc) implies #[trigger] self.king_unique(
                    kc,
                ) by {
                    assert forall|c1: int, r1: int, c2: int, r2: int|
                        in_range(c1, r1) && in_range(c2, r2) && is_king_of(
                            #[trigger] self.at(c1, r1),
                            kc,
                        ) && is_king_of(#[trigger] self.at(c2, r2), kc) implies c1 == c2 && r1 == r2 by {
                        if c1 == tc && r1 == tr {
                            assert(is_king_of(old(self).at(fc, fr), kc));
                        } else {
                            assert(is_king_of(old(self).at(c1, r1), kc));
                        }
                        if c2 == tc && r2 == tr {
                            assert(is_king_of(old(self).at(fc, fr), kc));
                        } else {
                            assert(is_king_of(old(self).at(c2, r2), kc));
                        }
                    }
                }
            }
        }
        r
    }

    /// output the state of the board in chess notation
    pub fn to_string(&self) -> (r: String)
        requires
            self.wf(),
        ensures
            r@ == self.notation(),
    {
        let mut piece_str = String::new();
        let mut i: usize = 0;
        while i < 64
            invariant
                self.wf(),
                i <= 64,
                piece_str@ == self.notation_upto(i as int),
            decreases 64 - i,
        {
            if let Some(p) = self.board_array[i] {
                let ghost pre = piece_str@;
                piece_str.append(variant_code(p.variant));
                piece_str.append(file_code(p.position.col));
                piece_str.append(rank_code(p.position.row));
                piece_str.append(" ");
                proof {
                    reveal_strlit(" ");
                    assert(" "@ =~= seq![' ']);
                    assert(piece_str@ =~= pre + cell_notation(self.board_array@[i as int]));
                }
            }
            i += 1;
        }
        piece_str
    }

    /// Write access to the grid: put a piece on a cell (replacing whatever
    /// was there), keeping its `position` field synchronized with the cell.
    pub fn place_piece(&mut self, variant: PieceVariant, pos: Position, color: Color)
        requires
            old(self).wf(),
            on_board(pos),
        ensures
            final(self).wf(),
            final(self).at(pos.col as int, pos.row as int) == Some(
                (Piece { variant, position: pos, color }),
            ),
            forall|c: int, r: int|
                in_range(c, r) && !(c == pos.col as int && r == pos.row as int)
                    ==> #[trigger] final(self).at(c, r) == old(self).at(c, r),
            final(self).beaten_white() == old(self).beaten_white(),
            final(self).beaten_black() == old(self).beaten_black(),
    {
        let idx: usize = (pos.row as usize) * 8 + (pos.col as usize);
        self.board_array[idx] = Some(Piece::new(variant, pos, color));
        proof {
            assert forall|c: int, r: int| in_range(c, r) implies #[trigger] self.at(c, r)
                == if c == pos.col as int && r == pos.row as int {
                Some((Piece { variant, position: pos, color }))
            } else {
                old(self).at(c, r)
            } by {
                assert(old(self).at(c, r) == old(self).board_array@[r * 8 + c]);
            }
        }
    }

    /// Read access to the grid for rendering and for callers of the engine.
    pub fn piece_at(&self, pos: Position) -> (r: Option<Piece>)
        requires
            self.wf(),
            on_board(pos),
        ensures
            r == self.at(pos.col as int, pos.row as int),
    {
        let idx: usize = (pos.row as usize) * 8 + (pos.col as usize);
        self.board_array[idx]
    }
}

} // verus!
