//! A small chess rules engine: board state, per-piece legal-move generation
//! by geometric pattern, move application with capture bookkeeping, and pawn
//! promotion. Terminal rendering and input decoding live outside the engine
//! and drive it through the public interface; the cursor that a driver moves
//! over the board and over a selected piece's move set is modelled here.

pub mod board;
pub mod console;
pub mod pieces;
pub mod user_input;

use crate::pieces::{on_board, Position};
use vstd::prelude::*;

verus! {

#[derive(Clone, Copy, PartialEq, Eq, Structural, Debug)]
pub struct CursorPosition {
    pub col: i8,
    pub row: i8,
}

/// |a - b| over the mathematical integers.
pub open spec fn abs_diff(a: int, b: int) -> int {
    if a >= b {
        a - b
    } else {
        b - a
    }
}

/// Manhattan distance from the cursor to a board position.
pub open spec fn manhattan(cursor: CursorPosition, p: Position) -> int {
    abs_diff(cursor.col as int, p.col as int) + abs_diff(cursor.row as int, p.row as int)
}

/// True iff `after` is the position the nearest-position search selects from
/// `moves` as seen from `cursor`: the first element at minimal Manhattan
/// distance.
pub open spec fn picks_nearest(
    cursor: CursorPosition,
    moves: Seq<Position>,
    after: CursorPosition,
) -> bool {
    exists|i: int|
        #![trigger moves[i]]
        {
            &&& 0 <= i < moves.len()
            &&& after.col == moves[i].col && after.row == moves[i].row
            &&& forall|j: int|
                0 <= j < moves.len() ==> manhattan(cursor, moves[i]) <= manhattan(
                    cursor,
                    #[trigger] moves[j],
                )
            &&& forall|j: int|
                0 <= j < i ==> manhattan(cursor, #[trigger] moves[j]) > manhattan(cursor, moves[i])
        }
}

/// The candidates that lie strictly above the given row.
pub open spec fn row_above(limit: i8) -> spec_fn(Position) -> bool {
    |c: Position| c.row < limit
}

/// The candidates that lie strictly below the given row.
pub open spec fn row_below(limit: i8) -> spec_fn(Position) -> bool {
    |c: Position| c.row > limit
}

/// The candidates that lie strictly left of the given column.
pub open spec fn col_left_of(limit: i8) -> spec_fn(Position) -> bool {
    |c: Position| c.col < limit
}

/// The candidates that lie strictly right of the given column.
pub open spec fn col_right_of(limit: i8) -> spec_fn(Position) -> bool {
    |c: Position| c.col > limit
}

impl CursorPosition {
    /// The cursor stays on the 8x8 board.
    pub open spec fn wf(self) -> bool {
        0 <= self.col <= 7 && 0 <= self.row <= 7
    }

    pub fn new() -> (r: CursorPosition)
        ensures
            r.col == 0,
            r.row == 0,
            r.wf(),
    {
        CursorPosition { col: 0, row: 0 }
    }

    pub fn get_position(&self) -> (r: (u16, u16))
        requires
            self.wf(),
        ensures
            r.0 as int == self.col as int,
            r.1 as int == self.row as int,
    {
        (self.col as u16, self.row as u16)
    }

    /// The Manhattan distance from the cursor to each candidate position.
    pub fn calc_manhattan_metrik(&mut self, move_set: &Vec<Position>) -> (metrik: Vec<i8>)
        requires
            old(self).wf(),
            forall|i: int| 0 <= i < move_set@.len() ==> on_board(#[trigger] move_set@[i]),
        ensures
            *final(self) == *old(self),
            metrik@.len() == move_set@.len(),
            forall|i: int|
                0 <= i < move_set@.len() ==> metrik@[i] as int == manhattan(
                    *old(self),
                    #[trigger] move_set@[i],
                ),
    {
        let ghost cur = *self;
        let mut metrik: Vec<i8> = Vec::new();
        let mut i: usize = 0;
        while i < move_set.len()
            invariant
                cur == *self,
                cur.wf(),
                i <= move_set@.len(),
                forall|t: int| 0 <= t < move_set@.len() ==> on_board(#[trigger] move_set@[t]),
                metrik@.len() == i as int,
                forall|t: int|
                    0 <= t < i as int ==> metrik@[t] as int == manhattan(
                        cur,
                        #[trigger] move_set@[t],
                    ),
            decreases move_set@.len() - i,
        {
            let c = move_set[i];
            let col_dist = if self.col >= c.col {
                self.col - c.col
            } else {
                c.col - self.col
            };
            let row_dist = if self.row >= c.row {
                self.row - c.row
            } else {
                c.row - self.row
            };
            metrik.push(col_dist + row_dist);
            i += 1;
        }
        metrik
    }

    /// Move the cursor to the candidate nearest to it (the first one, when
    /// several are equally near); an empty candidate set leaves it in place.
    pub fn set_to_nearest_pos(&mut self, move_set: &Vec<Position>)
        requires
            old(self).wf(),
            forall|i: int| 0 <= i < move_set@.len() ==> on_board(#[trigger] move_set@[i]),
        ensures
            final(self).wf(),
            move_set@.len() == 0 ==> *final(self) == *old(self),
            move_set@.len() > 0 ==> picks_nearest(*old(self), move_set@, *final(self)),
    {
        let ghost cur = *self;
        let metrik_vec = self.calc_manhattan_metrik(move_set);
        if metrik_vec.len() == 0 {
            return ;
        }
        let mut min_index: usize = 0;
        let mut idx: usize = 1;
        while idx < metrik_vec.len()
            invariant
                cur == *self,
                cur.wf(),
                metrik_vec@.len() == move_set@.len(),
                move_set@.len() > 0,
                forall|t: int| 0 <= t < move_set@.len() ==> on_board(#[trigger] move_set@[t]),
                forall|t: int|
                    0 <= t < move_set@.len() ==> metrik_vec@[t] as int == manhattan(
                        cur,
                        #[trigger] move_set@[t],
                    ),
                0 <= min_index < idx,
                idx <= metrik_vec@.len(),
                forall|j: int|
                    0 <= j < idx as int ==> metrik_vec@[min_index as int] <= #[trigger] metrik_vec@[j],
                forall|j: int|
                    0 <= j < min_index as int ==> #[trigger] metrik_vec@[j] > metrik_vec@[min_index as int],
            decreases metrik_vec@.len() - idx,
        {
            if metrik_vec[idx] < metrik_vec[min_index] {
                min_index = idx;
            }
            idx += 1;
        }
        self.col = move_set[min_index].col;
        self.row = move_set[min_index].row;
        proof {
            assert forall|j: int| 0 <= j < move_set@.len() implies manhattan(
                cur,
                move_set@[min_index as int],
            ) <= manhattan(cur, #[trigger] move_set@[j]) by {
                assert(metrik_vec@[min_index as int] <= metrik_vec@[j]);
            }
            assert forall|j: int| 0 <= j < min_index as int implies manhattan(
                cur,
                #[trigger] move_set@[j],
            ) > manhattan(cur, move_set@[min_index as int]) by {
                assert(metrik_vec@[j] > metrik_vec@[min_index as int]);
            }
            assert(move_set@[min_index as int] == move_set@[min_index as int]);
        }
    }

    /// Move the cursor to the nearest candidate strictly above it.
    pub fn move_with_piece_up(&mut self, move_set: &Vec<Position>)
        requires
            old(self).wf(),
            forall|i: int| 0 <= i < move_set@.len() ==> on_board(#[trigger] move_set@[i]),
        ensures
            final(self).wf(),
            ({
                let candidates = move_set@.filter(row_above(old(self).row));
                &&& candidates.len() == 0 ==> *final(self) == *old(self)
                &&& candidates.len() > 0 ==> picks_nearest(*old(self), candidates, *final(self))
            }),
    {
        let ghost cur = *self;
        let mut move_set_vec: Vec<Position> = Vec::new();
        proof {
            reveal(Seq::filter);
            assert(move_set@.subrange(0, 0).filter(row_above(cur.row)) =~= Seq::<Position>::empty());
        }
        let mut i: usize = 0;
        while i < move_set.len()
            invariant
                cur == *self,
                cur.wf(),
                i <= move_set@.len(),
                forall|t: int| 0 <= t < move_set@.len() ==> on_board(#[trigger] move_set@[t]),
                move_set_vec@ == move_set@.subrange(0, i as int).filter(row_above(cur.row)),
                forall|t: int| 0 <= t < move_set_vec@.len() ==> on_board(#[trigger] move_set_vec@[t]),
            decreases move_set@.len() - i,
        {
            let c = move_set[i];
            if c.row < self.row {
                move_set_vec.push(c);
            }
            proof {
                reveal(Seq::filter);
                let sub1 = move_set@.subrange(0, i + 1);
                assert(sub1.drop_last() =~= move_set@.subrange(0, i as int));
                assert(sub1.last() == move_set@[i as int]);
                assert(move_set_vec@ == sub1.filter(row_above(cur.row)));
            }
            i += 1;
        }
        proof {
            assert(move_set@.subrange(0, move_set@.len() as int) =~= move_set@);
        }
        self.set_to_nearest_pos(&move_set_vec);
    }

    /// Move the cursor to the nearest candidate strictly below it.
    pub fn move_with_piece_down(&mut self, move_set: &Vec<Position>)
        requires
            old(self).wf(),
            forall|i: int| 0 <= i < move_set@.len() ==> on_board(#[trigger] move_set@[i]),
        ensures
            final(self).wf(),
            ({
                let candidates = move_set@.filter(row_below(old(self).row));
                &&& candidates.len() == 0 ==> *final(self) == *old(self)
                &&& candidates.len() > 0 ==> picks_nearest(*old(self), candidates, *final(self))
            }),
    {
        let ghost cur = *self;
        let mut move_set_vec: Vec<Position> = Vec::new();
        proof {
            reveal(Seq::filter);
            assert(move_set@.subrange(0, 0).filter(row_below(cur.row)) =~= Seq::<Position>::empty());
        }
        let mut i: usize = 0;
        while i < move_set.len()
            invariant
                cur == *self,
                cur.wf(),
                i <= move_set@.len(),
                forall|t: int| 0 <= t < move_set@.len() ==> on_board(#[trigger] move_set@[t]),
                move_set_vec@ == move_set@.subrange(0, i as int).filter(row_below(cur.row)),
                forall|t: int| 0 <= t < move_set_vec@.len() ==> on_board(#[trigger] move_set_vec@[t]),
            decreases move_set@.len() - i,
        {
            let c = move_set[i];
            if c.row > self.row {
                move_set_vec.push(c);
            }
            proof {
                reveal(Seq::filter);
                let sub1 = move_set@.subrange(0, i + 1);
                assert(sub1.drop_last() =~= move_set@.subrange(0, i as int));
                assert(sub1.last() == move_set@[i as int]);
                assert(move_set_vec@ == sub1.filter(row_below(cur.row)));
            }
            i += 1;
        }
        proof {
            assert(move_set@.subrange(0, move_set@.len() as int) =~= move_set@);
        }
        self.set_to_nearest_pos(&move_set_vec);
    }

    /// Move the cursor to the nearest candidate strictly left of it.
    pub fn move_with_piece_left(&mut self, move_set: &Vec<Position>)
        requires
            old(self).wf(),
            forall|i: int| 0 <= i < move_set@.len() ==> on_board(#[trigger] move_set@[i]),
        ensures
            final(self).wf(),
            ({
                let candidates = move_set@.filter(col_left_of(old(self).col));
                &&& candidates.len() == 0 ==> *final(self) == *old(self)
                &&& candidates.len() > 0 ==> picks_nearest(*old(self), candidates, *final(self))
            }),
    {
        let ghost cur = *self;
        let mut move_set_vec: Vec<Position> = Vec::new();
        proof {
            reveal(Seq::filter);
            assert(move_set@.subrange(0, 0).filter(col_left_of(cur.col)) =~= Seq::<Position>::empty());
        }
        let mut i: usize = 0;
        while i < move_set.len()
            invariant
                cur == *self,
                cur.wf(),
                i <= move_set@.len(),
                forall|t: int| 0 <= t < move_set@.len() ==> on_board(#[trigger] move_set@[t]),
                move_set_vec@ == move_set@.subrange(0, i as int).filter(col_left_of(cur.col)),
                forall|t: int| 0 <= t < move_set_vec@.len() ==> on_board(#[trigger] move_set_vec@[t]),
            decreases move_set@.len() - i,
        {
            let c = move_set[i];
            if c.col < self.col {
                move_set_vec.push(c);
            }
            proof {
                reveal(Seq::filter);
                let sub1 = move_set@.subrange(0, i + 1);
                assert(sub1.drop_last() =~= move_set@.subrange(0, i as int));
                assert(sub1.last() == move_set@[i as int]);
                assert(move_set_vec@ == sub1.filter(col_left_of(cur.col)));
            }
            i += 1;
        }
        proof {
            assert(move_set@.subrange(0, move_set@.len() as int) =~= move_set@);
        }
        self.set_to_nearest_pos(&move_set_vec);
    }

    /// Move the cursor to the nearest candidate strictly right of it.
    pub fn move_with_piece_right(&mut self, move_set: &Vec<Position>)
        requires
            old(self).wf(),
            forall|i: int| 0 <= i < move_set@.len() ==> on_board(#[trigger] move_set@[i]),
        ensures
            final(self).wf(),
            ({
                let candidates = move_set@.filter(col_right_of(old(self).col));
                &&& candidates.len() == 0 ==> *final(self) == *old(self)
                &&& candidates.len() > 0 ==> picks_nearest(*old(self), candidates, *final(self))
            }),
    {
        let ghost cur = *self;
        let mut move_set_vec: Vec<Position> = Vec::new();
        proof {
            reveal(Seq::filter);
            assert(move_set@.subrange(0, 0).filter(col_right_of(cur.col)) =~= Seq::<Position>::empty());
        }
        let mut i: usize = 0;
        while i < move_set.len()
            invariant
                cur == *self,
                cur.wf(),
                i <= move_set@.len(),
                forall|t: int| 0 <= t < move_set@.len() ==> on_board(#[trigger] move_set@[t]),
                move_set_vec@ == move_set@.subrange(0, i as int).filter(col_right_of(cur.col)),
                forall|t: int| 0 <= t < move_set_vec@.len() ==> on_board(#[trigger] move_set_vec@[t]),
            decreases move_set@.len() - i,
        {
            let c = move_set[i];
            if c.col > self.col {
                move_set_vec.push(c);
            }
            proof {
                reveal(Seq::filter);
                let sub1 = move_set@.subrange(0, i + 1);
                assert(sub1.drop_last() =~= move_set@.subrange(0, i as int));
                assert(sub1.last() == move_set@[i as int]);
                assert(move_set_vec@ == sub1.filter(col_right_of(cur.col)));
            }
            i += 1;
        }
        proof {
            assert(move_set@.subrange(0, move_set@.len() as int) =~= move_set@);
        }
        self.set_to_nearest_pos(&move_set_vec);
    }

    /// Move the cursor one row up, clamped to the board.
    pub fn move_cursor_up(&mut self)
        requires
            old(self).wf(),
        ensures
            final(self).wf(),
            final(self).col == old(self).col,
            final(self).row as int == (if old(self).row as int > 0 {
                old(self).row as int - 1
            } else {
                0
            }),
    {
        self.row = if self.row > 0 {
            self.row - 1
        } else {
            0
        };
    }

    /// Move the cursor one row down, clamped to the board.
    pub fn move_cursor_down(&mut self)
        requires
            old(self).wf(),
        ensures
            final(self).wf(),
            final(self).col == old(self).col,
            final(self).row as int == (if (old(self).row as int) < 7 {
                old(self).row as int + 1
            } else {
                7
            }),
    {
        self.row = if self.row < 7 {
            self.row + 1
        } else {
            7
        };
    }

    /// Move the cursor one column left, clamped to the board.
    pub fn move_cursor_left(&mut self)
        requires
            old(self).wf(),
        ensures
            final(self).wf(),
            final(self).row == old(self).row,
            final(self).col as int == (if old(self).col as int > 0 {
                old(self).col as int - 1
            } else {
                0
            }),
    {
        self.col = if self.col > 0 {
            self.col - 1
        } else {
            0
        };
    }

    /// Move the cursor one column right, clamped to the board.
    pub fn move_cursor_right(&mut self)
        requires
            old(self).wf(),
        ensures
            final(self).wf(),
            final(self).row == old(self).row,
            final(self).col as int == (if (old(self).col as int) < 7 {
                old(self).col as int + 1
            } else {
                7
            }),
    {
        self.col = if self.col < 7 {
            self.col + 1
        } else {
            7
        };
    }
}

} // verus!
