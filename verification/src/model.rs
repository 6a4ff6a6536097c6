//! The pit as a mathematical value, and its rules as functions on that value.
//!
//! The executable `Pit` is specified against this model: each operation's
//! contract says that the pit's view after the call is the model's successor
//! state of the view before it.

use crate::tetromino::{rotated, Cell};
use vstd::prelude::*;

verus! {

/// A row of `width` free cells.
pub open spec fn empty_row(width: int) -> Seq<bool> {
    Seq::new(width as nat, |x: int| false)
}

/// A grid of `height` rows of `width` free cells.
pub open spec fn empty_grid(width: int, height: int) -> Seq<Seq<bool>> {
    Seq::new(height as nat, |y: int| empty_row(width))
}

/// Whether every cell of the row is occupied.
pub open spec fn row_complete(row: Seq<bool>) -> bool {
    forall|x: int| 0 <= x < row.len() ==> row[x]
}

/// The test that picks the rows which survive a line clear.
pub open spec fn row_incomplete() -> spec_fn(Seq<bool>) -> bool {
    |row: Seq<bool>| !row_complete(row)
}

/// The grid after a line clear: the incomplete rows in their old order, below
/// one empty row for each complete row that was taken out.
pub open spec fn cleared_rows(rows: Seq<Seq<bool>>, width: int) -> Seq<Seq<bool>> {
    let kept = rows.filter(row_incomplete());
    Seq::new((rows.len() - kept.len()) as nat, |y: int| empty_row(width)) + kept
}

/// Rows that are all incomplete pass the filter of a line clear untouched.
pub proof fn lemma_incomplete_rows_are_kept(rows: Seq<Seq<bool>>)
    requires
        forall|y: int| 0 <= y < rows.len() ==> !row_complete(#[trigger] rows[y]),
    ensures
        rows.filter(row_incomplete()) == rows,
    decreases rows.len(),
{
    reveal(Seq::filter);
    if rows.len() > 0 {
        lemma_incomplete_rows_are_kept(rows.drop_last());
        assert(rows.drop_last().push(rows.last()) =~= rows);
    }
}

/// Taking the complete row `c` out of a grid whose rows from `b` on have
/// already been filtered, where no row between `c` and `b` is complete, gives
/// the grid whose rows from `c` on have been filtered.
pub proof fn lemma_remove_complete_row(rows: Seq<Seq<bool>>, c: int, b: int)
    requires
        0 <= c < b <= rows.len(),
        row_complete(rows[c]),
        forall|y: int| c < y < b ==> !row_complete(#[trigger] rows[y]),
    ensures
        (rows.take(b) + rows.skip(b).filter(row_incomplete())).remove(c) == rows.take(c)
            + rows.skip(c).filter(row_incomplete()),
{
    let keep = row_incomplete();
    let tail = rows.skip(b).filter(keep);
    let middle = rows.subrange(c + 1, b);
    assert(rows.skip(c) =~= seq![rows[c]] + (middle + rows.skip(b)));
    Seq::filter_distributes_over_add(seq![rows[c]], middle + rows.skip(b), keep);
    Seq::filter_distributes_over_add(middle, rows.skip(b), keep);
    assert(seq![rows[c]].filter(keep) =~= Seq::<Seq<bool>>::empty()) by {
        reveal_with_fuel(Seq::filter, 2);
        assert(seq![rows[c]].drop_last() =~= Seq::<Seq<bool>>::empty());
    }
    lemma_incomplete_rows_are_kept(middle);
    assert((rows.take(b) + tail).remove(c) =~= rows.take(c) + (middle + tail));
    assert(rows.take(c) + rows.skip(c).filter(keep) =~= rows.take(c) + (middle + tail));
}

/// The state of a pit: its size, the occupancy of its cells (`grid[y][x]`,
/// row 0 at the top) and the four cells of the falling piece.
pub struct PitModel {
    pub width: int,
    pub height: int,
    pub grid: Seq<Seq<bool>>,
    pub piece: Seq<Cell>,
}

impl PitModel {
    /// The grid has `height` rows of `width` cells, both positive, and the
    /// piece has four cells.
    pub open spec fn wf(self) -> bool {
        &&& self.width > 0
        &&& self.height > 0
        &&& self.grid.len() == self.height
        &&& forall|y: int| 0 <= y < self.height ==> (#[trigger] self.grid[y]).len() == self.width
        &&& self.piece.len() == 4
    }

    /// Whether `(x, y)` is a cell of the grid.
    pub open spec fn in_grid(self, x: int, y: int) -> bool {
        0 <= x < self.width && 0 <= y < self.height
    }

    /// Whether `(x, y)` holds a locked block. No cell outside the grid does.
    pub open spec fn occupied(self, x: int, y: int) -> bool {
        self.in_grid(x, y) && self.grid[y][x]
    }

    /// Whether the piece has a cell at `(x, y)`.
    pub open spec fn piece_covers(self, x: int, y: int) -> bool {
        exists|i: int| 0 <= i < 4 && #[trigger] self.piece[i] == (x, y)
    }

    /// Every cell of the piece lies in a column of the grid and on no locked
    /// block. Cells above the top row are allowed.
    pub open spec fn piece_fits(self) -> bool {
        forall|i: int|
            0 <= i < 4 ==> {
                let cell = #[trigger] self.piece[i];
                0 <= cell.0 < self.width && !self.occupied(cell.0, cell.1)
            }
    }

    /// The first cell of the piece lies in the grid, and every cell within
    /// two columns and two rows of it. Every shape spawns like this in a pit
    /// at least six columns wide.
    pub open spec fn piece_anchored(self) -> bool {
        &&& self.in_grid(self.piece[0].0, self.piece[0].1)
        &&& forall|i: int|
            0 <= i < 4 ==> {
                let cell = #[trigger] self.piece[i];
                -2 <= cell.0 - self.piece[0].0 <= 2 && -2 <= cell.1 - self.piece[0].1 <= 2
            }
    }

    /// The same pit with the piece moved by `(dx, dy)`.
    pub open spec fn shifted(self, dx: int, dy: int) -> PitModel {
        PitModel {
            piece: Seq::new(4, |i: int| (self.piece[i].0 + dx, self.piece[i].1 + dy)),
            ..self
        }
    }

    /// Whether the piece may move one column to the right: every cell stays
    /// within the columns of the grid and lands on no locked block.
    pub open spec fn can_move_right(self) -> bool {
        forall|i: int|
            0 <= i < 4 ==> {
                let cell = #[trigger] self.piece[i];
                0 <= cell.0 + 1 < self.width && !self.occupied(cell.0 + 1, cell.1)
            }
    }

    /// Whether the piece may move one column to the left.
    pub open spec fn can_move_left(self) -> bool {
        forall|i: int|
            0 <= i < 4 ==> {
                let cell = #[trigger] self.piece[i];
                0 <= cell.0 - 1 < self.width && !self.occupied(cell.0 - 1, cell.1)
            }
    }

    /// Whether the piece may fall one row: every cell stays above the floor
    /// and lands on no locked block.
    pub open spec fn can_move_down(self) -> bool {
        forall|i: int|
            0 <= i < 4 ==> {
                let cell = #[trigger] self.piece[i];
                cell.1 + 1 < self.height && !self.occupied(cell.0, cell.1 + 1)
            }
    }

    /// The pit after a request to move right: the move is made whole or not
    /// at all.
    pub open spec fn move_piece_right(self) -> PitModel {
        if self.can_move_right() {
            self.shifted(1, 0)
        } else {
            self
        }
    }

    /// The pit after a request to move left.
    pub open spec fn move_piece_left(self) -> PitModel {
        if self.can_move_left() {
            self.shifted(-1, 0)
        } else {
            self
        }
    }

    /// The grid with the piece locked into it. Cells of the piece that lie
    /// outside the grid leave no block behind.
    pub open spec fn locked_grid(self) -> Seq<Seq<bool>> {
        Seq::new(
            self.height as nat,
            |y: int|
                Seq::new(self.width as nat, |x: int| self.grid[y][x] || self.piece_covers(x, y)),
        )
    }

    /// The pit once the piece has been locked and complete rows cleared, with
    /// `next` as the new piece.
    pub open spec fn lock_and_spawn(self, next: Seq<Cell>) -> PitModel {
        PitModel { grid: cleared_rows(self.locked_grid(), self.width), piece: next, ..self }
    }

    /// The pit after one step of gravity: the piece falls a row if it can;
    /// if not it is locked, complete rows are cleared, and `next` becomes the
    /// piece. Whether `next` fits is not looked at.
    pub open spec fn move_piece_down(self, next: Seq<Cell>) -> PitModel {
        if self.can_move_down() {
            self.shifted(0, 1)
        } else {
            self.lock_and_spawn(next)
        }
    }

    /// The pit with the piece turned a quarter turn clockwise about its first
    /// cell, whatever is in the way.
    pub open spec fn rotate_piece(self) -> PitModel {
        PitModel { piece: rotated(self.piece), ..self }
    }
}

} // verus!
