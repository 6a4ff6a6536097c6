//! Laws of the pit, proved of the model that the operations are specified
//! against.

use crate::model::{
    cleared_rows, empty_row, lemma_incomplete_rows_are_kept, row_complete, row_incomplete, PitModel,
};
use crate::tetromino::{
    is_spawn_piece, rotated, rotated_cell, rotation_in_range, Cell, Tetromino,
};
use vstd::prelude::*;

verus! {

/// A move to the left followed at once by a move to the right puts the piece
/// back where it was, provided both moves went through. (If only the move to
/// the right goes through, the piece ends one column to the right.)
pub proof fn lemma_left_then_right_restores(pit: PitModel)
    requires
        pit.wf(),
        pit.can_move_left(),
        pit.move_piece_left().can_move_right(),
    ensures
        pit.move_piece_left().move_piece_right() == pit,
{
    assert(pit.move_piece_left().move_piece_right().piece =~= pit.piece);
}

/// A move to the left followed at once by a move to the right puts the piece
/// back exactly when both moves went through or neither did.
pub proof fn lemma_left_then_right_restores_iff(pit: PitModel)
    requires
        pit.wf(),
    ensures
        pit.move_piece_left().move_piece_right() == pit <==> (pit.can_move_left()
            <==> pit.move_piece_left().can_move_right()),
{
    let left = pit.move_piece_left();
    let back = left.move_piece_right();
    if pit.can_move_left() && left.can_move_right() {
        lemma_left_then_right_restores(pit);
    } else if pit.can_move_left() {
        assert(back.piece[0] == (pit.piece[0].0 - 1, pit.piece[0].1));
    } else if left.can_move_right() {
        assert(back.piece[0] == (pit.piece[0].0 + 1, pit.piece[0].1));
    }
}

/// From a position in which the piece fits, a move to the left that went
/// through can always be undone by a move to the right.
pub proof fn lemma_right_undoes_left(pit: PitModel)
    requires
        pit.wf(),
        pit.piece_fits(),
        pit.can_move_left(),
    ensures
        pit.move_piece_left().can_move_right(),
        pit.move_piece_left().move_piece_right() == pit,
{
    let left = pit.move_piece_left();
    assert forall|i: int| 0 <= i < 4 implies {
        let cell = #[trigger] left.piece[i];
        0 <= cell.0 + 1 < left.width && !left.occupied(cell.0 + 1, cell.1)
    } by {
        assert(left.piece[i] == (pit.piece[i].0 - 1, pit.piece[i].1));
    }
    lemma_left_then_right_restores(pit);
}

/// A sideways move that goes through lands the piece where it fits: every
/// cell in a column of the grid and on no locked block.
pub proof fn lemma_sideways_move_lands_fitting(pit: PitModel)
    requires
        pit.wf(),
    ensures
        pit.can_move_left() ==> pit.move_piece_left().piece_fits(),
        pit.can_move_right() ==> pit.move_piece_right().piece_fits(),
{
    if pit.can_move_left() {
        let left = pit.move_piece_left();
        assert forall|i: int| 0 <= i < 4 implies {
            let cell = #[trigger] left.piece[i];
            0 <= cell.0 < left.width && !left.occupied(cell.0, cell.1)
        } by {
            assert(left.piece[i] == (pit.piece[i].0 - 1, pit.piece[i].1));
        }
    }
    if pit.can_move_right() {
        let right = pit.move_piece_right();
        assert forall|i: int| 0 <= i < 4 implies {
            let cell = #[trigger] right.piece[i];
            0 <= cell.0 < right.width && !right.occupied(cell.0, cell.1)
        } by {
            assert(right.piece[i] == (pit.piece[i].0 + 1, pit.piece[i].1));
        }
    }
}

/// A piece that fits still fits after any request to move it left or right,
/// and after a step of gravity in which it falls. (A step of gravity that
/// locks the piece brings in a new one without looking whether it fits.)
pub proof fn lemma_moves_keep_piece_fitting(pit: PitModel, next: Seq<Cell>)
    requires
        pit.wf(),
        pit.piece_fits(),
    ensures
        pit.move_piece_left().piece_fits(),
        pit.move_piece_right().piece_fits(),
        pit.can_move_down() ==> pit.move_piece_down(next).piece_fits(),
{
    lemma_sideways_move_lands_fitting(pit);
    if pit.can_move_down() {
        let down = pit.move_piece_down(next);
        assert forall|i: int| 0 <= i < 4 implies {
            let cell = #[trigger] down.piece[i];
            0 <= cell.0 < down.width && !down.occupied(cell.0, cell.1)
        } by {
            assert(down.piece[i] == (pit.piece[i].0, pit.piece[i].1 + 1));
        }
    }
}

/// A line clear keeps the number of rows and leaves no complete row behind.
pub proof fn lemma_cleared_rows_are_incomplete(rows: Seq<Seq<bool>>, width: int)
    requires
        width > 0,
    ensures
        cleared_rows(rows, width).len() == rows.len(),
        forall|y: int|
            0 <= y < rows.len() ==> !row_complete(#[trigger] cleared_rows(rows, width)[y]),
{
    let kept = rows.filter(row_incomplete());
    rows.lemma_filter_len(row_incomplete());
    let removed = rows.len() - kept.len();
    assert forall|y: int| 0 <= y < rows.len() implies !row_complete(
        #[trigger] cleared_rows(rows, width)[y],
    ) by {
        let row = cleared_rows(rows, width)[y];
        if y < removed {
            assert(row == empty_row(width));
            assert(!row[0]);
        } else {
            assert(row == kept[y - removed]);
            rows.lemma_filter_pred(row_incomplete(), y - removed);
        }
    }
}

/// After a step of gravity that locks the piece, the grid still has `height`
/// rows of `width` cells and none of them is complete: every row that was
/// full, before the lock or through it, is gone.
pub proof fn lemma_lock_leaves_no_complete_row(pit: PitModel, next: Seq<Cell>)
    requires
        pit.wf(),
        !pit.can_move_down(),
    ensures
        pit.move_piece_down(next).grid.len() == pit.height,
        forall|y: int|
            0 <= y < pit.height ==> (#[trigger] pit.move_piece_down(next).grid[y]).len()
                == pit.width,
        forall|y: int|
            0 <= y < pit.height ==> !row_complete(#[trigger] pit.move_piece_down(next).grid[y]),
{
    let locked = pit.locked_grid();
    let after = pit.move_piece_down(next).grid;
    lemma_cleared_rows_are_incomplete(locked, pit.width);
    let kept = locked.filter(row_incomplete());
    let removed = locked.len() - kept.len();
    assert forall|y: int| 0 <= y < pit.height implies (#[trigger] after[y]).len()
        == pit.width by {
        if y >= removed {
            assert(after[y] == kept[y - removed]);
            locked.lemma_filter_contains_rev(row_incomplete(), kept[y - removed]);
            let r = choose|r: int| 0 <= r < locked.len() && locked[r] == kept[y - removed];
            assert(locked[r].len() == pit.width);
        }
    }
}

/// A line clear on a grid without a complete row changes nothing.
pub proof fn lemma_clear_without_complete_row(rows: Seq<Seq<bool>>, width: int)
    requires
        forall|y: int| 0 <= y < rows.len() ==> !row_complete(#[trigger] rows[y]),
    ensures
        cleared_rows(rows, width) == rows,
{
    lemma_incomplete_rows_are_kept(rows);
    assert(cleared_rows(rows, width) =~= rows);
}

/// A spawned piece is anchored in any pit at least six columns wide.
pub proof fn lemma_spawned_piece_is_anchored(pit: PitModel, next: Seq<Cell>)
    requires
        pit.wf(),
        pit.width >= 6,
        is_spawn_piece(next),
    ensures
        pit.lock_and_spawn(next).piece_anchored(),
{
    let shape = choose|shape: Tetromino| next == #[trigger] shape.spawn_cells();
    let after = pit.lock_and_spawn(next);
    assert forall|i: int| 0 <= i < 4 implies {
        let cell = #[trigger] after.piece[i];
        -2 <= cell.0 - after.piece[0].0 <= 2 && -2 <= cell.1 - after.piece[0].1 <= 2
    } by {
        assert(after.piece[i] == shape.spawn_cells()[i]);
    }
}

/// In a pit at least six columns wide, an anchored piece stays anchored
/// through every operation: a move to either side, a step of gravity that
/// ends in a spawn position, and a quarter turn.
pub proof fn lemma_operations_keep_piece_anchored(pit: PitModel, next: Seq<Cell>)
    requires
        pit.wf(),
        pit.width >= 6,
        pit.piece_anchored(),
        is_spawn_piece(next),
    ensures
        pit.move_piece_left().piece_anchored(),
        pit.move_piece_right().piece_anchored(),
        pit.move_piece_down(next).piece_anchored(),
        pit.rotate_piece().piece_anchored(),
{
    if pit.can_move_left() {
        let left = pit.move_piece_left();
        assert(pit.piece[0].0 - 1 >= 0);
        assert forall|i: int| 0 <= i < 4 implies {
            let cell = #[trigger] left.piece[i];
            -2 <= cell.0 - left.piece[0].0 <= 2 && -2 <= cell.1 - left.piece[0].1 <= 2
        } by {
            assert(left.piece[i] == (pit.piece[i].0 - 1, pit.piece[i].1));
        }
    }
    if pit.can_move_right() {
        let right = pit.move_piece_right();
        assert(pit.piece[0].0 + 1 < pit.width);
        assert forall|i: int| 0 <= i < 4 implies {
            let cell = #[trigger] right.piece[i];
            -2 <= cell.0 - right.piece[0].0 <= 2 && -2 <= cell.1 - right.piece[0].1 <= 2
        } by {
            assert(right.piece[i] == (pit.piece[i].0 + 1, pit.piece[i].1));
        }
    }
    if pit.can_move_down() {
        let down = pit.move_piece_down(next);
        assert(pit.piece[0].1 + 1 < pit.height);
        assert forall|i: int| 0 <= i < 4 implies {
            let cell = #[trigger] down.piece[i];
            -2 <= cell.0 - down.piece[0].0 <= 2 && -2 <= cell.1 - down.piece[0].1 <= 2
        } by {
            assert(down.piece[i] == (pit.piece[i].0, pit.piece[i].1 + 1));
        }
    } else {
        lemma_spawned_piece_is_anchored(pit, next);
    }
    let turned = pit.rotate_piece();
    assert forall|i: int| 0 <= i < 4 implies {
        let cell = #[trigger] turned.piece[i];
        -2 <= cell.0 - turned.piece[0].0 <= 2 && -2 <= cell.1 - turned.piece[0].1 <= 2
    } by {
        assert(turned.piece[i] == rotated_cell(pit.piece[0], pit.piece[i]));
    }
}

/// An anchored piece can always be turned: the coordinates stay 32-bit
/// integers as long as the pit leaves two cells of room below their limit.
pub proof fn lemma_anchored_piece_can_rotate(pit: PitModel)
    requires
        pit.wf(),
        pit.piece_anchored(),
        pit.width <= i32::MAX - 2,
        pit.height <= i32::MAX - 2,
    ensures
        rotation_in_range(pit.piece),
{
    assert forall|i: int| 0 <= i < pit.piece.len() implies {
        let target = #[trigger] rotated_cell(pit.piece[0], pit.piece[i]);
        i32::MIN <= target.0 <= i32::MAX && i32::MIN <= target.1 <= i32::MAX
    } by {
        let cell = pit.piece[i];
        assert(-2 <= cell.0 - pit.piece[0].0 <= 2);
    }
}

/// Whether a quarter turn about the first cell maps the piece onto itself:
/// every cell lands on a cell of the piece.
pub open spec fn quarter_turn_symmetric(cells: Seq<Cell>) -> bool {
    forall|i: int| 0 <= i < cells.len() ==> cells.contains(#[trigger] rotated_cell(cells[0], cells[i]))
}

/// Turning a piece that is symmetric about its first cell leaves the set of
/// cells it covers unchanged.
pub proof fn lemma_rotation_keeps_symmetric_piece(cells: Seq<Cell>)
    requires
        cells.len() > 0,
        quarter_turn_symmetric(cells),
    ensures
        rotated(cells).to_set() == cells.to_set(),
{
    let origin = cells[0];
    let turned = rotated(cells);
    assert forall|c: Cell| turned.to_set().contains(c) implies cells.to_set().contains(c) by {
        let i = choose|i: int| 0 <= i < turned.len() && turned[i] == c;
        assert(c == rotated_cell(origin, cells[i]));
    }
    assert forall|c: Cell| cells.to_set().contains(c) implies turned.to_set().contains(c) by {
        let i = choose|i: int| 0 <= i < cells.len() && cells[i] == c;
        let once = rotated_cell(origin, cells[i]);
        let j = choose|j: int| 0 <= j < cells.len() && cells[j] == once;
        let twice = rotated_cell(origin, cells[j]);
        let k = choose|k: int| 0 <= k < cells.len() && cells[k] == twice;
        let thrice = rotated_cell(origin, cells[k]);
        let l = choose|l: int| 0 <= l < cells.len() && cells[l] == thrice;
        assert(rotated_cell(origin, thrice) == c);
        assert(turned[l] == c);
    }
    assert(turned.to_set() =~= cells.to_set());
}

} // verus!
