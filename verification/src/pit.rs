//! The executable pit.

use crate::laws::{
    lemma_clear_without_complete_row, lemma_lock_leaves_no_complete_row,
    lemma_moves_keep_piece_fitting, lemma_sideways_move_lands_fitting,
};
use crate::model::{
    cleared_rows, empty_grid, empty_row, lemma_incomplete_rows_are_kept, lemma_remove_complete_row,
    row_complete, row_incomplete, PitModel,
};
use crate::tetromino::{
    get_random_tetromino, is_spawn_piece, piece_cells, rotate_tetromino, rotation_fits,
    rotation_in_range,
};
use vstd::prelude::*;

verus! {

/// A pit: a grid of locked blocks and the piece that is falling into it.
#[derive(Debug)]
pub struct Pit {
    pit_size: (i32, i32),
    /// The four cells of the falling piece as `(x, y)`, the cell it turns
    /// about first. Cells above the top row have a negative `y`.
    pub active_piece: [(i32, i32); 4],
    spots: Vec<Vec<bool>>,
}

impl View for Pit {
    type V = PitModel;

    closed spec fn view(&self) -> PitModel {
        PitModel {
            width: self.pit_size.0 as int,
            height: self.pit_size.1 as int,
            grid: self.grid(),
            piece: piece_cells(self.active_piece),
        }
    }
}

impl Pit {
    /// The occupancy of the cells, `grid()[y][x]`, row 0 at the top.
    spec fn grid(&self) -> Seq<Seq<bool>> {
        Seq::new(self.spots@.len(), |y: int| self.spots@[y]@)
    }

    /// The grid has the pit's dimensions, which are positive.
    pub open spec fn wf(&self) -> bool {
        self@.wf()
    }

    /// A pit of the given size with no locked blocks and a random piece at
    /// its spawn position.
    pub fn new(width: i32, height: i32) -> (pit: Pit)
        requires
            width > 0,
            height > 0,
        ensures
            pit.wf(),
            pit@.width == width,
            pit@.height == height,
            pit@.grid == empty_grid(width as int, height as int),
            is_spawn_piece(pit@.piece),
    {
        let mut spots: Vec<Vec<bool>> = Vec::new();
        for y in 0..height
            invariant
                width > 0,
                spots@.len() == y,
                forall|j: int| 0 <= j < y ==> (#[trigger] spots@[j])@ == empty_row(width as int),
        {
            let mut row: Vec<bool> = Vec::new();
            for x in 0..width
                invariant
                    row@.len() == x,
                    forall|k: int| 0 <= k < x ==> !(#[trigger] row@[k]),
            {
                row.push(false);
            }
            assert(row@ =~= empty_row(width as int));
            spots.push(row);
        }
        let pit = Pit { pit_size: (width, height), active_piece: get_random_tetromino(), spots: spots };
        assert(pit.grid() =~= empty_grid(width as int, height as int));
        pit
    }

    /// Whether the cell `(x, y)` holds a locked block. A cell outside the
    /// grid holds none.
    pub fn is_occupied(&self, x: i32, y: i32) -> (taken: bool)
        requires
            self.wf(),
        ensures
            taken == self@.occupied(x as int, y as int),
    {
        proof {
            if self@.in_grid(x as int, y as int) {
                assert(self@.grid[y as int].len() == self@.width);
            }
        }
        0 <= x && x < self.pit_size.0 && 0 <= y && y < self.pit_size.1
            && self.spots[y as usize][x as usize]
    }

    /// Moves the piece one column to the right if every cell can go there,
    /// and leaves it where it is if any cannot.
    pub fn move_piece_right(&mut self)
        requires
            old(self).wf(),
        ensures
            final(self).wf(),
            final(self)@ == old(self)@.move_piece_right(),
            old(self)@.can_move_right() || old(self)@.piece_fits() ==> final(self)@.piece_fits(),
    {
        proof {
            lemma_sideways_move_lands_fitting(self@);
        }
        if self.can_move_right() {
            self.move_right();
        }
    }

    /// Whether every cell of the piece can go one column to the right.
    pub fn can_move_right(&self) -> (free: bool)
        requires
            self.wf(),
        ensures
            free == self@.can_move_right(),
    {
        for i in 0..4usize
            invariant
                self.wf(),
                forall|j: int|
                    0 <= j < i ==> {
                        let cell = #[trigger] self@.piece[j];
                        0 <= cell.0 + 1 < self@.width && !self@.occupied(cell.0 + 1, cell.1)
                    },
        {
            let (x, y) = self.active_piece[i];
            assert(self@.piece[i as int] == (x as int, y as int));
            if x < -1 || x >= self.pit_size.0 - 1 {
                return false;
            }
            if y >= 0 && self.is_occupied(x + 1, y) {
                return false;
            }
        }
        true
    }

    fn move_right(&mut self)
        requires
            old(self).wf(),
            old(self)@.can_move_right(),
        ensures
            final(self)@ == old(self)@.shifted(1, 0),
    {
        for i in 0..4usize
            invariant
                self.pit_size == old(self).pit_size,
                self.spots == old(self).spots,
                old(self)@.can_move_right(),
                forall|j: int|
                    0 <= j < i ==> self.active_piece[j] == (
                        (old(self).active_piece[j].0 + 1) as i32,
                        old(self).active_piece[j].1,
                    ),
                forall|j: int| i <= j < 4 ==> self.active_piece[j] == old(self).active_piece[j],
        {
            assert(old(self)@.piece[i as int].0 + 1 < old(self)@.width);
            self.active_piece[i].0 += 1;
        }
        assert(self@.piece =~= old(self)@.shifted(1, 0).piece);
    }

    /// Moves the piece one column to the left if every cell can go there,
    /// and leaves it where it is if any cannot.
    pub fn move_piece_left(&mut self)
        requires
            old(self).wf(),
        ensures
            final(self).wf(),
            final(self)@ == old(self)@.move_piece_left(),
            old(self)@.can_move_left() || old(self)@.piece_fits() ==> final(self)@.piece_fits(),
    {
        proof {
            lemma_sideways_move_lands_fitting(self@);
        }
        if self.can_move_left() {
            self.move_left();
        }
    }

    /// Whether every cell of the piece can go one column to the left.
    pub fn can_move_left(&self) -> (free: bool)
        requires
            self.wf(),
        ensures
            free == self@.can_move_left(),
    {
        for i in 0..4usize
            invariant
                self.wf(),
                forall|j: int|
                    0 <= j < i ==> {
                        let cell = #[trigger] self@.piece[j];
                        0 <= cell.0 - 1 < self@.width && !self@.occupied(cell.0 - 1, cell.1)
                    },
        {
            let (x, y) = self.active_piece[i];
            assert(self@.piece[i as int] == (x as int, y as int));
            if x <= 0 || x > self.pit_size.0 {
                return false;
            }
            if y >= 0 && self.is_occupied(x - 1, y) {
                return false;
            }
        }
        true
    }

    fn move_left(&mut self)
        requires
            old(self).wf(),
            old(self)@.can_move_left(),
        ensures
            final(self)@ == old(self)@.shifted(-1, 0),
    {
        for i in 0..4usize
            invariant
                self.pit_size == old(self).pit_size,
                self.spots == old(self).spots,
                old(self)@.can_move_left(),
                forall|j: int|
                    0 <= j < i ==> self.active_piece[j] == (
                        (old(self).active_piece[j].0 - 1) as i32,
                        old(self).active_piece[j].1,
                    ),
                forall|j: int| i <= j < 4 ==> self.active_piece[j] == old(self).active_piece[j],
        {
            assert(old(self)@.piece[i as int].0 - 1 >= 0);
            self.active_piece[i].0 -= 1;
        }
        assert(self@.piece =~= old(self)@.shifted(-1, 0).piece);
    }

    /// One step of gravity. The piece falls a row if every cell can; if not,
    /// it is locked into the grid, complete rows are cleared, and a random
    /// piece appears at its spawn position, whether or not that position is
    /// free.
    pub fn move_piece_down(&mut self)
        requires
            old(self).wf(),
        ensures
            final(self).wf(),
            final(self)@ == old(self)@.move_piece_down(final(self)@.piece),
            !old(self)@.can_move_down() ==> is_spawn_piece(final(self)@.piece),
            !old(self)@.can_move_down() ==> forall|y: int|
                0 <= y < final(self)@.height ==> !row_complete(#[trigger] final(self)@.grid[y]),
            old(self)@.can_move_down() && old(self)@.piece_fits() ==> final(self)@.piece_fits(),
    {
        proof {
            if self@.piece_fits() {
                lemma_moves_keep_piece_fitting(self@, self@.piece);
            }
        }
        if self.can_move_down() {
            self.move_down();
        } else {
            self.solidify_piece();
            self.clear_completed_lines();
            self.generate_new_piece();
            proof {
                lemma_lock_leaves_no_complete_row(old(self)@, self@.piece);
            }
        }
    }

    /// Whether every cell of the piece can go one row down.
    pub fn can_move_down(&self) -> (free: bool)
        requires
            self.wf(),
        ensures
            free == self@.can_move_down(),
    {
        for i in 0..4usize
            invariant
                self.wf(),
                forall|j: int|
                    0 <= j < i ==> {
                        let cell = #[trigger] self@.piece[j];
                        cell.1 + 1 < self@.height && !self@.occupied(cell.0, cell.1 + 1)
                    },
        {
            let (x, y) = self.active_piece[i];
            assert(self@.piece[i as int] == (x as int, y as int));
            if !(y < self.pit_size.1 - 1 && !self.is_occupied(x, y + 1)) {
                return false;
            }
        }
        true
    }

    fn move_down(&mut self)
        requires
            old(self).wf(),
            old(self)@.can_move_down(),
        ensures
            final(self)@ == old(self)@.shifted(0, 1),
    {
        for i in 0..4usize
            invariant
                self.pit_size == old(self).pit_size,
                self.spots == old(self).spots,
                old(self)@.can_move_down(),
                forall|j: int|
                    0 <= j < i ==> self.active_piece[j] == (
                        old(self).active_piece[j].0,
                        (old(self).active_piece[j].1 + 1) as i32,
                    ),
                forall|j: int| i <= j < 4 ==> self.active_piece[j] == old(self).active_piece[j],
        {
            assert(old(self)@.piece[i as int].1 + 1 < old(self)@.height);
            self.active_piece[i].1 += 1;
        }
        assert(self@.piece =~= old(self)@.shifted(0, 1).piece);
    }

    /// Turns the piece a quarter turn clockwise about its first cell. Neither
    /// the walls nor the locked blocks are looked at.
    ///
    /// The turned coordinates have to be 32-bit integers; `can_rotate` tests
    /// that.
    pub fn rotate_piece(&mut self)
        requires
            rotation_in_range(old(self)@.piece),
        ensures
            final(self)@ == old(self)@.rotate_piece(),
            old(self).wf() ==> final(self).wf(),
    {
        self.active_piece = rotate_tetromino(self.active_piece);
    }

    /// Tells whether `rotate_piece` can be called.
    pub fn can_rotate(&self) -> (fits: bool)
        ensures
            fits == rotation_in_range(self@.piece),
    {
        rotation_fits(self.active_piece)
    }

    /// Locks the piece: every cell of the grid that the piece covers becomes
    /// occupied. Cells of the piece outside the grid are passed over.
    pub fn solidify_piece(&mut self)
        requires
            old(self).wf(),
        ensures
            final(self).wf(),
            final(self)@ == (PitModel { grid: old(self)@.locked_grid(), ..old(self)@ }),
    {
        for i in 0..4usize
            invariant
                self.pit_size == old(self).pit_size,
                self.active_piece == old(self).active_piece,
                old(self).wf(),
                self.wf(),
                forall|x: int, y: int|
                    0 <= x < self@.width && 0 <= y < self@.height ==> (#[trigger] self@.grid[y][x]
                        <==> old(self)@.grid[y][x] || exists|j: int|
                        0 <= j < i && #[trigger] self@.piece[j] == (x, y)),
        {
            let (x, y) = self.active_piece[i];
            let ghost grid = self@.grid;
            let ghost piece = self@.piece;
            let ghost inside = self@.in_grid(x as int, y as int);
            assert(piece[i as int] == (x as int, y as int));
            if 0 <= x && x < self.pit_size.0 && 0 <= y && y < self.pit_size.1 {
                assert(grid[y as int].len() == self@.width);
                self.spots[y as usize][x as usize] = true;
                assert(self@.grid =~~= grid.update(y as int, grid[y as int].update(x as int, true)));
            }
            assert(self@.piece == piece);
            assert forall|c: int, r: int|
                0 <= c < self@.width && 0 <= r < self@.height implies (#[trigger] self@.grid[r][c]
                <==> old(self)@.grid[r][c] || exists|j: int|
                0 <= j < i + 1 && #[trigger] piece[j] == (c, r)) by {
                let covered = exists|j: int| 0 <= j < i && #[trigger] piece[j] == (c, r);
                let covered_now = exists|j: int| 0 <= j < i + 1 && #[trigger] piece[j] == (c, r);
                assert(grid[r][c] <==> old(self)@.grid[r][c] || covered);
                if c == x && r == y {
                    assert(inside);
                    assert(piece[i as int] == (c, r));
                    assert(covered_now);
                    assert(self@.grid[r][c]);
                } else {
                    assert(self@.grid[r][c] == grid[r][c]);
                    if covered {
                        let j = choose|j: int| 0 <= j < i && #[trigger] piece[j] == (c, r);
                        assert(piece[j] == (c, r));
                        assert(covered_now);
                    }
                    if covered_now {
                        let j = choose|j: int| 0 <= j < i + 1 && #[trigger] piece[j] == (c, r);
                        assert(j != i);
                        assert(covered);
                    }
                }
            }
        }
        assert(self@.grid =~~= old(self)@.locked_grid());
    }

    /// Takes every complete row out of the grid and puts as many empty rows
    /// on top. The rows that stay keep their order.
    pub fn clear_completed_lines(&mut self)
        requires
            old(self).wf(),
        ensures
            final(self).wf(),
            final(self)@ == (PitModel {
                grid: cleared_rows(old(self)@.grid, old(self)@.width),
                ..old(self)@
            }),
            (forall|y: int| 0 <= y < old(self)@.height ==> !row_complete(#[trigger] old(self)@.grid[y]))
                ==> final(self)@ == old(self)@,
    {
        let ghost before = self.grid();
        let ghost keep = row_incomplete();
        let mut completed_rows: Vec<usize> = Vec::new();
        let mut index: usize = 0;
        while index < self.spots.len()
            invariant
                *self == *old(self),
                before == self.grid(),
                index <= self.spots.len(),
                forall|k: int|
                    0 <= k < completed_rows.len() ==> (#[trigger] completed_rows[k]) < index
                        && row_complete(before[completed_rows[k] as int]),
                forall|k: int, l: int|
                    0 <= k < l < completed_rows.len() ==> completed_rows[k] < completed_rows[l],
                forall|y: int|
                    0 <= y < index && row_complete(#[trigger] before[y]) ==> exists|k: int|
                        0 <= k < completed_rows.len() && #[trigger] completed_rows[k] == y,
            decreases self.spots.len() - index,
        {
            let row = &self.spots[index];
            let mut complete = true;
            let mut x: usize = 0;
            while x < row.len()
                invariant_except_break
                    complete,
                invariant
                    x <= row.len(),
                    forall|j: int| 0 <= j < x ==> row@[j],
                ensures
                    complete == row_complete(row@),
                decreases row.len() - x,
            {
                if !row[x] {
                    complete = false;
                    break ;
                }
                x += 1;
            }
            if complete {
                let ghost found = completed_rows@;
                completed_rows.push(index);
                assert forall|y: int|
                    0 <= y < index + 1 && row_complete(#[trigger] before[y]) implies exists|k: int|
                    0 <= k < completed_rows.len() && #[trigger] completed_rows[k] == y by {
                    if y < index {
                        let k = choose|k: int| 0 <= k < found.len() && #[trigger] found[k] == y;
                        assert(completed_rows[k] == y);
                    } else {
                        assert(completed_rows[found.len() as int] == y);
                    }
                }
            }
            index += 1;
        }
        let ghost mut bound: int = before.len() as int;
        let mut remaining: usize = completed_rows.len();
        assert(before.skip(bound) =~= Seq::<Seq<bool>>::empty());
        assert(before.skip(bound).filter(keep) =~= Seq::<Seq<bool>>::empty()) by {
            reveal(Seq::filter);
        }
        assert(self.grid() =~= before.take(bound) + before.skip(bound).filter(keep));
        assert forall|y: int| 0 <= y < self.spots.len() implies (#[trigger] self.spots[y]).len()
            == self.pit_size.0 by {
            assert(self@.grid[y].len() == self@.width);
        }
        while remaining > 0
            invariant
                self.pit_size == old(self).pit_size,
                self.active_piece == old(self).active_piece,
                old(self).wf(),
                before == old(self).grid(),
                keep == row_incomplete(),
                remaining <= completed_rows.len(),
                0 <= bound <= before.len(),
                self.spots.len() + (completed_rows.len() - remaining) == before.len(),
                forall|y: int|
                    0 <= y < self.spots.len() ==> (#[trigger] self.spots[y]).len()
                        == self.pit_size.0,
                forall|k: int|
                    0 <= k < completed_rows.len() ==> (#[trigger] completed_rows[k]) < before.len()
                        && row_complete(before[completed_rows[k] as int]),
                forall|k: int, l: int|
                    0 <= k < l < completed_rows.len() ==> completed_rows[k] < completed_rows[l],
                forall|k: int| 0 <= k < remaining ==> (#[trigger] completed_rows[k]) < bound,
                forall|y: int|
                    0 <= y < bound && row_complete(#[trigger] before[y]) ==> exists|k: int|
                        0 <= k < remaining && #[trigger] completed_rows[k] == y,
                self.grid() == before.take(bound) + before.skip(bound).filter(keep),
            decreases remaining,
        {
            remaining -= 1;
            let index = completed_rows[remaining];
            let ghost grid = self.grid();
            proof {
                assert forall|y: int| index < y < bound implies !row_complete(
                    #[trigger] before[y],
                ) by {
                    if row_complete(before[y]) {
                        let k = choose|k: int|
                            0 <= k < remaining + 1 && #[trigger] completed_rows[k] == y;
                        assert(completed_rows[k] <= completed_rows[remaining as int]);
                    }
                }
                lemma_remove_complete_row(before, index as int, bound);
                assert(grid.len() >= bound);
            }
            self.spots.remove(index);
            proof {
                assert(self.grid() =~= grid.remove(index as int));
                assert forall|y: int|
                    0 <= y < index && row_complete(#[trigger] before[y]) implies exists|k: int|
                    0 <= k < remaining && #[trigger] completed_rows[k] == y by {
                    let k = choose|k: int|
                        0 <= k < remaining + 1 && #[trigger] completed_rows[k] == y;
                    assert(k != remaining);
                }
                bound = index as int;
            }
        }
        proof {
            lemma_incomplete_rows_are_kept(before.take(bound));
            Seq::filter_distributes_over_add(before.take(bound), before.skip(bound), keep);
            assert(before.take(bound) + before.skip(bound) =~= before);
        }
        let ghost kept = before.filter(keep);
        assert(self.grid() == kept);
        let mut added: usize = 0;
        while added < completed_rows.len()
            invariant
                self.pit_size == old(self).pit_size,
                self.active_piece == old(self).active_piece,
                old(self).wf(),
                added <= completed_rows.len(),
                self.spots.len() + (completed_rows.len() - added) == old(self).grid().len(),
                forall|y: int|
                    0 <= y < self.spots.len() ==> (#[trigger] self.spots[y]).len()
                        == self.pit_size.0,
                self.grid() == Seq::new(added as nat, |y: int| empty_row(self.pit_size.0 as int))
                    + kept,
            decreases completed_rows.len() - added,
        {
            let ghost grid = self.grid();
            let row = vec![false; self.pit_size.0 as usize];
            assert(row@ =~= empty_row(self.pit_size.0 as int));
            self.spots.insert(0, row);
            assert(self.grid() =~= seq![empty_row(self.pit_size.0 as int)] + grid);
            added += 1;
            assert(self.grid() =~= Seq::new(
                added as nat,
                |y: int| empty_row(self.pit_size.0 as int),
            ) + kept);
        }
        proof {
            let width = self.pit_size.0 as int;
            assert(self.grid().len() == added + kept.len());
            assert(self.grid() == cleared_rows(before, width));
            assert forall|y: int| 0 <= y < self@.height implies (#[trigger] self@.grid[y]).len()
                == self@.width by {
                assert(self@.grid[y] == self.spots[y]@);
            }
            if forall|y: int| 0 <= y < before.len() ==> !row_complete(#[trigger] before[y]) {
                lemma_clear_without_complete_row(before, width);
            }
        }
    }

    /// Replaces the piece by a random one at its spawn position. Whether the
    /// spawn position is free is not looked at.
    pub fn generate_new_piece(&mut self)
        ensures
            final(self)@ == (PitModel { piece: final(self)@.piece, ..old(self)@ }),
            is_spawn_piece(final(self)@.piece),
            old(self).wf() ==> final(self).wf(),
    {
        self.active_piece = get_random_tetromino();
    }

    /// The occupied cells of the grid as `(x, y)`, each once, row by row from
    /// the top and within a row from the left.
    pub fn get_solid_blocks(&self) -> (blocks: Vec<(i32, i32)>)
        requires
            self.wf(),
        ensures
            forall|k: int|
                0 <= k < blocks.len() ==> self@.occupied(
                    (#[trigger] blocks[k]).0 as int,
                    blocks[k].1 as int,
                ),
            forall|x: int, y: int|
                self@.occupied(x, y) ==> exists|k: int|
                    0 <= k < blocks.len() && (#[trigger] blocks[k]) == (x as i32, y as i32),
            forall|k: int, l: int|
                0 <= k < l < blocks.len() ==> row_major_before(
                    #[trigger] blocks[k],
                    #[trigger] blocks[l],
                ),
    {
        let mut blocks: Vec<(i32, i32)> = Vec::new();
        for y in 0..self.pit_size.1
            invariant
                self.wf(),
                forall|k: int|
                    0 <= k < blocks.len() ==> (#[trigger] blocks[k]).1 < y && self@.occupied(
                        blocks[k].0 as int,
                        blocks[k].1 as int,
                    ),
                forall|c: int, r: int|
                    r < y && self@.occupied(c, r) ==> exists|k: int|
                        0 <= k < blocks.len() && (#[trigger] blocks[k]) == (c as i32, r as i32),
                forall|k: int, l: int|
                    0 <= k < l < blocks.len() ==> row_major_before(
                        #[trigger] blocks[k],
                        #[trigger] blocks[l],
                    ),
        {
            for x in 0..self.pit_size.0
                invariant
                    self.wf(),
                    0 <= y < self.pit_size.1,
                    forall|k: int|
                        0 <= k < blocks.len() ==> row_major_before(#[trigger] blocks[k], (x, y))
                            && self@.occupied(blocks[k].0 as int, blocks[k].1 as int),
                    forall|c: int, r: int|
                        (r < y || (r == y && c < x)) && self@.occupied(c, r) ==> exists|k: int|
                            0 <= k < blocks.len() && (#[trigger] blocks[k]) == (c as i32, r as i32),
                    forall|k: int, l: int|
                        0 <= k < l < blocks.len() ==> row_major_before(
                            #[trigger] blocks[k],
                            #[trigger] blocks[l],
                        ),
            {
                let ghost found = blocks@;
                if self.is_occupied(x, y) {
                    blocks.push((x, y));
                }
                assert forall|c: int, r: int|
                    (r < y || (r == y && c < x + 1)) && self@.occupied(c, r) implies exists|k: int|
                    0 <= k < blocks.len() && (#[trigger] blocks[k]) == (c as i32, r as i32) by {
                    if c == x && r == y {
                        assert(blocks[found.len() as int] == (x, y));
                    } else {
                        let k = choose|k: int|
                            0 <= k < found.len() && (#[trigger] found[k]) == (c as i32, r as i32);
                        assert(blocks[k] == found[k]);
                    }
                }
            }
        }
        blocks
    }
}

/// Whether cell `a` comes before cell `b` when the grid is read row by row
/// from the top, each row from the left.
pub open spec fn row_major_before(a: (i32, i32), b: (i32, i32)) -> bool {
    a.1 < b.1 || (a.1 == b.1 && a.0 < b.0)
}

} // verus!
