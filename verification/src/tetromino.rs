//! The seven tetromino shapes, their spawn positions, and the quarter turn.

use vstd::prelude::*;

verus! {

/// A grid coordinate `(x, y)`: column first, then row, with row 0 at the top.
pub type Cell = (int, int);

/// How many tetromino shapes there are.
pub const TETROMINO_COUNT: usize = 7;

/// The cells of a piece as mathematical coordinates, in the order in which the
/// piece lists them. The first cell is the one the piece turns about.
pub open spec fn piece_cells(piece: [(i32, i32); 4]) -> Seq<Cell> {
    Seq::new(4, |i: int| (piece[i].0 as int, piece[i].1 as int))
}

/// One of the seven shapes a piece can spawn as.
#[derive(Clone, Copy, Debug, PartialEq, Eq, Structural)]
pub enum Tetromino {
    I,
    L,
    J,
    T,
    S,
    Z,
    O,
}

impl Tetromino {
    /// The cells at which this shape enters the pit. They are fixed
    /// coordinates near column 4, partly above the top row, and do not depend
    /// on the width of the pit.
    pub open spec fn spawn_cells(self) -> Seq<Cell> {
        match self {
            Tetromino::I => seq![(4int, 0int), (3int, 0int), (5int, 0int), (6int, 0int)],
            Tetromino::L => seq![(4int, 0int), (3int, 0int), (5int, 0int), (5int, -1int)],
            Tetromino::J => seq![(3int, 0int), (3int, -1int), (4int, 0int), (5int, 0int)],
            Tetromino::T => seq![(4int, 0int), (3int, 0int), (4int, -1int), (5int, 0int)],
            Tetromino::S => seq![(5int, 0int), (4int, 0int), (5int, -1int), (6int, -1int)],
            Tetromino::Z => seq![(5int, 0int), (4int, 0int), (4int, -1int), (3int, -1int)],
            Tetromino::O => seq![(4int, 0int), (5int, 0int), (4int, -1int), (5int, -1int)],
        }
    }

    /// The shape with the given number, counting `I, L, J, T, S, Z, O` from 0.
    pub open spec fn at(index: int) -> Tetromino {
        if index == 0 {
            Tetromino::I
        } else if index == 1 {
            Tetromino::L
        } else if index == 2 {
            Tetromino::J
        } else if index == 3 {
            Tetromino::T
        } else if index == 4 {
            Tetromino::S
        } else if index == 5 {
            Tetromino::Z
        } else {
            Tetromino::O
        }
    }

    /// Picks a shape by its number.
    pub fn from_index(index: usize) -> (shape: Tetromino)
        requires
            index < TETROMINO_COUNT,
        ensures
            shape == Tetromino::at(index as int),
    {
        let shapes = [
            Tetromino::I,
            Tetromino::L,
            Tetromino::J,
            Tetromino::T,
            Tetromino::S,
            Tetromino::Z,
            Tetromino::O,
        ];
        shapes[index]
    }

    /// The piece this shape spawns as.
    pub fn cells(self) -> (piece: [(i32, i32); 4])
        ensures
            piece_cells(piece) == self.spawn_cells(),
    {
        let piece: [(i32, i32); 4] = match self {
            Tetromino::I => [(4, 0), (3, 0), (5, 0), (6, 0)],
            Tetromino::L => [(4, 0), (3, 0), (5, 0), (5, -1)],
            Tetromino::J => [(3, 0), (3, -1), (4, 0), (5, 0)],
            Tetromino::T => [(4, 0), (3, 0), (4, -1), (5, 0)],
            Tetromino::S => [(5, 0), (4, 0), (5, -1), (6, -1)],
            Tetromino::Z => [(5, 0), (4, 0), (4, -1), (3, -1)],
            Tetromino::O => [(4, 0), (5, 0), (4, -1), (5, -1)],
        };
        assert(piece_cells(piece) =~= self.spawn_cells());
        piece
    }
}

/// Whether the cells are those of some shape at its spawn position.
pub open spec fn is_spawn_piece(cells: Seq<Cell>) -> bool {
    exists|shape: Tetromino| cells == #[trigger] shape.spawn_cells()
}

/// Draws a number below `count` from the thread's random generator.
///
/// Calls `rand::Rng::gen_range(0, count)` on `rand::thread_rng()`. Believed of
/// it, not proved: the number drawn is below `count`. `gen_range` panics when
/// the range is empty, hence the precondition. Nothing is claimed about which
/// number comes out, and two calls may differ. `thread_rng` panics if the
/// operating system cannot seed it, which no argument decides.
#[verifier::external_body]
fn random_index(count: usize) -> (index: usize)
    requires
        count > 0,
    ensures
        index < count,
{
    rand::Rng::gen_range(&mut rand::thread_rng(), 0, count)
}

/// A piece of a randomly chosen shape at its spawn position.
pub fn get_random_tetromino() -> (piece: [(i32, i32); 4])
    ensures
        is_spawn_piece(piece_cells(piece)),
{
    let index = random_index(TETROMINO_COUNT);
    Tetromino::from_index(index).cells()
}

/// Where `cell` lands after a quarter turn clockwise about `origin`: the
/// offset `(dx, dy)` from the origin becomes `(-dy, dx)`.
pub open spec fn rotated_cell(origin: Cell, cell: Cell) -> Cell {
    (origin.0 - (cell.1 - origin.1), origin.1 + (cell.0 - origin.0))
}

/// The piece after a quarter turn clockwise about its first cell.
pub open spec fn rotated(cells: Seq<Cell>) -> Seq<Cell> {
    Seq::new(cells.len(), |i: int| rotated_cell(cells[0], cells[i]))
}

/// Whether every coordinate of the turned piece is a 32-bit integer.
pub open spec fn rotation_in_range(cells: Seq<Cell>) -> bool {
    forall|i: int|
        0 <= i < cells.len() ==> {
            let target = #[trigger] rotated_cell(cells[0], cells[i]);
            i32::MIN <= target.0 <= i32::MAX && i32::MIN <= target.1 <= i32::MAX
        }
}

/// Tells whether `rotate_tetromino` can be called on `piece`.
pub fn rotation_fits(piece: [(i32, i32); 4]) -> (fits: bool)
    ensures
        fits == rotation_in_range(piece_cells(piece)),
{
    let origin = piece[0];
    let mut i: usize = 0;
    while i < 4
        invariant
            i <= 4,
            origin == piece[0],
            forall|j: int|
                0 <= j < i ==> {
                    let target = #[trigger] rotated_cell(
                        piece_cells(piece)[0],
                        piece_cells(piece)[j],
                    );
                    i32::MIN <= target.0 <= i32::MAX && i32::MIN <= target.1 <= i32::MAX
                },
        decreases 4 - i,
    {
        let x: i64 = origin.0 as i64 - (piece[i].1 as i64 - origin.1 as i64);
        let y: i64 = origin.1 as i64 + (piece[i].0 as i64 - origin.0 as i64);
        if x < i32::MIN as i64 || x > i32::MAX as i64 || y < i32::MIN as i64 || y > i32::MAX as i64 {
            assert(rotated_cell(piece_cells(piece)[0], piece_cells(piece)[i as int]) == (
                x as int,
                y as int,
            ));
            return false;
        }
        i += 1;
    }
    true
}

/// Turns a piece a quarter turn clockwise about its first cell.
///
/// The turned coordinates have to be 32-bit integers; `rotation_fits` tests
/// that.
pub fn rotate_tetromino(piece: [(i32, i32); 4]) -> (turned: [(i32, i32); 4])
    requires
        rotation_in_range(piece_cells(piece)),
    ensures
        piece_cells(turned) == rotated(piece_cells(piece)),
{
    let origin = piece[0];
    let mut turned: [(i32, i32); 4] = [(0, 0);4];
    let mut i: usize = 0;
    while i < 4
        invariant
            i <= 4,
            origin == piece[0],
            rotation_in_range(piece_cells(piece)),
            forall|j: int|
                0 <= j < i ==> (turned[j].0 as int, turned[j].1 as int) == rotated_cell(
                    piece_cells(piece)[0],
                    #[trigger] piece_cells(piece)[j],
                ),
        decreases 4 - i,
    {
        let dx: i64 = piece[i].0 as i64 - origin.0 as i64;
        let dy: i64 = piece[i].1 as i64 - origin.1 as i64;
        assert(rotated_cell(piece_cells(piece)[0], piece_cells(piece)[i as int]) == (
            origin.0 - dy,
            origin.1 + dx,
        ));
        turned[i] = ((origin.0 as i64 - dy) as i32, (origin.1 as i64 + dx) as i32);
        i += 1;
    }
    assert(piece_cells(turned) =~= rotated(piece_cells(piece)));
    turned
}

} // verus!
