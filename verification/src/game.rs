//! The game around the pit: gravity on a clock, and what each key does.
//!
//! Reading the keyboard and the clock and drawing the pit are left to the
//! program that owns the window. It hands over what it read as plain values.

use crate::laws::{
    lemma_anchored_piece_can_rotate, lemma_operations_keep_piece_anchored,
    lemma_spawned_piece_is_anchored,
};
use crate::model::{empty_grid, PitModel};
use crate::pit::Pit;
use crate::tetromino::{is_spawn_piece, Cell, Tetromino};
use vstd::prelude::*;

verus! {

/// The number of columns of the game's pit.
pub const WELL_WIDTH: i32 = 10;

/// The number of rows of the game's pit.
pub const WELL_HEIGHT: i32 = 20;

/// The piece falls one row once more than this many milliseconds have gone by
/// since it last fell.
pub const FALL_INTERVAL_MILLIS: u128 = 1000;

/// A key the game tells apart.
#[derive(Clone, Copy, Debug, PartialEq, Eq, Structural)]
pub enum Key {
    Right,
    Left,
    Up,
    Escape,
    Q,
    Other,
}

/// The state of a game as a mathematical value.
pub struct GameModel {
    pub pit: PitModel,
    /// Milliseconds since the piece last fell.
    pub time_counter: nat,
}

impl GameModel {
    /// The pit has the game's dimensions, the piece is anchored in it, and
    /// the clock has not run past the fall interval.
    pub open spec fn wf(self) -> bool {
        &&& self.pit.wf()
        &&& self.pit.width == WELL_WIDTH
        &&& self.pit.height == WELL_HEIGHT
        &&& self.pit.piece_anchored()
        &&& self.time_counter <= FALL_INTERVAL_MILLIS
    }

    /// The game after a key press: the arrow keys move the piece left or
    /// right or turn it, and no other key changes anything.
    pub open spec fn key_down_event(self, key: Key) -> GameModel {
        match key {
            Key::Right => GameModel { pit: self.pit.move_piece_right(), ..self },
            Key::Left => GameModel { pit: self.pit.move_piece_left(), ..self },
            Key::Up => GameModel { pit: self.pit.rotate_piece(), ..self },
            _ => self,
        }
    }

    /// The game after a step of gravity, which restarts the clock. `next` is
    /// the piece that comes in if the step locks the falling one.
    pub open spec fn fall(self, next: Seq<Cell>) -> GameModel {
        GameModel { pit: self.pit.move_piece_down(next), time_counter: 0 }
    }

    /// The game after a frame in which `elapsed` milliseconds went by. If the
    /// down key is held the piece falls at once; then the time is added to
    /// the clock, and if that takes it past the fall interval the piece
    /// falls. `first` and `second` are the pieces that come in if the first
    /// or the second fall locks a piece.
    pub open spec fn update(
        self,
        down_pressed: bool,
        elapsed: nat,
        first: Seq<Cell>,
        second: Seq<Cell>,
    ) -> GameModel {
        let dropped = if down_pressed {
            self.fall(first)
        } else {
            self
        };
        let waited = GameModel { time_counter: dropped.time_counter + elapsed, ..dropped };
        if waited.time_counter > FALL_INTERVAL_MILLIS {
            waited.fall(second)
        } else {
            waited
        }
    }
}

/// Whether the key ends the game.
pub open spec fn is_quit_key(key: Key) -> bool {
    key == Key::Escape || key == Key::Q
}

/// A game in progress: the pit and the clock that drives gravity.
#[derive(Debug)]
pub struct GameState {
    pit: Pit,
    time_counter: u128,
}

impl View for GameState {
    type V = GameModel;

    closed spec fn view(&self) -> GameModel {
        GameModel { pit: self.pit@, time_counter: self.time_counter as nat }
    }
}

impl GameState {
    /// See `GameModel::wf`.
    pub open spec fn wf(&self) -> bool {
        self@.wf()
    }

    /// A new game: an empty pit of the game's size with a random piece at
    /// its spawn position, and the clock at zero.
    pub fn new() -> (state: GameState)
        ensures
            state.wf(),
            state@.time_counter == 0,
            state@.pit.grid == empty_grid(WELL_WIDTH as int, WELL_HEIGHT as int),
            is_spawn_piece(state@.pit.piece),
    {
        let state = GameState { pit: Pit::new(WELL_WIDTH, WELL_HEIGHT), time_counter: 0 };
        proof {
            lemma_spawned_piece_is_anchored(state@.pit, state@.pit.piece);
        }
        state
    }

    /// The pit, for drawing.
    pub fn pit(&self) -> (pit: &Pit)
        ensures
            pit@ == self@.pit,
    {
        &self.pit
    }

    /// Advances the game by one frame, given whether the down key is held
    /// and how many milliseconds went by since the last frame.
    pub fn update(&mut self, down_pressed: bool, elapsed_millis: u128)
        requires
            old(self).wf(),
            elapsed_millis <= u128::MAX - FALL_INTERVAL_MILLIS,
        ensures
            final(self).wf(),
            exists|first: Seq<Cell>, second: Seq<Cell>|
                is_spawn_piece(first) && is_spawn_piece(second) && final(self)@
                    == #[trigger] old(self)@.update(
                    down_pressed,
                    elapsed_millis as nat,
                    first,
                    second,
                ),
    {
        let ghost spare = Tetromino::I.spawn_cells();
        let ghost mut first = spare;
        let ghost mut second = spare;
        assert(is_spawn_piece(spare));
        if down_pressed {
            self.time_counter = 0;
            self.fall();
            proof {
                if !old(self)@.pit.can_move_down() {
                    first = self@.pit.piece;
                }
            }
        }
        let ghost dropped = self@;
        self.time_counter += elapsed_millis;
        if self.time_counter > FALL_INTERVAL_MILLIS {
            self.time_counter = 0;
            self.fall();
            proof {
                if !dropped.pit.can_move_down() {
                    second = self@.pit.piece;
                }
            }
        }
        assert(self@ == old(self)@.update(down_pressed, elapsed_millis as nat, first, second));
    }

    /// Lets the piece fall a row or, if it cannot, locks it and brings in the
    /// next one.
    fn fall(&mut self)
        requires
            old(self)@.pit.wf(),
            old(self)@.pit.width == WELL_WIDTH,
            old(self)@.pit.height == WELL_HEIGHT,
            old(self)@.pit.piece_anchored(),
        ensures
            final(self)@.pit == old(self)@.pit.move_piece_down(final(self)@.pit.piece),
            final(self)@.time_counter == old(self)@.time_counter,
            !old(self)@.pit.can_move_down() ==> is_spawn_piece(final(self)@.pit.piece),
            final(self)@.pit.wf(),
            final(self)@.pit.piece_anchored(),
    {
        self.pit.move_piece_down();
        proof {
            if old(self)@.pit.can_move_down() {
                lemma_operations_keep_piece_anchored(old(self)@.pit, Tetromino::I.spawn_cells());
            } else {
                lemma_operations_keep_piece_anchored(old(self)@.pit, self@.pit.piece);
            }
        }
    }

    /// Handles a key press and tells whether the game is to end. Left and
    /// right move the piece, up turns it, escape and Q end the game.
    pub fn key_down_event(&mut self, key: Key) -> (quit: bool)
        requires
            old(self).wf(),
        ensures
            final(self).wf(),
            final(self)@ == old(self)@.key_down_event(key),
            quit == is_quit_key(key),
    {
        proof {
            lemma_operations_keep_piece_anchored(self@.pit, Tetromino::I.spawn_cells());
            lemma_anchored_piece_can_rotate(self@.pit);
        }
        match key {
            Key::Right => {
                self.pit.move_piece_right();
                false
            },
            Key::Left => {
                self.pit.move_piece_left();
                false
            },
            Key::Up => {
                self.pit.rotate_piece();
                false
            },
            Key::Escape => true,
            Key::Q => true,
            Key::Other => false,
        }
    }
}

} // verus!
