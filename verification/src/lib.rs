//! The pit of a falling-block puzzle: a grid of locked blocks and one active
//! four-cell piece, with the rules for moving, rotating, locking and clearing
//! rows, each stated as a contract over a mathematical model of the pit.

pub mod game;
pub mod laws;
pub mod model;
pub mod pit;
pub mod tetromino;

pub use game::{GameModel, GameState, Key};
pub use model::PitModel;
pub use pit::Pit;
pub use tetromino::{get_random_tetromino, rotate_tetromino, rotation_fits, Tetromino};
