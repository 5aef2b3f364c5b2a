//! A falling-block puzzle engine: board and collision geometry, rotation
//! with wall kicks, gravity and lock delay, line clears, a bag randomizer
//! and the hold slot.

pub mod board;
pub mod game;
pub mod laws;
pub mod piece;
pub mod queue;

pub use board::{Board, BOARD_HEIGHT, BOARD_WIDTH, PLAYABLE_TOP};
pub use game::{State, Tetris, Transition, SPAWN_COL, SPAWN_LINE};
pub use piece::{Direction, Piece, Rotation};
pub use queue::PieceQueue;
