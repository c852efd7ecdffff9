//! Simulation core of a paddle-and-ball block breaker: integer geometry,
//! collision resolution, the entities and the game's mode controller.
//!
//! Positions and sizes are in micro-pixels, frame times in milliseconds,
//! and a ball's direction is a vector whose unit length is `UNIT`.

pub mod geometry;
pub mod collision;
pub mod entities;
pub mod game;

pub use collision::resolve_collision;
pub use entities::{Ball, Block, Player};
pub use game::{Game, GameState, Input};
