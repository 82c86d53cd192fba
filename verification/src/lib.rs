//! A verified engine for a grid-based snake game.
//!
//! A player-controlled segmented body moves on a fixed discrete grid,
//! grows by consuming food, and the game ends on a wall hit, on a
//! self-collision, or — as a win — when food can no longer be placed
//! because the body covers the whole grid.
//!
//! The crate holds the game-state core only: grid geometry, movement and
//! growth, collision rules, food placement, and the per-tick state
//! machine. Window creation, drawing and raw key handling are outside
//! collaborators that consume snapshots of this state.

pub mod food;
pub mod game;
pub mod grid;
mod rng;
pub mod snake;
