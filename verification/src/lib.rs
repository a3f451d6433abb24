//! Rules engine for a falling-block puzzle game: the board grid, the active
//! piece's geometry, collision detection, rotation with wall kicks, line
//! clearing with scoring, gravity-driven progression, and session snapshots.

pub mod board;
pub mod highscore;
pub mod piece;
pub mod session;
pub mod snapshot;
