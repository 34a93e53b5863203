//! Rules engine of a falling-block puzzle game: piece catalog, occupancy grid,
//! active piece with its fall timer, shadow projection, per-board round
//! controller, scoring, and a session of several boards with a focus selector.

pub mod random;
pub mod score;
pub mod timer;
pub mod piece;
pub mod grid;
pub mod events;
pub mod board;
pub mod session;
