//! Core rules of a grid-based snake game: board state, direction input,
//! one-step simulation, collision detection, food placement and scoring.

pub mod rng;
pub mod snake;
