//! Game-state core of a snake game: the board model, the per-tick update,
//! deterministic food placement and the projection of a state onto a
//! character-cell display.

pub mod point;
pub mod food;
pub mod game;
pub mod display;
