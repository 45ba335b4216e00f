//! Text-editor cursor motions over a character grid, and a best-first
//! solver that searches those motions for a route from start to target.
pub mod level;
pub mod input;
pub mod engine;
pub mod game;
pub mod solver;
