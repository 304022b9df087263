//! A verified tic-tac-toe engine with a tabular Q-learning trainer.
//!
//! The game model (`board`) is a plain 3x3 grid of trinary cells with
//! win detection, legal-move enumeration and rendering, all specified
//! against a sequence view of the nine cells. The trainer (`trainer`)
//! learns an action-value table (`qtable`) over (board, action) pairs
//! with a deterministic, seedable pseudo-random source (`rng`), so
//! that a whole training run is a pure function of its seed; `parse`
//! reads a human player's move from a line of text.

pub mod board;
pub mod parse;
pub mod qtable;
pub mod rng;
pub mod trainer;
