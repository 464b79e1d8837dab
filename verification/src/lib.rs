//! A verified number-guessing game.
//!
//! The library models a game that hides a target in `[1, 100]` and judges a
//! stream of guesses: each wrong guess is reported as too small or too big,
//! the target is revealed once as a hint after a fixed number of misses, and
//! the game is lost once a fixed ceiling of misses is exceeded.

pub mod game;
pub mod parse;
pub mod rng;
