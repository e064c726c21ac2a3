//! A word-guessing solver built on information theory.
//!
//! The engine picks, turn by turn, the guess that most narrows a set of
//! candidate answers. Its parts, leaf first: five-letter [`Word`]s;
//! feedback [`Pattern`]s with exact duplicate-letter rules; Q16
//! fixed-point entropy and worst-case scoring over the 243 possible
//! patterns; a closed family of selection strategies; an adaptive
//! dispatcher that picks a strategy by candidate count; and a solver
//! that filters the answer pool against the game history. Scores use
//! integer fixed point throughout, so every contract here is exact.

pub mod adaptive;
pub mod benchmark;
pub mod engine;
pub mod entropy;
pub mod formatters;
pub mod minimax;
pub mod pattern;
pub mod qlog;
pub mod selection;
pub mod solve;
pub mod strategy;
pub mod word;
pub mod wordlists;

pub use pattern::Pattern;
pub use word::Word;
pub use word::WordError;

