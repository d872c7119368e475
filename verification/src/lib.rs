//! A word-guessing game engine.
//!
//! The engine scores five-letter guesses against a hidden solution
//! letter by letter, aware of duplicate letters, and drives a turn
//! loop until the guesser wins, submits an invalid guess, or the
//! input stream ends.

pub mod scoring;
pub mod session;
pub mod word;
pub mod wordlist;
