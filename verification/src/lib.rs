//! A small spaced-repetition flashcard library.
//!
//! The library holds the logic of a flashcard manager: the scheduling
//! policy that maps a proficiency level and a recall outcome to the next
//! review date, the parser for the plain-text card import format, and the
//! per-card review state machine. Persistence and terminal input live in
//! the surrounding application; they hand the library plain values.

pub mod import;
pub mod review;
pub mod schedule;
pub mod text;
