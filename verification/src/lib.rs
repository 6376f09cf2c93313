//! A lexical scanner: source text in, a flat sequence of classified tokens out.
//!
//! The data model lives in [`token`]. The lexical grammar is written down as
//! spec functions in [`grammar`], and [`scanner`] holds the executable scanner,
//! which is proved to produce exactly what the grammar describes. [`laws`]
//! states what holds of every scan, and [`text`] builds the strings.

pub mod grammar;
pub mod laws;
pub mod scanner;
pub mod text;
pub mod token;
