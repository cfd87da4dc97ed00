//! A small regular-expression engine: a pattern is parsed into a tree of groups,
//! alternations, sequences, literal characters, character classes and greedy repeats, and a
//! subject matches when the tree consumes all of it. A match yields the text each group took.
//!
//! `model` states what parsing, matching and rendering mean on an abstract pattern tree;
//! `regex` holds the public entry points, whose contracts are stated over that model; `laws`
//! proves properties of matching that follow from it.
pub mod model;
pub mod laws;
mod parse;
pub mod regex;
mod render;
mod text;
mod tree;

pub use model::{MatchResult, ParseError};
pub use regex::Regex;
