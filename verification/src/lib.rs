//! Random strings from compact patterns.
//!
//! A pattern such as `[a-zA-Z0-9]{8,16}` is parsed into a [`Pattern`] tree, and
//! the tree is walked with a random number generator to produce a string that
//! the pattern matches.
//!
//! * [`chars`]: code points, character ranges and UTF-8 offsets.
//! * [`error`]: what a failed parse reports.
//! * [`pattern`]: the tree, its mathematical model and its invariants.
//! * [`grammar`]: what each rule of the pattern language accepts.
//! * [`laws`]: what holds of the grammar on every text.
//! * [`parser`]: the recursive-descent parser, proved against the grammar.
//! * [`language`]: which strings a pattern matches.
//! * [`random`]: the calls into the `rand` crate.
//! * [`generator`]: the tree walk that writes a matching string.

pub mod chars;
pub mod error;
pub mod pattern;
pub mod grammar;
pub mod laws;
pub mod parser;
pub mod language;
pub mod random;
pub mod generator;

pub use error::ParseError;
pub use error::Rule;
pub use pattern::Pattern;
