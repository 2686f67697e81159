//! What a failed parse reports.

use vstd::prelude::*;

verus! {

/// A rule of the pattern grammar.
#[derive(Debug, Clone, Copy, PartialEq, Eq)]
pub enum Rule {
    /// The whole pattern: a sequence that reaches the end of the text.
    Pattern,
    /// One element of a sequence with its quantifiers and alternatives.
    Atom,
    /// A sequence in round brackets.
    Group,
    /// A character class in square brackets.
    Class,
    /// A range of characters inside a class.
    Range,
    /// A single character, plain or escaped.
    Literal,
    /// A repetition count.
    Quantifier,
}

/// A malformed pattern: where it went wrong and which rule was being read.
#[derive(Debug, Clone, Copy, PartialEq, Eq)]
pub struct ParseError {
    /// Byte offset into the pattern text at which the rule could not go on.
    pub offset: usize,
    /// The rule that was being read there.
    pub rule: Rule,
}

} // verus!
