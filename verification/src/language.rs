//! Which strings a pattern matches.
//!
//! A string matches a tree when it can be cut into pieces along the tree: one
//! piece for each item of a sequence, a number of pieces within the bounds of
//! a quantifier, one character for a literal, a class or a wildcard.
//!
//! A quantifier without an upper bound matches any number of repetitions from
//! its minimum on. Generation never goes that far: it stops at a ceiling, so
//! the relation is also stated under a ceiling.

use vstd::prelude::*;
use crate::pattern::{Shape, UNBOUNDED};

verus! {

/// The greatest number of repetitions that a quantifier with the bounds `min`
/// and `max` stands for under `ceiling`: `max` itself where the quantifier is
/// bounded, else the ceiling, or the minimum where that lies above the
/// ceiling.
pub open spec fn repeat_limit(min: u64, max: u64, ceiling: u64) -> u64 {
    if max != UNBOUNDED {
        max
    } else if min <= ceiling {
        ceiling
    } else {
        min
    }
}

impl Shape {
    /// Whether `text` matches this shape with no unbounded quantifier repeated
    /// more often than [`repeat_limit`] allows under `ceiling`.
    pub open spec fn matches_within(self, text: Seq<char>, ceiling: u64) -> bool
        decreases self,
    {
        match self {
            Shape::Or(a, b) => (*a).matches_within(text, ceiling) || (*b).matches_within(
                text,
                ceiling,
            ),
            Shape::Group(inner) => (*inner).matches_within(text, ceiling),
            Shape::Quantification { pattern, min, max } => exists|parts: Seq<Seq<char>>|
                #![trigger parts.flatten()]
                min <= parts.len() <= repeat_limit(min, max, ceiling) && parts.flatten() == text
                    && forall|i: int|
                    0 <= i < parts.len() ==> (*pattern).matches_within(
                        #[trigger] parts[i],
                        ceiling,
                    ),
            Shape::Sequence(items) => exists|parts: Seq<Seq<char>>|
                #![trigger parts.flatten()]
                parts.len() == items.len() && parts.flatten() == text && forall|i: int|
                    0 <= i < items.len() ==> items[i].matches_within(#[trigger] parts[i], ceiling),
            Shape::Literal(c) => text == seq![c],
            Shape::Class(set) => text.len() == 1 && set.contains(text[0]),
            Shape::InvertedClass(set) => text.len() == 1 && !set.contains(text[0]),
            Shape::Wildcard => text.len() == 1,
        }
    }

    /// Whether `text` is `count` pieces in a row that each match this shape
    /// under `ceiling`.
    pub open spec fn repeats(self, text: Seq<char>, count: nat, ceiling: u64) -> bool {
        exists|parts: Seq<Seq<char>>|
            #![trigger parts.flatten()]
            parts.len() == count && parts.flatten() == text && forall|i: int|
                0 <= i < parts.len() ==> self.matches_within(#[trigger] parts[i], ceiling)
    }

    /// Whether `text` matches this shape: every literal position holds its
    /// character, every class position a member, every inverted class
    /// position a character that is no member, every wildcard position any
    /// character, and every quantifier is repeated between `min` and `max`
    /// times.
    pub open spec fn matches(self, text: Seq<char>) -> bool {
        self.matches_within(text, UNBOUNDED)
    }
}

/// Pieces in a row, with one more piece at the end, join to what the pieces
/// join to followed by that piece.
pub proof fn lemma_flatten_push(parts: Seq<Seq<char>>, piece: Seq<char>)
    ensures
        parts.push(piece).flatten() == parts.flatten() + piece,
{
    parts.lemma_flatten_and_flatten_alt_are_equivalent();
    parts.push(piece).lemma_flatten_and_flatten_alt_are_equivalent();
    assert(parts.push(piece).drop_last() =~= parts);
}

/// What matches under a ceiling matches: a ceiling only takes repetitions
/// away.
pub proof fn lemma_ceiling_matches(shape: Shape, text: Seq<char>, ceiling: u64)
    requires
        shape.matches_within(text, ceiling),
    ensures
        shape.matches(text),
    decreases shape,
{
    match shape {
        Shape::Or(a, b) => {
            if (*a).matches_within(text, ceiling) {
                lemma_ceiling_matches(*a, text, ceiling);
            } else {
                lemma_ceiling_matches(*b, text, ceiling);
            }
        },
        Shape::Group(inner) => {
            lemma_ceiling_matches(*inner, text, ceiling);
        },
        Shape::Quantification { pattern, min, max } => {
            let parts = choose|parts: Seq<Seq<char>>|
                #![trigger parts.flatten()]
                min <= parts.len() <= repeat_limit(min, max, ceiling) && parts.flatten() == text
                    && forall|i: int|
                    0 <= i < parts.len() ==> (*pattern).matches_within(
                        #[trigger] parts[i],
                        ceiling,
                    );
            assert forall|i: int| 0 <= i < parts.len() implies (*pattern).matches_within(
                #[trigger] parts[i],
                UNBOUNDED,
            ) by {
                lemma_ceiling_matches(*pattern, parts[i], ceiling);
            }
            assert(parts.flatten() == text);
        },
        Shape::Sequence(items) => {
            let parts = choose|parts: Seq<Seq<char>>|
                #![trigger parts.flatten()]
                parts.len() == items.len() && parts.flatten() == text && forall|i: int|
                    0 <= i < items.len() ==> items[i].matches_within(#[trigger] parts[i], ceiling);
            assert forall|i: int| 0 <= i < items.len() implies items[i].matches_within(
                #[trigger] parts[i],
                UNBOUNDED,
            ) by {
                lemma_ceiling_matches(items[i], parts[i], ceiling);
            }
            assert(parts.flatten() == text);
        },
        _ => {},
    }
}

/// A number of matching pieces within the bounds of a quantifier match the
/// quantified shape.
pub proof fn lemma_repeats_matches(inner: Shape, min: u64, max: u64, text: Seq<char>, count: nat, ceiling: u64)
    requires
        inner.repeats(text, count, ceiling),
        min <= count <= repeat_limit(min, max, ceiling),
    ensures
        (Shape::Quantification { pattern: Box::new(inner), min, max }).matches_within(text, ceiling),
{
    let parts = choose|parts: Seq<Seq<char>>|
        #![trigger parts.flatten()]
        parts.len() == count && parts.flatten() == text && forall|i: int|
            0 <= i < parts.len() ==> inner.matches_within(#[trigger] parts[i], ceiling);
    assert(parts.flatten() == text);
}

} // verus!
