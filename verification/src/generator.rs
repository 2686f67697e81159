//! The tree walk that writes a string which the pattern matches.
//!
//! Every choice is drawn from a `rand::rngs::StdRng`: the side of an
//! alternative, the number of repetitions, the member of a class. What is
//! proved holds whatever is drawn: the string matches the pattern.
//!
//! A quantifier without an upper bound (`*`, `+`) is repeated at most
//! [`DEFAULT_CEILING`] times, or as often as the caller of
//! [`Pattern::generate_within`] allows. For an inverted class characters are
//! drawn until one is outside the class; after [`DRAWS_BEFORE_SCAN`] draws
//! inside it, the characters outside it are counted and one of them is drawn
//! by its number.

use vstd::prelude::*;
use vstd::string::StringExecFns;
use rand::rngs::StdRng;
use crate::chars::{contains, count_outside, lemma_outside_counted, nth_outside};
use crate::language;
use crate::language::{lemma_ceiling_matches, lemma_flatten_push, lemma_repeats_matches};
use crate::pattern::{leaves_out, lemma_sequence_view, shapes, Pattern, Shape, UNBOUNDED};
use crate::random::{any_char, draw_count, pick_one};

verus! {

/// How often `generate` repeats at most what a quantifier without an upper
/// bound quantifies.
pub const DEFAULT_CEILING: u64 = 32;

/// How many characters are drawn for an inverted class before the characters
/// outside it are counted.
pub const DRAWS_BEFORE_SCAN: usize = 64;

/// The greatest number of repetitions to draw for a quantifier with the
/// bounds `min` and `max` under `ceiling`.
pub fn repeat_limit(min: u64, max: u64, ceiling: u64) -> (limit: u64)
    ensures
        limit == language::repeat_limit(min, max, ceiling),
{
    if max != UNBOUNDED {
        max
    } else if min <= ceiling {
        ceiling
    } else {
        min
    }
}

/// The string that holds `c` alone.
pub fn one(c: char) -> (text: String)
    ensures
        text@ == seq![c],
{
    let mut text = String::new();
    text.push(c);
    assert(text@ =~= seq![c]);
    text
}

/// The decision after a draw for an inverted class: `drawn` where it is
/// outside `set`, else nothing.
pub fn accept(set: &[char], drawn: char) -> (kept: Option<char>)
    ensures
        kept == if set@.contains(drawn) {
            None
        } else {
            Some(drawn)
        },
{
    if contains(set, drawn) {
        None
    } else {
        Some(drawn)
    }
}

/// Draws a character outside `set`.
pub fn draw_outside(set: &[char], rng: &mut StdRng) -> (c: char)
    requires
        leaves_out(set@),
    ensures
        !set@.contains(c),
{
    let mut draws: usize = 0;
    while draws < DRAWS_BEFORE_SCAN
        invariant
            draws <= DRAWS_BEFORE_SCAN,
        decreases DRAWS_BEFORE_SCAN - draws,
    {
        match accept(set, any_char(rng)) {
            Some(c) => {
                return c;
            },
            None => {},
        }
        draws = draws + 1;
    }
    proof {
        let outside = choose|c: char| !set@.contains(c);
        lemma_outside_counted(set@, outside);
    }
    let total: u32 = count_outside(set);
    let n: u64 = draw_count(rng, 0, (total - 1) as u64);
    nth_outside(set, n as u32)
}

impl Pattern {
    /// Generates a string matching this pattern, with unbounded quantifiers
    /// repeated at most [`DEFAULT_CEILING`] times.
    pub fn generate(&self, rng: &mut StdRng) -> (text: String)
        requires
            self@.generable(),
        ensures
            self@.matches(text@),
            self@.matches_within(text@, DEFAULT_CEILING),
    {
        self.generate_within(rng, DEFAULT_CEILING)
    }

    /// Generates a string matching this pattern, with unbounded quantifiers
    /// repeated at most `ceiling` times, or their minimum where that is more.
    pub fn generate_within(&self, rng: &mut StdRng, ceiling: u64) -> (text: String)
        requires
            self@.generable(),
        ensures
            self@.matches(text@),
            self@.matches_within(text@, ceiling),
        decreases self, 0int,
    {
        let text: String = match self {
            Pattern::Or(a, b) => {
                let sides = [a, b];
                match pick_one(sides.as_slice(), rng) {
                    Some(side) => {
                        assert(sides@.contains(*side));
                        assert(*side == a || *side == b);
                        side.generate_within(rng, ceiling)
                    },
                    None => vstd::pervasive::unreached(),
                }
            },
            Pattern::Group(inner) => inner.generate_within(rng, ceiling),
            Pattern::Quantification { pattern, min, max } => {
                let limit: u64 = repeat_limit(*min, *max, ceiling);
                let count: u64 = draw_count(rng, *min, limit);
                let text: String = pattern.repeat(count, rng, ceiling);
                proof {
                    lemma_repeats_matches(pattern@, *min, *max, text@, count as nat, ceiling);
                }
                text
            },
            Pattern::Sequence(items) => {
                let mut text = String::new();
                let ghost mut parts: Seq<Seq<char>> = Seq::empty();
                let mut i: usize = 0;
                proof {
                    lemma_sequence_view(*items);
                }
                while i < items.len()
                    invariant
                        i <= items.len(),
                        self is Sequence,
                        self->Sequence_0 == *items,
                        self@ == Shape::Sequence(shapes(items@)),
                        self@.generable(),
                        parts.len() == i,
                        parts.flatten() == text@,
                        forall|k: int|
                            0 <= k < i ==> shapes(items@)[k].matches_within(
                                #[trigger] parts[k],
                                ceiling,
                            ),
                    decreases items.len() - i,
                {
                    assert(shapes(items@).len() == items.len());
                    assert(self@->Sequence_0 == shapes(items@));
                    assert(shapes(items@)[i as int].generable());
                    let piece: String = items[i].generate_within(rng, ceiling);
                    proof {
                        lemma_flatten_push(parts, piece@);
                        parts = parts.push(piece@);
                    }
                    text.append(piece.as_str());
                    i = i + 1;
                }
                text
            },
            Pattern::Literal(c) => one(*c),
            Pattern::Class(set) => match pick_one(set.as_slice(), rng) {
                Some(c) => one(*c),
                None => vstd::pervasive::unreached(),
            },
            Pattern::InvertedClass(set) => one(draw_outside(set.as_slice(), rng)),
            Pattern::Wildcard => one(any_char(rng)),
        };
        proof {
            lemma_ceiling_matches(self@, text@, ceiling);
        }
        text
    }

    /// Generates `count` strings matching this pattern, one after the other.
    pub fn repeat(&self, count: u64, rng: &mut StdRng, ceiling: u64) -> (text: String)
        requires
            self@.generable(),
        ensures
            self@.repeats(text@, count as nat, ceiling),
        decreases self, 1int,
    {
        let mut text = String::new();
        let ghost mut parts: Seq<Seq<char>> = Seq::empty();
        let mut i: u64 = 0;
        while i < count
            invariant
                i <= count,
                self@.generable(),
                parts.len() == i,
                parts.flatten() == text@,
                forall|k: int| 0 <= k < i ==> self@.matches_within(#[trigger] parts[k], ceiling),
            decreases count - i,
        {
            let piece: String = self.generate_within(rng, ceiling);
            proof {
                lemma_flatten_push(parts, piece@);
                parts = parts.push(piece@);
            }
            text.append(piece.as_str());
            i = i + 1;
        }
        text
    }
}

} // verus!
