//! The pattern tree, its mathematical model, and the conditions under which a
//! tree can be generated from.

use vstd::prelude::*;
use vstd::slice::slice_to_vec;
use crate::chars::first_outside;

verus! {

/// The `max` of a quantifier that has no upper bound (`*` and `+`).
pub const UNBOUNDED: u64 = 0xFFFF_FFFF_FFFF_FFFF;

/// A string pattern.
#[derive(Debug, PartialEq, Eq)]
pub enum Pattern {
    /// Two alternative patterns.
    Or(Box<Pattern>, Box<Pattern>),
    /// A group.
    Group(Box<Pattern>),
    /// A quantification of a pattern.
    Quantification {
        /// The quantified pattern.
        pattern: Box<Pattern>,
        /// The minimum number of occurrences.
        min: u64,
        /// The maximum number of occurrences.
        max: u64,
    },
    /// A sequence of patterns.
    Sequence(Vec<Pattern>),
    /// A character.
    Literal(char),
    /// A class of characters. A character listed twice is twice as likely to
    /// be drawn.
    Class(Vec<char>),
    /// An inverted class of characters.
    InvertedClass(Vec<char>),
    /// A wildcard.
    Wildcard,
}

/// The mathematical model of a [`Pattern`]: the same tree over sequences.
pub enum Shape {
    /// Either of two shapes.
    Or(Box<Shape>, Box<Shape>),
    /// A shape in brackets.
    Group(Box<Shape>),
    /// Between `min` and `max` repetitions of a shape.
    Quantification { pattern: Box<Shape>, min: u64, max: u64 },
    /// Shapes one after the other.
    Sequence(Seq<Shape>),
    /// One given character.
    Literal(char),
    /// One character out of the listed ones.
    Class(Seq<char>),
    /// One character that is not listed.
    InvertedClass(Seq<char>),
    /// Any one character.
    Wildcard,
}

/// The model of `p`.
pub open spec fn shape_of(p: Pattern) -> Shape
    decreases p,
{
    match p {
        Pattern::Or(a, b) => Shape::Or(Box::new(shape_of(*a)), Box::new(shape_of(*b))),
        Pattern::Group(inner) => Shape::Group(Box::new(shape_of(*inner))),
        Pattern::Quantification { pattern, min, max } => Shape::Quantification {
            pattern: Box::new(shape_of(*pattern)),
            min,
            max,
        },
        Pattern::Sequence(items) => Shape::Sequence(
            Seq::new(
                items.len() as nat,
                |i: int|
                    if 0 <= i < items.len() {
                        shape_of(items[i])
                    } else {
                        Shape::Wildcard
                    },
            ),
        ),
        Pattern::Literal(c) => Shape::Literal(c),
        Pattern::Class(set) => Shape::Class(set@),
        Pattern::InvertedClass(set) => Shape::InvertedClass(set@),
        Pattern::Wildcard => Shape::Wildcard,
    }
}

impl View for Pattern {
    type V = Shape;

    open spec fn view(&self) -> Shape {
        shape_of(*self)
    }
}

/// The models of a list of patterns, in order.
pub open spec fn shapes(items: Seq<Pattern>) -> Seq<Shape> {
    Seq::new(items.len(), |i: int| items[i]@)
}

/// A sequence is modelled by the models of its items.
pub proof fn lemma_sequence_view(items: Vec<Pattern>)
    ensures
        Pattern::Sequence(items)@ == Shape::Sequence(shapes(items@)),
{
    assert(Pattern::Sequence(items)@->Sequence_0 =~= shapes(items@));
}

/// Whether at least one character does not occur in `set`.
pub open spec fn leaves_out(set: Seq<char>) -> bool {
    exists|c: char| !set.contains(c)
}

impl Shape {
    /// What every parsed tree satisfies: each quantifier has `min <= max`, and
    /// each class, inverted or not, lists at least one character.
    pub open spec fn well_formed(self) -> bool
        decreases self,
    {
        match self {
            Shape::Or(a, b) => (*a).well_formed() && (*b).well_formed(),
            Shape::Group(inner) => (*inner).well_formed(),
            Shape::Quantification { pattern, min, max } => min <= max && (*pattern).well_formed(),
            Shape::Sequence(items) => forall|i: int|
                0 <= i < items.len() ==> (#[trigger] items[i]).well_formed(),
            Shape::Literal(_) => true,
            Shape::Class(set) => set.len() > 0,
            Shape::InvertedClass(set) => set.len() > 0,
            Shape::Wildcard => true,
        }
    }

    /// What generation needs: each quantifier has `min <= max`, each class
    /// lists a character to draw, and each inverted class leaves at least one
    /// character out.
    pub open spec fn generable(self) -> bool
        decreases self,
    {
        match self {
            Shape::Or(a, b) => (*a).generable() && (*b).generable(),
            Shape::Group(inner) => (*inner).generable(),
            Shape::Quantification { pattern, min, max } => min <= max && (*pattern).generable(),
            Shape::Sequence(items) => forall|i: int|
                0 <= i < items.len() ==> (#[trigger] items[i]).generable(),
            Shape::Literal(_) => true,
            Shape::Class(set) => set.len() > 0,
            Shape::InvertedClass(set) => leaves_out(set),
            Shape::Wildcard => true,
        }
    }
}

/// A character outside `set` shows that `set` leaves a character out.
pub proof fn lemma_leaves_out(set: Seq<char>, c: char)
    requires
        !set.contains(c),
    ensures
        leaves_out(set),
{
}

impl Clone for Pattern {
    /// A tree of the same shape.
    fn clone(&self) -> (copy: Self)
        ensures
            copy@ == self@,
        decreases self,
    {
        match self {
            Pattern::Or(a, b) => Pattern::Or(Box::new((**a).clone()), Box::new((**b).clone())),
            Pattern::Group(inner) => Pattern::Group(Box::new((**inner).clone())),
            Pattern::Quantification { pattern, min, max } => Pattern::Quantification {
                pattern: Box::new((**pattern).clone()),
                min: *min,
                max: *max,
            },
            Pattern::Sequence(items) => {
                let mut copies: Vec<Pattern> = Vec::new();
                let mut i: usize = 0;
                while i < items.len()
                    invariant
                        i <= items.len(),
                        self is Sequence,
                        self->Sequence_0 == *items,
                        copies.len() == i,
                        forall|k: int| 0 <= k < i ==> (#[trigger] copies@[k])@ == items@[k]@,
                    decreases items.len() - i,
                {
                    copies.push(items[i].clone());
                    i = i + 1;
                }
                proof {
                    lemma_sequence_view(copies);
                    lemma_sequence_view(*items);
                    assert(shapes(copies@) =~= shapes(items@));
                }
                Pattern::Sequence(copies)
            },
            Pattern::Literal(c) => Pattern::Literal(*c),
            Pattern::Class(set) => Pattern::Class(slice_to_vec(set.as_slice())),
            Pattern::InvertedClass(set) => Pattern::InvertedClass(slice_to_vec(set.as_slice())),
            Pattern::Wildcard => Pattern::Wildcard,
        }
    }
}

impl Pattern {
    /// Whether a string can be generated from this tree: whether each
    /// quantifier has `min <= max`, each class lists a character, and each
    /// inverted class leaves one out.
    pub fn is_generable(&self) -> (ok: bool)
        ensures
            ok == self@.generable(),
        decreases self,
    {
        match self {
            Pattern::Or(a, b) => a.is_generable() && b.is_generable(),
            Pattern::Group(inner) => inner.is_generable(),
            Pattern::Quantification { pattern, min, max } => *min <= *max && pattern.is_generable(),
            Pattern::Sequence(items) => {
                proof {
                    lemma_sequence_view(*items);
                }
                let mut i: usize = 0;
                while i < items.len()
                    invariant
                        i <= items.len(),
                        self is Sequence,
                        self->Sequence_0 == *items,
                        self@ == Shape::Sequence(shapes(items@)),
                        forall|k: int| 0 <= k < i ==> (#[trigger] shapes(items@)[k]).generable(),
                    decreases items.len() - i,
                {
                    if !items[i].is_generable() {
                        assert(self@->Sequence_0 == shapes(items@));
                        assert(!shapes(items@)[i as int].generable());
                        return false;
                    }
                    i = i + 1;
                }
                assert(shapes(items@).len() == items.len());
                assert(self@->Sequence_0 == shapes(items@));
                true
            },
            Pattern::Literal(_) => true,
            Pattern::Class(set) => set.len() > 0,
            Pattern::InvertedClass(set) => match first_outside(set.as_slice()) {
                Some(c) => {
                    proof {
                        lemma_leaves_out(set@, c);
                    }
                    true
                },
                None => false,
            },
            Pattern::Wildcard => true,
        }
    }
}

} // verus!
