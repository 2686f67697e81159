//! What holds of the grammar on every text.
//!
//! Each rule that matches consumes at least one character and stays inside
//! the text; each failure points into the text or at its end; and every tree
//! that the grammar reads is well formed. A sequence, and so a pattern, never
//! fails to apply: it matches or the text is malformed.

use vstd::prelude::*;
use crate::chars::lemma_span_ends;
use crate::grammar::{
    advances, atom, atoms, braces, class, class_characters, class_item, class_items, class_tail,
    digit_run, group, left, literal, number, pattern, primary, quantifier, range, sequence,
    shorthand, shorthand_class, shorthand_set, single, suffixes, take, wildcard, Outcome,
};
use crate::pattern::Shape;

verus! {

/// Whether an outcome of reading at `pos` keeps to the text: a match ends
/// after `pos` and inside the text, and a failure lies from `pos` on and no
/// further than the end of the text.
pub open spec fn sound<T>(outcome: Outcome<T>, text: Seq<char>, pos: int) -> bool {
    match outcome {
        Outcome::Match(_, next) => advances(text, pos, next),
        Outcome::NoMatch => true,
        Outcome::Fail(at, _) => pos <= at <= text.len(),
    }
}

/// Whether an outcome, where it is a tree, is a well-formed one.
pub open spec fn well_formed(outcome: Outcome<Shape>) -> bool {
    outcome matches Outcome::Match(tree, _) ==> tree.well_formed()
}

/// A run of digits ends inside the text.
pub proof fn lemma_digit_run_bound(text: Seq<char>, pos: int)
    requires
        0 <= pos <= text.len(),
    ensures
        pos + digit_run(text, pos) <= text.len(),
    decreases left(text, pos),
{
    if pos < text.len() {
        lemma_digit_run_bound(text, pos + 1);
    }
}

/// A number consumes at least one digit and ends inside the text.
pub proof fn lemma_number(text: Seq<char>, pos: int)
    requires
        0 <= pos <= text.len(),
    ensures
        number(text, pos) matches Some((_, next)) ==> advances(text, pos, next),
{
    lemma_digit_run_bound(text, pos);
}

/// A quantifier keeps to the text, and its least count is not above its
/// greatest.
pub proof fn lemma_quantifier(text: Seq<char>, pos: int)
    requires
        0 <= pos <= text.len(),
    ensures
        sound(quantifier(text, pos), text, pos),
        quantifier(text, pos) matches Outcome::Match((min, max), _) ==> min <= max,
{
    if pos < text.len() {
        lemma_number(text, pos + 1);
        if let Some((_, after_min)) = number(text, pos + 1) {
            if after_min < text.len() {
                lemma_number(text, after_min + 1);
            }
        }
    }
}

/// A shorthand stands for at least one character.
pub proof fn lemma_shorthand_set(letter: char)
    ensures
        shorthand_set(letter) matches Some(set) ==> set.len() > 0,
{
    lemma_span_ends('0', '9');
    lemma_span_ends('a', 'z');
    lemma_span_ends('A', 'Z');
}

/// An item of a class keeps to the text and adds at least one member.
pub proof fn lemma_class_item(text: Seq<char>, pos: int)
    requires
        0 <= pos <= text.len(),
    ensures
        sound(class_item(text, pos), text, pos),
        class_item(text, pos) matches Outcome::Match(more, _) ==> more.len() > 0,
{
    if pos + 1 < text.len() {
        lemma_shorthand_set(text[pos + 1]);
    }
    if pos + 2 < text.len() && text[pos] as u32 <= text[pos + 2] as u32 {
        lemma_span_ends(text[pos], text[pos + 2]);
    }
}

/// The items of a class keep to the text, always apply, and only add
/// members: at least one where they consume anything.
pub proof fn lemma_class_items(text: Seq<char>, pos: int, members: Seq<char>)
    requires
        0 <= pos <= text.len(),
    ensures
        match class_items(text, pos, members) {
            Outcome::Match(all, end) => pos <= end <= text.len() && all.len() >= members.len() && (
            end > pos ==> all.len() > 0) && class_item(text, end) is NoMatch,
            Outcome::NoMatch => false,
            Outcome::Fail(at, _) => pos <= at <= text.len(),
        },
    decreases left(text, pos),
{
    lemma_class_item(text, pos);
    if let Outcome::Match(more, next) = class_item(text, pos) {
        lemma_class_items(text, next, members + more);
    }
}

/// A class keeps to the text and lists at least one member.
pub proof fn lemma_class(text: Seq<char>, pos: int)
    requires
        0 <= pos <= text.len(),
    ensures
        sound(class(text, pos), text, pos),
        well_formed(class(text, pos)),
{
    if pos < text.len() && text[pos] == '[' {
        let inverted = pos + 1 < text.len() && text[pos + 1] == '^';
        let start = if inverted {
            pos + 2
        } else {
            pos + 1
        };
        let (bracket, after_bracket) = take(text, start, ']', Seq::empty());
        let (dash, after_dash) = take(text, after_bracket, '-', bracket);
        lemma_class_items(text, after_dash, dash);
    }
}

/// A literal, a wildcard and a shorthand keep to the text and are well
/// formed.
pub proof fn lemma_single_character(text: Seq<char>, pos: int)
    requires
        0 <= pos <= text.len(),
    ensures
        sound(literal(text, pos), text, pos),
        sound(wildcard(text, pos), text, pos),
        sound(shorthand_class(text, pos), text, pos),
        well_formed(literal(text, pos)),
        well_formed(wildcard(text, pos)),
        well_formed(shorthand_class(text, pos)),
{
    if pos + 1 < text.len() {
        lemma_shorthand_set(text[pos + 1]);
    }
}

/// A group keeps to the text and is well formed.
pub proof fn lemma_group(text: Seq<char>, pos: int)
    requires
        0 <= pos <= text.len(),
    ensures
        sound(group(text, pos), text, pos),
        well_formed(group(text, pos)),
    decreases left(text, pos), 0int,
{
    if pos < text.len() && text[pos] == '(' {
        lemma_sequence(text, pos + 1);
    }
}

/// A primary keeps to the text and is well formed.
pub proof fn lemma_primary(text: Seq<char>, pos: int)
    requires
        0 <= pos <= text.len(),
    ensures
        sound(primary(text, pos), text, pos),
        well_formed(primary(text, pos)),
    decreases left(text, pos), 1int,
{
    lemma_group(text, pos);
    lemma_class(text, pos);
    lemma_single_character(text, pos);
}

/// What follows a well-formed primary keeps to the text and leaves the tree
/// well formed.
pub proof fn lemma_suffixes(text: Seq<char>, read: Shape, pos: int)
    requires
        0 <= pos <= text.len(),
        read.well_formed(),
    ensures
        match suffixes(text, read, pos) {
            Outcome::Match(tree, end) => pos <= end <= text.len() && tree.well_formed(),
            Outcome::NoMatch => false,
            Outcome::Fail(at, _) => pos <= at <= text.len(),
        },
    decreases left(text, pos), 3int,
{
    if pos < text.len() && text[pos] == '|' {
        lemma_atom(text, pos + 1);
        if let Outcome::Match(other, next) = atom(text, pos + 1) {
            lemma_suffixes(text, Shape::Or(Box::new(read), Box::new(other)), next);
        }
    } else {
        lemma_quantifier(text, pos);
        if let Outcome::Match((min, max), next) = quantifier(text, pos) {
            lemma_suffixes(text, Shape::Quantification { pattern: Box::new(read), min, max }, next);
        }
    }
}

/// An atom keeps to the text and is well formed.
pub proof fn lemma_atom(text: Seq<char>, pos: int)
    requires
        0 <= pos <= text.len(),
    ensures
        sound(atom(text, pos), text, pos),
        well_formed(atom(text, pos)),
    decreases left(text, pos), 2int,
{
    lemma_primary(text, pos);
    if let Outcome::Match(first, next) = primary(text, pos) {
        lemma_suffixes(text, first, next);
    }
}

/// The atoms of a sequence keep to the text, always apply, and are well
/// formed where those read before them are.
pub proof fn lemma_atoms(text: Seq<char>, pos: int, items: Seq<Shape>)
    requires
        0 <= pos <= text.len(),
        forall|i: int| 0 <= i < items.len() ==> (#[trigger] items[i]).well_formed(),
    ensures
        match atoms(text, pos, items) {
            Outcome::Match(all, end) => pos <= end <= text.len() && forall|i: int|
                0 <= i < all.len() ==> (#[trigger] all[i]).well_formed(),
            Outcome::NoMatch => false,
            Outcome::Fail(at, _) => pos <= at <= text.len(),
        },
    decreases left(text, pos), 3int,
{
    lemma_atom(text, pos);
    if let Outcome::Match(item, next) = atom(text, pos) {
        lemma_atoms(text, next, items.push(item));
    }
}

/// A sequence keeps to the text, always applies, and is well formed.
pub proof fn lemma_sequence(text: Seq<char>, pos: int)
    requires
        0 <= pos <= text.len(),
    ensures
        match sequence(text, pos) {
            Outcome::Match(tree, end) => pos <= end <= text.len() && tree.well_formed(),
            Outcome::NoMatch => false,
            Outcome::Fail(at, _) => pos <= at <= text.len(),
        },
    decreases left(text, pos), 4int,
{
    lemma_atoms(text, pos, Seq::empty());
}

/// A pattern is read whole or the text is malformed; the tree read is well
/// formed, and the failure lies inside the text or at its end.
pub proof fn lemma_pattern(text: Seq<char>)
    ensures
        match pattern(text) {
            Outcome::Match(tree, end) => end == text.len() && tree.well_formed(),
            Outcome::NoMatch => false,
            Outcome::Fail(at, _) => 0 <= at <= text.len(),
        },
{
    lemma_sequence(text, 0);
}

} // verus!
