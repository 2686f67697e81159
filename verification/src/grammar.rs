//! The pattern language, rule by rule.
//!
//! ```text
//! pattern    = sequence END
//! sequence   = atom*
//! atom       = primary (quantifier | '|' atom)*
//! primary    = group | class | '.' | shorthand | literal
//! group      = '(' sequence ')'
//! class      = '[' '^'? members ']'
//! members    = ']'? '-'? (shorthand | range | single)* '-'?
//! range      = first '-' last
//! single     = any character but '-' and ']'
//! shorthand  = '\d' | '\w' | '\s'
//! literal    = '\' character | plain character
//! quantifier = '?' | '*' | '+' | '{' number '}' | '{' number ',' number '}'
//! ```
//!
//! Each rule is a function from a text and a position in it to an
//! [`Outcome`]: the rule matches and stops at a later position, it does not
//! apply here, or the text is malformed. The first alternative that matches
//! wins, and a malformed text is never read another way.
//!
//! Policies that the grammar fixes:
//!
//! * `\n`, `\t` and `\r` stand for newline, tab and carriage return; `\d`,
//!   `\w` and `\s` stand for the digits, the word characters and the blanks;
//!   `\D`, `\W` and `\S` are reserved and malformed; a backslash before any
//!   other character stands for that character.
//! * Inside a class a backslash is special only before `d`, `w` and `s`.
//!   Elsewhere in a class it is an ordinary member, though not the end of a
//!   range.
//! * `]` is a member where it comes first in a class, and `-` where it comes
//!   first or last. A `-` between two members makes a range, which is
//!   malformed when its ends are out of order.
//! * Members are kept in the order written, and one written twice is kept
//!   twice.
//! * `{m,n}` with `m > n` is malformed, and so is a count above `u64::MAX`.

use vstd::prelude::*;
use crate::chars::span;
use crate::error::Rule;
use crate::pattern::{Shape, UNBOUNDED};

verus! {

/// What reading a rule at a position gives.
pub enum Outcome<T> {
    /// The rule matched: its value, and the position after what it read.
    Match(T, int),
    /// The rule does not apply at this position.
    NoMatch,
    /// The text is malformed: where, and in which rule.
    Fail(int, Rule),
}

/// The first outcome unless its rule did not apply, else the second.
pub open spec fn or_else<T>(first: Outcome<T>, second: Outcome<T>) -> Outcome<T> {
    if first is NoMatch {
        second
    } else {
        first
    }
}

/// Whether the character `c` stands at `pos`.
pub open spec fn at(text: Seq<char>, pos: int, c: char) -> bool {
    0 <= pos < text.len() && text[pos] == c
}

/// How many characters are left from `pos` on.
pub open spec fn left(text: Seq<char>, pos: int) -> nat {
    if 0 <= pos <= text.len() {
        (text.len() - pos) as nat
    } else {
        0
    }
}

/// Whether reading from `pos` to `next` consumed at least one character of
/// the text.
pub open spec fn advances(text: Seq<char>, pos: int, next: int) -> bool {
    0 <= pos < next <= text.len()
}

/// Whether `c` is one of `0` to `9`.
pub open spec fn is_digit(c: char) -> bool {
    0x30 <= c as u32 <= 0x39
}

/// How many digits stand in a row from `pos` on.
pub open spec fn digit_run(text: Seq<char>, pos: int) -> nat
    decreases left(text, pos),
{
    if 0 <= pos < text.len() && is_digit(text[pos]) {
        1 + digit_run(text, pos + 1)
    } else {
        0
    }
}

/// The number that the digits from `from` up to `to` write in base ten.
pub open spec fn decimal(text: Seq<char>, from: int, to: int) -> nat
    decreases to - from,
{
    if to <= from {
        0
    } else {
        decimal(text, from, to - 1) * 10 + (text[to - 1] as u32 - 0x30) as nat
    }
}

/// A number: the longest run of digits at `pos`, with its value, where the run
/// is not empty and the value fits in 64 bits.
pub open spec fn number(text: Seq<char>, pos: int) -> Option<(u64, int)> {
    let run = digit_run(text, pos);
    let value = decimal(text, pos, pos + run);
    if run == 0 || value > u64::MAX {
        None
    } else {
        Some((value as u64, pos + run))
    }
}

/// The count in curly brackets that opens at `pos`: `{n}` or `{m,n}`.
pub open spec fn braces(text: Seq<char>, pos: int) -> Outcome<(u64, u64)> {
    match number(text, pos + 1) {
        None => Outcome::Fail(pos + 1, Rule::Quantifier),
        Some((min, after_min)) => {
            if at(text, after_min, ',') {
                match number(text, after_min + 1) {
                    None => Outcome::Fail(after_min + 1, Rule::Quantifier),
                    Some((max, after_max)) => {
                        if !at(text, after_max, '}') {
                            Outcome::Fail(after_max, Rule::Quantifier)
                        } else if min > max {
                            Outcome::Fail(pos, Rule::Quantifier)
                        } else {
                            Outcome::Match((min, max), after_max + 1)
                        }
                    },
                }
            } else if at(text, after_min, '}') {
                Outcome::Match((min, min), after_min + 1)
            } else {
                Outcome::Fail(after_min, Rule::Quantifier)
            }
        },
    }
}

/// A quantifier: the least and the greatest number of repetitions.
pub open spec fn quantifier(text: Seq<char>, pos: int) -> Outcome<(u64, u64)> {
    if at(text, pos, '?') {
        Outcome::Match((0, 1), pos + 1)
    } else if at(text, pos, '*') {
        Outcome::Match((0, UNBOUNDED), pos + 1)
    } else if at(text, pos, '+') {
        Outcome::Match((1, UNBOUNDED), pos + 1)
    } else if at(text, pos, '{') {
        braces(text, pos)
    } else {
        Outcome::NoMatch
    }
}

/// Whether `c` has a meaning of its own outside a class.
pub open spec fn is_meta(c: char) -> bool {
    c == '\\' || c == '(' || c == ')' || c == '[' || c == ']' || c == '{' || c == '}' || c == '|'
        || c == '?' || c == '*' || c == '+' || c == '.'
}

/// The digits `0` to `9`.
pub open spec fn digits() -> Seq<char> {
    span('0', '9')
}

/// The word characters: `a` to `z`, `A` to `Z`, `0` to `9` and `_`.
pub open spec fn word() -> Seq<char> {
    span('a', 'z') + span('A', 'Z') + span('0', '9') + seq!['_']
}

/// The blanks: space, tab, newline and carriage return.
pub open spec fn blanks() -> Seq<char> {
    seq![' ', '\t', '\n', '\r']
}

/// The characters that a backslash and `letter` stand for together, where
/// that is a set.
pub open spec fn shorthand_set(letter: char) -> Option<Seq<char>> {
    if letter == 'd' {
        Some(digits())
    } else if letter == 'w' {
        Some(word())
    } else if letter == 's' {
        Some(blanks())
    } else {
        None
    }
}

/// A shorthand: `\d`, `\w` or `\s`, with the characters it stands for.
pub open spec fn shorthand(text: Seq<char>, pos: int) -> Outcome<Seq<char>> {
    if at(text, pos, '\\') && pos + 1 < text.len() {
        match shorthand_set(text[pos + 1]) {
            Some(set) => Outcome::Match(set, pos + 2),
            None => Outcome::NoMatch,
        }
    } else {
        Outcome::NoMatch
    }
}

/// The character that a backslash and `letter` stand for together, where that
/// is a single character.
pub open spec fn escaped(letter: char) -> Option<char> {
    if letter == 'n' {
        Some('\n')
    } else if letter == 't' {
        Some('\t')
    } else if letter == 'r' {
        Some('\r')
    } else if letter == 'd' || letter == 'w' || letter == 's' || letter == 'D' || letter == 'W'
        || letter == 'S' {
        None
    } else {
        Some(letter)
    }
}

/// A literal: an escaped character, or a plain one that is no metacharacter.
/// A backslash that ends the text, or that stands before a reserved letter,
/// is malformed.
pub open spec fn literal(text: Seq<char>, pos: int) -> Outcome<Shape> {
    if at(text, pos, '\\') {
        if pos + 1 >= text.len() {
            Outcome::Fail(pos, Rule::Literal)
        } else if shorthand_set(text[pos + 1]) is Some {
            Outcome::NoMatch
        } else {
            match escaped(text[pos + 1]) {
                Some(c) => Outcome::Match(Shape::Literal(c), pos + 2),
                None => Outcome::Fail(pos, Rule::Literal),
            }
        }
    } else if 0 <= pos < text.len() && !is_meta(text[pos]) {
        Outcome::Match(Shape::Literal(text[pos]), pos + 1)
    } else {
        Outcome::NoMatch
    }
}

/// A range inside a class: a character, `-`, and a character that is not
/// below the first. A `-` before the closing bracket makes no range. A range
/// that the text or a backslash cuts short, or whose ends are out of order,
/// is malformed.
pub open spec fn range(text: Seq<char>, pos: int) -> Outcome<Seq<char>> {
    if 0 <= pos < text.len() && text[pos] != '\\' && text[pos] != ']' && at(text, pos + 1, '-') {
        if pos + 2 >= text.len() {
            Outcome::Fail(pos + 2, Rule::Range)
        } else if text[pos + 2] == ']' {
            Outcome::NoMatch
        } else if text[pos + 2] == '\\' {
            Outcome::Fail(pos + 2, Rule::Range)
        } else if text[pos] as u32 > text[pos + 2] as u32 {
            Outcome::Fail(pos, Rule::Range)
        } else {
            Outcome::Match(span(text[pos], text[pos + 2]), pos + 3)
        }
    } else {
        Outcome::NoMatch
    }
}

/// A single member of a class: any character but `-` and `]`.
pub open spec fn single(text: Seq<char>, pos: int) -> Outcome<Seq<char>> {
    if 0 <= pos < text.len() && text[pos] != '-' && text[pos] != ']' {
        Outcome::Match(seq![text[pos]], pos + 1)
    } else {
        Outcome::NoMatch
    }
}

/// One item of a class: a shorthand, a range or a single member, with the
/// characters it adds.
pub open spec fn class_item(text: Seq<char>, pos: int) -> Outcome<Seq<char>> {
    or_else(shorthand(text, pos), or_else(range(text, pos), single(text, pos)))
}

/// The items of a class from `pos` on, added to `members` until none applies.
pub open spec fn class_items(text: Seq<char>, pos: int, members: Seq<char>) -> Outcome<Seq<char>>
    decreases left(text, pos),
{
    match class_item(text, pos) {
        Outcome::Match(more, next) => {
            if advances(text, pos, next) {
                class_items(text, next, members + more)
            } else {
                Outcome::NoMatch
            }
        },
        Outcome::NoMatch => Outcome::Match(members, pos),
        Outcome::Fail(p, rule) => Outcome::Fail(p, rule),
    }
}

/// `members` with `c` added, and the position after it, where `c` stands at
/// `pos`; else both unchanged.
pub open spec fn take(text: Seq<char>, pos: int, c: char, members: Seq<char>) -> (Seq<char>, int) {
    if at(text, pos, c) {
        (members.push(c), pos + 1)
    } else {
        (members, pos)
    }
}

/// The members of a class once its items are read: a `-` that follows them
/// is the last member.
pub open spec fn class_tail(text: Seq<char>, items: Outcome<Seq<char>>) -> Outcome<Seq<char>> {
    match items {
        Outcome::Match(members, pos) => {
            let (all, end) = take(text, pos, '-', members);
            Outcome::Match(all, end)
        },
        Outcome::NoMatch => Outcome::NoMatch,
        Outcome::Fail(p, rule) => Outcome::Fail(p, rule),
    }
}

/// The members of a class: a `]` and a `-` where they come first, the items,
/// and a `-` where it comes last.
pub open spec fn class_characters(text: Seq<char>, pos: int) -> Outcome<Seq<char>> {
    let (bracket, after_bracket) = take(text, pos, ']', Seq::empty());
    let (dash, after_dash) = take(text, after_bracket, '-', bracket);
    class_tail(text, class_items(text, after_dash, dash))
}

/// A class: its members in square brackets, inverted where `^` comes first.
/// After the opening bracket anything but members and a closing bracket is
/// malformed.
pub open spec fn class(text: Seq<char>, pos: int) -> Outcome<Shape> {
    if at(text, pos, '[') {
        let inverted = at(text, pos + 1, '^');
        let start = if inverted {
            pos + 2
        } else {
            pos + 1
        };
        match class_characters(text, start) {
            Outcome::Match(members, end) => {
                if !at(text, end, ']') {
                    Outcome::Fail(end, Rule::Class)
                } else if inverted {
                    Outcome::Match(Shape::InvertedClass(members), end + 1)
                } else {
                    Outcome::Match(Shape::Class(members), end + 1)
                }
            },
            Outcome::NoMatch => Outcome::Fail(start, Rule::Class),
            Outcome::Fail(p, rule) => Outcome::Fail(p, rule),
        }
    } else {
        Outcome::NoMatch
    }
}

/// A wildcard: `.`.
pub open spec fn wildcard(text: Seq<char>, pos: int) -> Outcome<Shape> {
    if at(text, pos, '.') {
        Outcome::Match(Shape::Wildcard, pos + 1)
    } else {
        Outcome::NoMatch
    }
}

/// A shorthand outside a class: the class of the characters it stands for.
pub open spec fn shorthand_class(text: Seq<char>, pos: int) -> Outcome<Shape> {
    match shorthand(text, pos) {
        Outcome::Match(set, next) => Outcome::Match(Shape::Class(set), next),
        Outcome::NoMatch => Outcome::NoMatch,
        Outcome::Fail(p, rule) => Outcome::Fail(p, rule),
    }
}

/// A group: a sequence in round brackets. After the opening bracket anything
/// but a sequence and a closing bracket is malformed.
pub open spec fn group(text: Seq<char>, pos: int) -> Outcome<Shape>
    decreases left(text, pos), 0int,
{
    if at(text, pos, '(') {
        match sequence(text, pos + 1) {
            Outcome::Match(inner, end) => {
                if at(text, end, ')') {
                    Outcome::Match(Shape::Group(Box::new(inner)), end + 1)
                } else {
                    Outcome::Fail(end, Rule::Group)
                }
            },
            Outcome::NoMatch => Outcome::Fail(pos + 1, Rule::Group),
            Outcome::Fail(p, rule) => Outcome::Fail(p, rule),
        }
    } else {
        Outcome::NoMatch
    }
}

/// A primary: the first of group, class, wildcard, shorthand and literal that
/// applies.
pub open spec fn primary(text: Seq<char>, pos: int) -> Outcome<Shape>
    decreases left(text, pos), 1int,
{
    or_else(
        group(text, pos),
        or_else(
            class(text, pos),
            or_else(wildcard(text, pos), or_else(shorthand_class(text, pos), literal(text, pos))),
        ),
    )
}

/// What follows a primary: each quantifier wraps what was read so far, and
/// each `|` pairs it with the whole atom behind the bar, so that `a|b|c` reads
/// as `a` or (`b` or `c`). A `|` with no atom behind it is malformed.
pub open spec fn suffixes(text: Seq<char>, read: Shape, pos: int) -> Outcome<Shape>
    decreases left(text, pos), 3int,
{
    if at(text, pos, '|') {
        match atom(text, pos + 1) {
            Outcome::Match(other, next) => {
                if advances(text, pos, next) {
                    suffixes(text, Shape::Or(Box::new(read), Box::new(other)), next)
                } else {
                    Outcome::NoMatch
                }
            },
            Outcome::NoMatch => Outcome::Fail(pos + 1, Rule::Atom),
            Outcome::Fail(p, rule) => Outcome::Fail(p, rule),
        }
    } else {
        match quantifier(text, pos) {
            Outcome::Match((min, max), next) => {
                if advances(text, pos, next) {
                    suffixes(
                        text,
                        Shape::Quantification { pattern: Box::new(read), min, max },
                        next,
                    )
                } else {
                    Outcome::NoMatch
                }
            },
            Outcome::NoMatch => Outcome::Match(read, pos),
            Outcome::Fail(p, rule) => Outcome::Fail(p, rule),
        }
    }
}

/// An atom: a primary with all that follows it.
pub open spec fn atom(text: Seq<char>, pos: int) -> Outcome<Shape>
    decreases left(text, pos), 2int,
{
    match primary(text, pos) {
        Outcome::Match(first, next) => {
            if advances(text, pos, next) {
                suffixes(text, first, next)
            } else {
                Outcome::NoMatch
            }
        },
        Outcome::NoMatch => Outcome::NoMatch,
        Outcome::Fail(p, rule) => Outcome::Fail(p, rule),
    }
}

/// The atoms from `pos` on, added to `items` until none applies.
pub open spec fn atoms(text: Seq<char>, pos: int, items: Seq<Shape>) -> Outcome<Seq<Shape>>
    decreases left(text, pos), 3int,
{
    match atom(text, pos) {
        Outcome::Match(item, next) => {
            if advances(text, pos, next) {
                atoms(text, next, items.push(item))
            } else {
                Outcome::NoMatch
            }
        },
        Outcome::NoMatch => Outcome::Match(items, pos),
        Outcome::Fail(p, rule) => Outcome::Fail(p, rule),
    }
}

/// A sequence: as many atoms as there are, possibly none.
pub open spec fn sequence(text: Seq<char>, pos: int) -> Outcome<Shape>
    decreases left(text, pos), 4int,
{
    match atoms(text, pos, Seq::empty()) {
        Outcome::Match(items, end) => Outcome::Match(Shape::Sequence(items), end),
        Outcome::NoMatch => Outcome::NoMatch,
        Outcome::Fail(p, rule) => Outcome::Fail(p, rule),
    }
}

/// A pattern: a sequence that reaches the end of the text. Anything left over
/// is malformed.
pub open spec fn pattern(text: Seq<char>) -> Outcome<Shape> {
    match sequence(text, 0) {
        Outcome::Match(tree, end) => {
            if end == text.len() {
                Outcome::Match(tree, end)
            } else {
                Outcome::Fail(end, Rule::Pattern)
            }
        },
        Outcome::NoMatch => Outcome::NoMatch,
        Outcome::Fail(p, rule) => Outcome::Fail(p, rule),
    }
}

} // verus!
