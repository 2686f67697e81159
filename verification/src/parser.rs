//! The recursive-descent parser.
//!
//! One function per rule of [`crate::grammar`], each proved to return the
//! outcome that the grammar gives for the same text and position. The parser
//! reads a slice of characters and reports positions as indices into it;
//! [`Pattern::parse`] takes text and turns the index of a failure into a byte
//! offset.

use vstd::prelude::*;
use vstd::string::StringSliceAdditionalSpecFns;
use crate::chars::{byte_offset, collect, expand, lemma_byte_offset_bound, offset_of};
use crate::error::{ParseError, Rule};
use crate::grammar;
use crate::grammar::Outcome;
use crate::laws::lemma_pattern;
use crate::pattern::{lemma_sequence_view, shapes, Pattern, Shape, UNBOUNDED};

verus! {

/// What a parsing function returns: the executable form of an [`Outcome`].
#[derive(Debug, PartialEq, Eq)]
pub enum Step<T> {
    /// The rule matched: its value, and the index after what it read.
    Match(T, usize),
    /// The rule does not apply at this index.
    NoMatch,
    /// The text is malformed: at which index, and in which rule.
    Fail(usize, Rule),
}

impl<T: View> View for Step<T> {
    type V = Outcome<T::V>;

    open spec fn view(&self) -> Outcome<T::V> {
        match self {
            Step::Match(value, next) => Outcome::Match(value@, *next as int),
            Step::NoMatch => Outcome::NoMatch,
            Step::Fail(pos, rule) => Outcome::Fail(*pos as int, *rule),
        }
    }
}

impl<T> Step<T> {
    /// Whether a step that began at `pos` stayed inside `input`: a match
    /// consumed at least one character, and a failure points into the input or
    /// at its end.
    pub open spec fn within(self, input: Seq<char>, pos: int) -> bool {
        match self {
            Step::Match(_, next) => pos < next <= input.len(),
            Step::NoMatch => true,
            Step::Fail(at, _) => at <= input.len(),
        }
    }
}

/// A run of digits counts every digit up to the first character that is none.
pub proof fn lemma_digit_run(text: Seq<char>, pos: int, upto: int)
    requires
        0 <= pos <= upto <= text.len(),
        forall|k: int| pos <= k < upto ==> grammar::is_digit(#[trigger] text[k]),
    ensures
        grammar::digit_run(text, pos) == (upto - pos) + grammar::digit_run(text, upto),
    decreases upto - pos,
{
    if pos < upto {
        lemma_digit_run(text, pos + 1, upto);
    }
}

/// More digits never write a smaller number.
pub proof fn lemma_decimal_grows(text: Seq<char>, from: int, shorter: int, longer: int)
    requires
        from <= shorter <= longer,
    ensures
        grammar::decimal(text, from, shorter) <= grammar::decimal(text, from, longer),
    decreases longer - shorter,
{
    if shorter < longer {
        lemma_decimal_grows(text, from, shorter, longer - 1);
    }
}

/// Whether `c` is one of `0` to `9`.
pub fn digit(c: char) -> (r: bool)
    ensures
        r == grammar::is_digit(c),
{
    let v: u32 = c as u32;
    0x30 <= v && v <= 0x39
}

/// Reads the number at `pos`: the value of the longest run of digits and the
/// index after it, or `None` where no digit stands at `pos` or the value does
/// not fit in 64 bits.
pub fn number(input: &[char], pos: usize) -> (r: Option<(u64, usize)>)
    requires
        pos <= input.len(),
    ensures
        r matches Some((value, next)) ==> grammar::number(input@, pos as int) == Some(
            (value, next as int),
        ) && pos < next <= input.len(),
        r is None ==> grammar::number(input@, pos as int) is None,
{
    let mut value: u64 = 0;
    let mut i: usize = pos;
    while i < input.len() && digit(input[i])
        invariant
            pos <= i <= input.len(),
            forall|k: int| pos <= k < i ==> grammar::is_digit(#[trigger] input@[k]),
            value == grammar::decimal(input@, pos as int, i as int),
        decreases input.len() - i,
    {
        let d: u64 = (input[i] as u32 - 0x30) as u64;
        proof {
            lemma_digit_run(input@, pos as int, i + 1);
            lemma_decimal_grows(
                input@,
                pos as int,
                i + 1,
                pos + grammar::digit_run(input@, pos as int),
            );
        }
        if value > 1844674407370955161 {
            return None;
        }
        let tens: u64 = value * 10;
        if tens > u64::MAX - d {
            return None;
        }
        value = tens + d;
        i = i + 1;
    }
    proof {
        lemma_digit_run(input@, pos as int, i as int);
    }
    if i == pos {
        None
    } else {
        Some((value, i))
    }
}

/// The character at index `pos` of `input`.
pub fn peek(input: &[char], pos: usize) -> (c: char)
    requires
        pos < input.len(),
    ensures
        c == input@[pos as int],
{
    input[pos]
}

/// Whether `c` stands at index `pos` of `input`.
pub fn stands(input: &[char], pos: usize, c: char) -> (r: bool)
    ensures
        r == grammar::at(input@, pos as int, c),
{
    pos < input.len() && input[pos] == c
}

/// Reads the count in curly brackets that opens at `pos`.
pub fn braces(input: &[char], pos: usize) -> (r: Step<(u64, u64)>)
    requires
        pos < input.len(),
        input@[pos as int] == '{',
    ensures
        r@ == grammar::braces(input@, pos as int),
        r.within(input@, pos as int),
{
    match number(input, pos + 1) {
        None => Step::Fail(pos + 1, Rule::Quantifier),
        Some((min, after_min)) => {
            if stands(input, after_min, ',') {
                match number(input, after_min + 1) {
                    None => Step::Fail(after_min + 1, Rule::Quantifier),
                    Some((max, after_max)) => {
                        if !stands(input, after_max, '}') {
                            Step::Fail(after_max, Rule::Quantifier)
                        } else if min > max {
                            Step::Fail(pos, Rule::Quantifier)
                        } else {
                            Step::Match((min, max), after_max + 1)
                        }
                    },
                }
            } else if stands(input, after_min, '}') {
                Step::Match((min, min), after_min + 1)
            } else {
                Step::Fail(after_min, Rule::Quantifier)
            }
        },
    }
}

/// Reads a quantifier at `pos`: `?`, `*`, `+`, `{n}` or `{m,n}`.
pub fn quantifier(input: &[char], pos: usize) -> (r: Step<(u64, u64)>)
    requires
        pos <= input.len(),
    ensures
        r@ == grammar::quantifier(input@, pos as int),
        r.within(input@, pos as int),
{
    if stands(input, pos, '?') {
        Step::Match((0, 1), pos + 1)
    } else if stands(input, pos, '*') {
        Step::Match((0, UNBOUNDED), pos + 1)
    } else if stands(input, pos, '+') {
        Step::Match((1, UNBOUNDED), pos + 1)
    } else if stands(input, pos, '{') {
        braces(input, pos)
    } else {
        Step::NoMatch
    }
}

/// Whether `c` has a meaning of its own outside a class.
pub fn meta(c: char) -> (r: bool)
    ensures
        r == grammar::is_meta(c),
{
    c == '\\' || c == '(' || c == ')' || c == '[' || c == ']' || c == '{' || c == '}' || c == '|'
        || c == '?' || c == '*' || c == '+' || c == '.'
}

/// The characters that a backslash and `letter` stand for together, where
/// that is a set.
pub fn shorthand_set(letter: char) -> (r: Option<Vec<char>>)
    ensures
        r matches Some(set) ==> grammar::shorthand_set(letter) == Some(set@),
        r is None ==> grammar::shorthand_set(letter) is None,
{
    if letter == 'd' {
        Some(expand('0', '9'))
    } else if letter == 'w' {
        let mut set: Vec<char> = expand('a', 'z');
        let mut upper: Vec<char> = expand('A', 'Z');
        let mut digits: Vec<char> = expand('0', '9');
        set.append(&mut upper);
        set.append(&mut digits);
        set.push('_');
        assert(set@ =~= grammar::word());
        Some(set)
    } else if letter == 's' {
        let mut set: Vec<char> = Vec::new();
        set.push(' ');
        set.push('\t');
        set.push('\n');
        set.push('\r');
        assert(set@ =~= grammar::blanks());
        Some(set)
    } else {
        None
    }
}

/// Reads a shorthand at `pos`: `\d`, `\w` or `\s`.
pub fn shorthand(input: &[char], pos: usize) -> (r: Step<Vec<char>>)
    requires
        pos <= input.len(),
    ensures
        r@ == grammar::shorthand(input@, pos as int),
        r.within(input@, pos as int),
{
    if stands(input, pos, '\\') && pos + 1 < input.len() {
        match shorthand_set(peek(input, pos + 1)) {
            Some(set) => Step::Match(set, pos + 2),
            None => Step::NoMatch,
        }
    } else {
        Step::NoMatch
    }
}

/// The character that a backslash and `letter` stand for together, where that
/// is a single character.
pub fn escaped(letter: char) -> (r: Option<char>)
    ensures
        r == grammar::escaped(letter),
{
    if letter == 'n' {
        Some('\n')
    } else if letter == 't' {
        Some('\t')
    } else if letter == 'r' {
        Some('\r')
    } else if letter == 'd' || letter == 'w' || letter == 's' || letter == 'D' || letter == 'W'
        || letter == 'S' {
        None
    } else {
        Some(letter)
    }
}

/// Reads a literal at `pos`: an escaped or a plain character.
pub fn literal(input: &[char], pos: usize) -> (r: Step<Pattern>)
    requires
        pos <= input.len(),
    ensures
        r@ == grammar::literal(input@, pos as int),
        r.within(input@, pos as int),
{
    if stands(input, pos, '\\') {
        if pos + 1 >= input.len() {
            Step::Fail(pos, Rule::Literal)
        } else {
            let letter: char = peek(input, pos + 1);
            if letter == 'd' || letter == 'w' || letter == 's' {
                Step::NoMatch
            } else {
                match escaped(letter) {
                    Some(c) => Step::Match(Pattern::Literal(c), pos + 2),
                    None => Step::Fail(pos, Rule::Literal),
                }
            }
        }
    } else if pos < input.len() && !meta(input[pos]) {
        Step::Match(Pattern::Literal(peek(input, pos)), pos + 1)
    } else {
        Step::NoMatch
    }
}

/// Reads a range of characters at `pos`, inside a class.
pub fn range(input: &[char], pos: usize) -> (r: Step<Vec<char>>)
    requires
        pos <= input.len(),
    ensures
        r@ == grammar::range(input@, pos as int),
        r.within(input@, pos as int),
{
    if pos < input.len() && input[pos] != '\\' && input[pos] != ']' && stands(input, pos + 1, '-') {
        if pos + 2 >= input.len() {
            Step::Fail(pos + 2, Rule::Range)
        } else {
            let first: char = peek(input, pos);
            let last: char = peek(input, pos + 2);
            if last == ']' {
                Step::NoMatch
            } else if last == '\\' {
                Step::Fail(pos + 2, Rule::Range)
            } else if first as u32 > last as u32 {
                Step::Fail(pos, Rule::Range)
            } else {
                Step::Match(expand(first, last), pos + 3)
            }
        }
    } else {
        Step::NoMatch
    }
}

/// Reads one item of a class at `pos`: a shorthand, a range or a single
/// member.
pub fn class_item(input: &[char], pos: usize) -> (r: Step<Vec<char>>)
    requires
        pos <= input.len(),
    ensures
        r@ == grammar::class_item(input@, pos as int),
        r.within(input@, pos as int),
{
    match shorthand(input, pos) {
        Step::NoMatch => match range(input, pos) {
            Step::NoMatch => {
                if pos < input.len() && input[pos] != '-' && input[pos] != ']' {
                    let mut one: Vec<char> = Vec::new();
                    one.push(peek(input, pos));
                    assert(one@ =~= seq![input@[pos as int]]);
                    Step::Match(one, pos + 1)
                } else {
                    Step::NoMatch
                }
            },
            other => other,
        },
        other => other,
    }
}

/// Reads the members of a class from `pos` on: all that stands before the
/// closing bracket.
pub fn class_characters(input: &[char], pos: usize) -> (r: Step<Vec<char>>)
    requires
        pos <= input.len(),
    ensures
        r@ == grammar::class_characters(input@, pos as int),
        r matches Step::Match(_, next) ==> pos <= next <= input.len(),
        r matches Step::Fail(at, _) ==> at <= input.len(),
{
    let mut members: Vec<char> = Vec::new();
    let mut p: usize = pos;
    if stands(input, p, ']') {
        members.push(']');
        p = p + 1;
    }
    if stands(input, p, '-') {
        members.push('-');
        p = p + 1;
    }
    let ghost whole = grammar::class_items(input@, p as int, members@);
    loop
        invariant
            pos <= p <= input.len(),
            whole == grammar::class_items(input@, p as int, members@),
            grammar::class_characters(input@, pos as int) == grammar::class_tail(input@, whole),
        ensures
            pos <= p <= input.len(),
            whole == Outcome::Match(members@, p as int),
            grammar::class_characters(input@, pos as int) == grammar::class_tail(input@, whole),
        decreases input.len() - p,
    {
        match class_item(input, p) {
            Step::Match(mut more, next) => {
                members.append(&mut more);
                p = next;
            },
            Step::NoMatch => {
                break ;
            },
            Step::Fail(at, rule) => {
                return Step::Fail(at, rule);
            },
        }
    }
    if stands(input, p, '-') {
        members.push('-');
        p = p + 1;
    }
    Step::Match(members, p)
}

/// Parses a character class at `pos`.
pub fn class(input: &[char], pos: usize) -> (r: Step<Pattern>)
    requires
        pos <= input.len(),
    ensures
        r@ == grammar::class(input@, pos as int),
        r.within(input@, pos as int),
{
    if stands(input, pos, '[') {
        let inverted: bool = stands(input, pos + 1, '^');
        let start: usize = if inverted {
            pos + 2
        } else {
            pos + 1
        };
        match class_characters(input, start) {
            Step::Match(members, end) => {
                if !stands(input, end, ']') {
                    Step::Fail(end, Rule::Class)
                } else if inverted {
                    Step::Match(Pattern::InvertedClass(members), end + 1)
                } else {
                    Step::Match(Pattern::Class(members), end + 1)
                }
            },
            Step::NoMatch => Step::Fail(start, Rule::Class),
            Step::Fail(at, rule) => Step::Fail(at, rule),
        }
    } else {
        Step::NoMatch
    }
}

/// Reads a wildcard at `pos`.
pub fn wildcard(input: &[char], pos: usize) -> (r: Step<Pattern>)
    requires
        pos <= input.len(),
    ensures
        r@ == grammar::wildcard(input@, pos as int),
        r.within(input@, pos as int),
{
    if stands(input, pos, '.') {
        Step::Match(Pattern::Wildcard, pos + 1)
    } else {
        Step::NoMatch
    }
}

/// Reads a shorthand at `pos` as the class of its characters.
pub fn shorthand_class(input: &[char], pos: usize) -> (r: Step<Pattern>)
    requires
        pos <= input.len(),
    ensures
        r@ == grammar::shorthand_class(input@, pos as int),
        r.within(input@, pos as int),
{
    match shorthand(input, pos) {
        Step::Match(set, next) => Step::Match(Pattern::Class(set), next),
        Step::NoMatch => Step::NoMatch,
        Step::Fail(at, rule) => Step::Fail(at, rule),
    }
}

/// Parses a group at `pos`.
pub fn group(input: &[char], pos: usize) -> (r: Step<Pattern>)
    requires
        pos <= input.len(),
    ensures
        r@ == grammar::group(input@, pos as int),
        r.within(input@, pos as int),
    decreases input.len() - pos, 0int,
{
    if stands(input, pos, '(') {
        match sequence(input, pos + 1) {
            Step::Match(inner, end) => {
                if stands(input, end, ')') {
                    Step::Match(Pattern::Group(Box::new(inner)), end + 1)
                } else {
                    Step::Fail(end, Rule::Group)
                }
            },
            Step::NoMatch => Step::Fail(pos + 1, Rule::Group),
            Step::Fail(at, rule) => Step::Fail(at, rule),
        }
    } else {
        Step::NoMatch
    }
}

/// Parses a primary at `pos`: a group, a class, a wildcard, a shorthand or a
/// literal, whichever applies first.
pub fn primary(input: &[char], pos: usize) -> (r: Step<Pattern>)
    requires
        pos <= input.len(),
    ensures
        r@ == grammar::primary(input@, pos as int),
        r.within(input@, pos as int),
    decreases input.len() - pos, 1int,
{
    match group(input, pos) {
        Step::NoMatch => match class(input, pos) {
            Step::NoMatch => match wildcard(input, pos) {
                Step::NoMatch => match shorthand_class(input, pos) {
                    Step::NoMatch => literal(input, pos),
                    other => other,
                },
                other => other,
            },
            other => other,
        },
        other => other,
    }
}

/// Any singular element of a pattern but not a sequence: a primary, and the
/// quantifiers and alternatives that follow it.
pub fn atom(input: &[char], pos: usize) -> (r: Step<Pattern>)
    requires
        pos <= input.len(),
    ensures
        r@ == grammar::atom(input@, pos as int),
        r.within(input@, pos as int),
    decreases input.len() - pos, 2int,
{
    let (first, after) = match primary(input, pos) {
        Step::Match(first, after) => (first, after),
        Step::NoMatch => {
            return Step::NoMatch;
        },
        Step::Fail(at, rule) => {
            return Step::Fail(at, rule);
        },
    };
    let mut read: Pattern = first;
    let mut p: usize = after;
    let ghost whole = grammar::atom(input@, pos as int);
    loop
        invariant
            pos < p <= input.len(),
            whole == grammar::atom(input@, pos as int),
            whole == grammar::suffixes(input@, read@, p as int),
        ensures
            pos < p <= input.len(),
            whole == grammar::atom(input@, pos as int),
            whole == Outcome::Match(read@, p as int),
        decreases input.len() - p,
    {
        if stands(input, p, '|') {
            match atom(input, p + 1) {
                Step::Match(other, next) => {
                    read = Pattern::Or(Box::new(read), Box::new(other));
                    p = next;
                },
                Step::NoMatch => {
                    return Step::Fail(p + 1, Rule::Atom);
                },
                Step::Fail(at, rule) => {
                    return Step::Fail(at, rule);
                },
            }
        } else {
            match quantifier(input, p) {
                Step::Match((min, max), next) => {
                    read = Pattern::Quantification { pattern: Box::new(read), min, max };
                    p = next;
                },
                Step::NoMatch => {
                    break ;
                },
                Step::Fail(at, rule) => {
                    return Step::Fail(at, rule);
                },
            }
        }
    }
    Step::Match(read, p)
}

/// Parses a sequence from `pos` on: atoms until none applies.
pub fn sequence(input: &[char], pos: usize) -> (r: Step<Pattern>)
    requires
        pos <= input.len(),
    ensures
        r@ == grammar::sequence(input@, pos as int),
        r matches Step::Match(_, next) ==> pos <= next <= input.len(),
        r matches Step::Fail(at, _) ==> at <= input.len(),
        !(r is NoMatch),
    decreases input.len() - pos, 4int,
{
    let mut items: Vec<Pattern> = Vec::new();
    let mut p: usize = pos;
    let ghost whole = grammar::atoms(input@, pos as int, Seq::empty());
    proof {
        assert(shapes(items@) =~= Seq::<Shape>::empty());
    }
    loop
        invariant
            pos <= p <= input.len(),
            whole == grammar::atoms(input@, pos as int, Seq::empty()),
            whole == grammar::atoms(input@, p as int, shapes(items@)),
        ensures
            pos <= p <= input.len(),
            whole == grammar::atoms(input@, pos as int, Seq::empty()),
            whole == Outcome::Match(shapes(items@), p as int),
        decreases input.len() - p,
    {
        match atom(input, p) {
            Step::Match(item, next) => {
                proof {
                    assert(shapes(items@.push(item)) =~= shapes(items@).push(item@));
                }
                items.push(item);
                p = next;
            },
            Step::NoMatch => {
                break ;
            },
            Step::Fail(at, rule) => {
                return Step::Fail(at, rule);
            },
        }
    }
    proof {
        lemma_sequence_view(items);
    }
    Step::Match(Pattern::Sequence(items), p)
}

/// Parses a whole pattern: a sequence that takes all of `input`.
pub fn pattern(input: &[char]) -> (r: Step<Pattern>)
    ensures
        r@ == grammar::pattern(input@),
        r matches Step::Match(_, next) ==> next == input.len(),
        r matches Step::Fail(at, _) ==> at <= input.len(),
        !(r is NoMatch),
{
    match sequence(input, 0) {
        Step::Match(tree, end) => {
            if end == input.len() {
                Step::Match(tree, end)
            } else {
                Step::Fail(end, Rule::Pattern)
            }
        },
        Step::NoMatch => Step::NoMatch,
        Step::Fail(at, rule) => Step::Fail(at, rule),
    }
}

/// What parsing `text` gives: the tree that the grammar reads from it, or the
/// error with the byte offset and the rule at which the grammar stops.
pub open spec fn parse_outcome(text: Seq<char>) -> Result<Shape, ParseError> {
    match grammar::pattern(text) {
        Outcome::Match(tree, _) => Ok(tree),
        Outcome::Fail(pos, rule) => Err(
            ParseError { offset: byte_offset(text, pos) as usize, rule },
        ),
        Outcome::NoMatch => Err(ParseError { offset: 0, rule: Rule::Pattern }),
    }
}

/// Whether `result` is what parsing `text` gives: a tree of the shape that the
/// grammar reads, or the grammar's error.
pub open spec fn parses_to(text: Seq<char>, result: Result<Pattern, ParseError>) -> bool {
    match parse_outcome(text) {
        Ok(tree) => result matches Ok(p) && p@ == tree,
        Err(e) => result matches Err(f) && f == e,
    }
}

/// Parsing is a function of the text: two results of parsing one text are
/// trees of the same shape, or the same error.
pub proof fn lemma_parse_deterministic(
    text: Seq<char>,
    first: Result<Pattern, ParseError>,
    second: Result<Pattern, ParseError>,
)
    requires
        parses_to(text, first),
        parses_to(text, second),
    ensures
        first is Ok <==> second is Ok,
        first is Ok ==> first->Ok_0@ == second->Ok_0@,
        first is Err ==> first->Err_0 == second->Err_0,
{
}

/// A parsed tree is well formed, and a text is never left unread without an
/// error: the grammar's outcome for a whole pattern is a tree or a failure.
pub proof fn lemma_parse_well_formed(text: Seq<char>, result: Result<Pattern, ParseError>)
    requires
        parses_to(text, result),
    ensures
        result matches Ok(tree) ==> tree@.well_formed(),
        !(grammar::pattern(text) is NoMatch),
{
    lemma_pattern(text);
}

impl Pattern {
    /// Parses a pattern: reads all of `input` as the grammar says, and gives
    /// the tree, or the byte offset and the rule at which `input` is
    /// malformed.
    pub fn parse(input: &str) -> (result: Result<Pattern, ParseError>)
        ensures
            parses_to(input@, result),
            result matches Ok(tree) ==> tree@.well_formed(),
            result matches Err(e) ==> e.offset <= input.spec_bytes().len(),
    {
        proof {
            lemma_pattern(input@);
        }
        let chars: Vec<char> = collect(input);
        let bytes: &[u8] = input.as_bytes();
        assert(vstd::utf8::encode_utf8(chars@).len() <= usize::MAX) by {
            assert(bytes@.len() == bytes.len());
        }
        match pattern(chars.as_slice()) {
            Step::Match(tree, _) => Ok(tree),
            Step::NoMatch => vstd::pervasive::unreached(),
            Step::Fail(at, rule) => {
                proof {
                    lemma_byte_offset_bound(chars@, at as int);
                }
                Err(ParseError { offset: offset_of(chars.as_slice(), at), rule })
            },
        }
    }
}

} // verus!
