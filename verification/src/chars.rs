//! Characters as the pattern language sees them: Unicode scalar values in code
//! point order, inclusive ranges of them, decimal digits, and the UTF-8 offsets
//! that errors are reported at.

use vstd::prelude::*;
use vstd::utf8::encode_utf8;

verus! {

/// How many Unicode scalar values there are: the code points up to `0x10FFFF`
/// without the 2048 surrogates.
pub const SCALAR_COUNT: u32 = 0x10F800;

/// Position of `c` among all scalar values in code point order, counted from 0.
pub open spec fn ordinal(c: char) -> int {
    if c as u32 <= 0xD7FF {
        c as int
    } else {
        c as int - 0x800
    }
}

/// The scalar value at position `i` in code point order.
pub open spec fn scalar_at(i: int) -> char {
    if i <= 0xD7FF {
        i as char
    } else {
        (i + 0x800) as char
    }
}

/// Every character of the inclusive range from `first` to `last`, in code point
/// order. The range is empty when `first` comes after `last`.
pub open spec fn span(first: char, last: char) -> Seq<char> {
    if first as u32 <= last as u32 {
        Seq::new((ordinal(last) - ordinal(first) + 1) as nat, |k: int| scalar_at(ordinal(first) + k))
    } else {
        Seq::empty()
    }
}

/// `char::from_u32` gives back the character whose code point is `v`, and
/// `None` exactly when `v` is a surrogate or lies above `0x10FFFF`.
pub assume_specification[ char::from_u32 ](v: u32) -> (r: Option<char>)
    ensures
        r is Some <==> (v <= 0xD7FF || 0xE000 <= v <= 0x10FFFF),
        r matches Some(c) ==> c as u32 == v,
;

/// `ordinal` and `scalar_at` undo each other, and `ordinal` keeps the order of
/// the code points.
pub proof fn lemma_ordinal_scalar(c: char, d: char)
    ensures
        0 <= ordinal(c) < SCALAR_COUNT,
        scalar_at(ordinal(c)) == c,
        (c as u32 <= d as u32) <==> ordinal(c) <= ordinal(d),
        c == d <==> ordinal(c) == ordinal(d),
{
    broadcast use vstd::utf8::char_u32_cast;

    let u: u32 = c as u32;
    assert(u as char == c);
    let v: u32 = d as u32;
    assert(v as char == d);
}

/// Going from a position to its scalar value and back gives the position.
pub proof fn lemma_scalar_ordinal(i: int)
    requires
        0 <= i < SCALAR_COUNT,
    ensures
        ordinal(scalar_at(i)) == i,
{
}

/// A range holds exactly the characters between its two ends.
pub proof fn lemma_span_contains(first: char, last: char, c: char)
    ensures
        span(first, last).contains(c) <==> (first as u32 <= c as u32 && c as u32 <= last as u32),
{
    lemma_ordinal_scalar(first, c);
    lemma_ordinal_scalar(c, last);
    lemma_ordinal_scalar(first, last);
    let s = span(first, last);
    if s.contains(c) {
        let k = choose|k: int| 0 <= k < s.len() && s[k] == c;
        lemma_scalar_ordinal(ordinal(first) + k);
    }
    if first as u32 <= c as u32 && c as u32 <= last as u32 {
        let k = ordinal(c) - ordinal(first);
        assert(s[k] == c);
    }
}

/// A range whose ends are in order is never empty: it starts with its first
/// end and stops with its last.
pub proof fn lemma_span_ends(first: char, last: char)
    requires
        first as u32 <= last as u32,
    ensures
        span(first, last).len() == ordinal(last) - ordinal(first) + 1,
        span(first, last).len() >= 1,
        span(first, last).first() == first,
        span(first, last).last() == last,
{
    lemma_ordinal_scalar(first, last);
    lemma_ordinal_scalar(last, first);
}

/// Position of `c` among all scalar values.
pub fn ordinal_of(c: char) -> (i: u32)
    ensures
        i == ordinal(c),
        i < SCALAR_COUNT,
{
    let v: u32 = c as u32;
    if v <= 0xD7FF {
        v
    } else {
        v - 0x800
    }
}

/// The scalar value at position `i`.
pub fn scalar(i: u32) -> (c: char)
    requires
        i < SCALAR_COUNT,
    ensures
        c == scalar_at(i as int),
{
    let code: u32 = if i <= 0xD7FF {
        i
    } else {
        i + 0x800
    };
    match char::from_u32(code) {
        Some(c) => {
            proof {
                vstd::utf8::char_u32_cast(c, code);
            }
            c
        },
        None => vstd::pervasive::unreached(),
    }
}

/// Lists the characters from `first` to `last` inclusive, in code point order.
pub fn expand(first: char, last: char) -> (v: Vec<char>)
    requires
        first as u32 <= last as u32,
    ensures
        v@ == span(first, last),
{
    let lo: u32 = ordinal_of(first);
    let hi: u32 = ordinal_of(last);
    proof {
        lemma_ordinal_scalar(first, last);
    }
    let mut v: Vec<char> = Vec::new();
    let mut i: u32 = lo;
    while i <= hi
        invariant
            lo <= i <= hi + 1,
            hi < SCALAR_COUNT,
            lo == ordinal(first),
            hi == ordinal(last),
            v@ == Seq::new((i - lo) as nat, |k: int| scalar_at(lo + k)),
        decreases hi + 1 - i,
    {
        let c: char = scalar(i);
        v.push(c);
        i = i + 1;
        assert(v@ =~= Seq::new((i - lo) as nat, |k: int| scalar_at(lo + k)));
    }
    assert(v@ =~= span(first, last));
    v
}

/// Whether `c` occurs in `set`.
pub fn contains(set: &[char], c: char) -> (found: bool)
    ensures
        found == set@.contains(c),
{
    let mut i: usize = 0;
    while i < set.len()
        invariant
            i <= set.len(),
            forall|k: int| 0 <= k < i ==> set@[k] != c,
        decreases set.len() - i,
    {
        if set[i] == c {
            return true;
        }
        i = i + 1;
    }
    false
}

/// The first character in code point order that does not occur in `set`, or
/// `None` where every character occurs in it.
pub fn first_outside(set: &[char]) -> (found: Option<char>)
    ensures
        found matches Some(c) ==> !set@.contains(c) && forall|d: char|
            0 <= ordinal(d) < ordinal(c) ==> set@.contains(d),
        found is None ==> forall|d: char| set@.contains(d),
{
    let mut i: u32 = 0;
    while i < SCALAR_COUNT
        invariant
            i <= SCALAR_COUNT,
            forall|d: char| 0 <= ordinal(d) < i ==> set@.contains(d),
        decreases SCALAR_COUNT - i,
    {
        let c: char = scalar(i);
        proof {
            lemma_scalar_ordinal(i as int);
        }
        if !contains(set, c) {
            return Some(c);
        }
        assert forall|d: char| 0 <= ordinal(d) < i + 1 implies set@.contains(d) by {
            lemma_ordinal_scalar(d, d);
        }
        i = i + 1;
    }
    assert forall|d: char| set@.contains(d) by {
        lemma_ordinal_scalar(d, d);
    }
    None
}

/// How many of the first `bound` scalar values do not occur in `set`.
pub open spec fn outside_below(set: Seq<char>, bound: int) -> nat
    decreases bound,
{
    if bound <= 0 {
        0
    } else if set.contains(scalar_at(bound - 1)) {
        outside_below(set, bound - 1)
    } else {
        outside_below(set, bound - 1) + 1
    }
}

/// Counting further never counts fewer, and never more than one for each
/// scalar value.
pub proof fn lemma_outside_below_grows(set: Seq<char>, lower: int, upper: int)
    requires
        0 <= lower <= upper,
    ensures
        outside_below(set, lower) <= outside_below(set, upper) <= outside_below(set, lower) + (
        upper - lower),
    decreases upper - lower,
{
    if lower < upper {
        lemma_outside_below_grows(set, lower, upper - 1);
    }
}

/// A character outside `set` is counted.
pub proof fn lemma_outside_counted(set: Seq<char>, c: char)
    requires
        !set.contains(c),
    ensures
        outside_below(set, SCALAR_COUNT as int) > 0,
{
    lemma_ordinal_scalar(c, c);
    lemma_outside_below_grows(set, ordinal(c) + 1, SCALAR_COUNT as int);
}

/// How many characters do not occur in `set`.
pub fn count_outside(set: &[char]) -> (n: u32)
    ensures
        n == outside_below(set@, SCALAR_COUNT as int),
{
    let mut n: u32 = 0;
    let mut i: u32 = 0;
    while i < SCALAR_COUNT
        invariant
            i <= SCALAR_COUNT,
            n == outside_below(set@, i as int),
            n <= i,
        decreases SCALAR_COUNT - i,
    {
        if !contains(set, scalar(i)) {
            n = n + 1;
        }
        i = i + 1;
    }
    n
}

/// The character outside `set` that has `n` characters outside `set` before
/// it in code point order.
pub fn nth_outside(set: &[char], n: u32) -> (c: char)
    requires
        n < outside_below(set@, SCALAR_COUNT as int),
    ensures
        !set@.contains(c),
        outside_below(set@, ordinal(c)) == n,
{
    let mut seen: u32 = 0;
    let mut i: u32 = 0;
    while i < SCALAR_COUNT
        invariant
            i <= SCALAR_COUNT,
            seen == outside_below(set@, i as int),
            seen <= n,
            n < outside_below(set@, SCALAR_COUNT as int),
        decreases SCALAR_COUNT - i,
    {
        let c: char = scalar(i);
        if !contains(set, c) {
            if seen == n {
                proof {
                    lemma_scalar_ordinal(i as int);
                }
                return c;
            }
            seen = seen + 1;
        }
        i = i + 1;
    }
    vstd::pervasive::unreached()
}

/// The characters of `text`, one element each.
pub fn collect(text: &str) -> (v: Vec<char>)
    ensures
        v@ == text@,
{
    let mut v: Vec<char> = Vec::new();
    for c in it: text.chars()
        invariant
            it.seq() == text@,
            v@ == it.seq().take(it.index() as int),
    {
        v.push(c);
    }
    v
}

/// Number of bytes that `c` takes in UTF-8.
pub open spec fn utf8_width(c: char) -> nat {
    if c as u32 <= 0x7F {
        1
    } else if c as u32 <= 0x7FF {
        2
    } else if c as u32 <= 0xFFFF {
        3
    } else {
        4
    }
}

/// Where the character at index `pos` starts in the UTF-8 encoding of `text`:
/// the number of bytes that the characters before it take.
pub open spec fn byte_offset(text: Seq<char>, pos: int) -> nat {
    encode_utf8(text.take(pos)).len()
}

/// Appending one character lengthens the encoding by that character's width.
pub proof fn lemma_encode_push(text: Seq<char>, c: char)
    ensures
        encode_utf8(text.push(c)).len() == encode_utf8(text).len() + utf8_width(c),
    decreases text.len(),
{
    if text.len() == 0 {
        assert(text.push(c).drop_first() =~= text);
    } else {
        assert(text.push(c).drop_first() =~= text.drop_first().push(c));
        lemma_encode_push(text.drop_first(), c);
    }
}

/// Offsets grow with the position: by the width of each character passed.
pub proof fn lemma_byte_offset_step(text: Seq<char>, pos: int)
    requires
        0 <= pos < text.len(),
    ensures
        byte_offset(text, pos + 1) == byte_offset(text, pos) + utf8_width(text[pos]),
        byte_offset(text, 0) == 0,
{
    assert(text.take(pos + 1) =~= text.take(pos).push(text[pos]));
    lemma_encode_push(text.take(pos), text[pos]);
    assert(text.take(0) =~= Seq::<char>::empty());
}

/// No offset lies beyond the length of the whole encoding.
pub proof fn lemma_byte_offset_bound(text: Seq<char>, pos: int)
    requires
        0 <= pos <= text.len(),
    ensures
        byte_offset(text, pos) <= encode_utf8(text).len(),
    decreases text.len() - pos,
{
    if pos < text.len() {
        lemma_byte_offset_step(text, pos);
        lemma_byte_offset_bound(text, pos + 1);
    } else {
        assert(text.take(pos) =~= text);
    }
}

/// Number of bytes that `c` takes in UTF-8.
pub fn width_of(c: char) -> (n: usize)
    ensures
        n == utf8_width(c),
{
    let v: u32 = c as u32;
    if v <= 0x7F {
        1
    } else if v <= 0x7FF {
        2
    } else if v <= 0xFFFF {
        3
    } else {
        4
    }
}

/// Byte offset of the character at index `pos` of `text`.
pub fn offset_of(text: &[char], pos: usize) -> (n: usize)
    requires
        pos <= text.len(),
        encode_utf8(text@).len() <= usize::MAX,
    ensures
        n == byte_offset(text@, pos as int),
{
    let mut n: usize = 0;
    let mut i: usize = 0;
    proof {
        assert(text@.take(0) =~= Seq::<char>::empty());
    }
    while i < pos
        invariant
            i <= pos <= text.len(),
            n == byte_offset(text@, i as int),
            encode_utf8(text@).len() <= usize::MAX,
        decreases pos - i,
    {
        proof {
            lemma_byte_offset_step(text@, i as int);
            lemma_byte_offset_bound(text@, i + 1);
        }
        n = n + width_of(text[i]);
        i = i + 1;
    }
    n
}

} // verus!
