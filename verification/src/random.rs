//! The calls into the `rand` crate.
//!
//! Nothing here is proved. Each function states what `rand` documents of the
//! call it makes, and only what holds whatever is drawn.

use vstd::prelude::*;
use rand::rngs::StdRng;
use rand::seq::SliceRandom;
use rand::Rng;

verus! {

/// `rand::rngs::StdRng`, the generator that every draw is made from.
#[verifier::external_type_specification]
#[verifier::external_body]
pub struct ExStdRng(StdRng);

/// `SliceRandom::choose` on `items`: a reference to one of the elements,
/// each equally likely, or `None` exactly when there is no element.
#[verifier::external_body]
pub(crate) fn pick_one<'a, T>(items: &'a [T], rng: &mut StdRng) -> (picked: Option<&'a T>)
    ensures
        picked is None <==> items@.len() == 0,
        picked matches Some(item) ==> items@.contains(*item),
{
    items.choose(rng)
}

/// `Rng::gen_range` on the inclusive range from `min` to `max`: a number in
/// that range, each equally likely. The call panics on an empty range.
#[verifier::external_body]
pub(crate) fn draw_count(rng: &mut StdRng, min: u64, max: u64) -> (count: u64)
    requires
        min <= max,
    ensures
        min <= count <= max,
{
    rng.gen_range(min..=max)
}

/// `Rng::gen` for `char`: any Unicode scalar value, each equally likely.
#[verifier::external_body]
pub(crate) fn any_char(rng: &mut StdRng) -> (c: char) {
    rng.gen::<char>()
}

/// `String::push` puts `c` at the end of `text`.
pub assume_specification[ String::push ](text: &mut String, c: char)
    ensures
        final(text)@ == old(text)@.push(c),
;

} // verus!
