//! Text building blocks that the standard library provides.
use vstd::prelude::*;
use crate::cow::without;

verus! {

/// The debug form of a value, as `format!` with `{:?}` gives it. What it holds is
/// up to the value's `Debug` impl, so nothing is claimed of it.
#[verifier::external_body]
pub(crate) fn debug_text<A: core::fmt::Debug>(value: &A) -> (text: String) {
    format!("{:?}", value)
}

/// `String::push_str`: appends `tail` to `text`.
#[verifier::external_body]
pub(crate) fn push_text(text: &mut String, tail: &str)
    ensures
        final(text)@ == old(text)@ + tail@,
{
    text.push_str(tail)
}

/// `str::contains` with a character as its pattern: whether `c` occurs in `s`.
#[verifier::external_body]
pub(crate) fn has_char(s: &str, c: char) -> (found: bool)
    ensures
        found == s@.contains(c),
{
    s.contains(c)
}

/// `str::replace` with a character as its pattern and the empty text in its place:
/// `s` without any occurrence of `c`.
#[verifier::external_body]
pub(crate) fn replace_char(s: &str, c: char) -> (text: String)
    ensures
        text@ == without(s@, c),
{
    s.replace(c, "")
}

} // verus!
