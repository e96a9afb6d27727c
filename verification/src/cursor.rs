//! The cursor threaded through every parsing step, the span of text a
//! step matched, the failure type, and the byte classes that the greedy
//! scanner understands.

use vstd::prelude::*;

verus! {

/// A cursor into the input: the byte offset of the next byte to read.
///
/// Every successful parsing step returns a state whose `current` is at
/// least the one it was given; no step ever moves the cursor backwards.
#[derive(Debug, Clone, Copy, PartialEq, Eq, Structural, PartialOrd, Ord, Hash, Default)]
pub struct State {
    pub current: usize,
}

/// A half-open byte range `start..end` into the input buffer.
///
/// Matched text is handed out as a range into the one input buffer
/// rather than as a copy, so that two adjacent matches can be fused
/// into one range without allocating.
#[derive(Debug, Clone, Copy, PartialEq, Eq, Structural)]
pub struct Span {
    pub start: usize,
    pub end: usize,
}

/// The single kind of parse failure: the input is inconsistent with the
/// expected shape at the carried byte offset.
#[derive(Debug, Clone, Copy, PartialEq, Eq, Structural)]
pub enum ParserError {
    NoParse(usize),
}

impl ParserError {
    /// The byte offset at which parsing gave up.
    pub fn offset(&self) -> (r: usize)
        ensures
            self matches ParserError::NoParse(o) && r == o,
    {
        match self {
            ParserError::NoParse(o) => *o,
        }
    }
}

/// The byte classes the greedy scanner [`crate::engine::take_while`] can
/// match.  Each class either holds only of ASCII bytes or (for
/// [`ByteClass::NotQuote`]) stops only at an ASCII byte, so a maximal
/// run of a class never ends in the middle of a UTF-8 character.
#[derive(Debug, Clone, Copy, PartialEq, Eq, Structural)]
pub enum ByteClass {
    /// ASCII whitespace: space, tab, line feed, vertical tab, form
    /// feed, carriage return.
    Whitespace,
    /// ASCII decimal digits `0` through `9`.
    Digit,
    /// Any byte other than the double quote.
    NotQuote,
    /// ASCII letters `A` through `Z` and `a` through `z`.
    Alphabetic,
}

} // verus!
