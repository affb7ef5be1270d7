//! Byte ranges of tokens in their source text.
use vstd::prelude::*;

verus! {

/// A half-open byte range `start..end` in a source text.
#[derive(Debug, Clone, Copy, PartialEq, Eq, Structural, PartialOrd, Ord, Hash)]
pub struct Span {
    pub start: usize,
    pub end: usize,
}

impl Span {
    /// A span from `start` to `end`.
    pub fn new(start: usize, end: usize) -> (s: Span)
        ensures
            s.start == start,
            s.end == end,
    {
        Span { start, end }
    }

    /// The span as a range `start..end`.
    pub fn range(&self) -> (r: std::ops::Range<usize>)
        ensures
            r.start == self.start,
            r.end == self.end,
    {
        self.start..self.end
    }

    /// The span as a range of references to its bounds.
    pub fn range_ref(&self) -> (r: std::ops::Range<&usize>)
        ensures
            *r.start == self.start,
            *r.end == self.end,
    {
        &self.start..&self.end
    }
}

impl From<std::ops::Range<usize>> for Span {
    fn from(value: std::ops::Range<usize>) -> (s: Span) {
        Span { start: value.start, end: value.end }
    }
}

impl vstd::std_specs::convert::FromSpecImpl<std::ops::Range<usize>> for Span {
    open spec fn obeys_from_spec() -> bool {
        true
    }

    open spec fn from_spec(value: std::ops::Range<usize>) -> Span {
        Span { start: value.start, end: value.end }
    }
}

impl<'a> From<std::ops::Range<&'a usize>> for Span {
    fn from(value: std::ops::Range<&'a usize>) -> (s: Span) {
        Span { start: *value.start, end: *value.end }
    }
}

impl<'a> vstd::std_specs::convert::FromSpecImpl<std::ops::Range<&'a usize>> for Span {
    open spec fn obeys_from_spec() -> bool {
        true
    }

    open spec fn from_spec(value: std::ops::Range<&'a usize>) -> Span {
        Span { start: *value.start, end: *value.end }
    }
}

impl From<Span> for std::ops::Range<usize> {
    fn from(value: Span) -> (r: std::ops::Range<usize>) {
        value.start..value.end
    }
}

impl vstd::std_specs::convert::FromSpecImpl<Span> for std::ops::Range<usize> {
    open spec fn obeys_from_spec() -> bool {
        true
    }

    open spec fn from_spec(value: Span) -> std::ops::Range<usize> {
        std::ops::Range { start: value.start, end: value.end }
    }
}

} // verus!
