//! Character spans over the source text.
use vstd::prelude::*;

verus! {

/// A half-open interval `[start, end)` over the source, counted in characters.
#[derive(Debug, Clone, Copy, PartialEq, Eq, Structural, Default)]
pub struct Span {
    pub start: usize,
    pub end: usize,
}

impl Span {
    /// Builds the span `[start, end)`.
    pub fn new(start: usize, end: usize) -> (r: Span)
        ensures
            r.start == start,
            r.end == end,
    {
        Span { start, end }
    }

    /// The smallest span that covers both `self` and `other`.
    pub fn merge(&self, other: &Span) -> (r: Span)
        ensures
            r == span_merge(*self, *other),
    {
        let start = if self.start <= other.start { self.start } else { other.start };
        let end = if self.end >= other.end { self.end } else { other.end };
        Span { start, end }
    }
}

/// `[min(start), max(end))` of two spans.
pub open spec fn span_merge(a: Span, b: Span) -> Span {
    Span {
        start: if a.start <= b.start { a.start } else { b.start },
        end: if a.end >= b.end { a.end } else { b.end },
    }
}

/// `outer` contains every position of `inner`.
pub open spec fn span_covers(outer: Span, inner: Span) -> bool {
    outer.start <= inner.start && inner.end <= outer.end
}

} // verus!
