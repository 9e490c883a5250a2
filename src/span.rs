use vstd::prelude::*;

verus! {

/// A half-open byte range `[low, low + offset)` into one source buffer.
#[derive(Debug, Clone, Copy, PartialEq, Eq, Structural, PartialOrd, Ord, Hash)]
pub struct Span {
    /// The first byte of the span.
    pub low: usize,
    /// The number of bytes the span covers.
    pub offset: usize,
}

impl Span {
    /// The range never wraps past the largest offset.
    pub open spec fn wf(self) -> bool {
        self.low + self.offset <= usize::MAX
    }

    /// One past the last byte of the span.
    pub open spec fn end(self) -> int {
        self.low + self.offset
    }

    /// The span covers no byte.
    pub open spec fn is_empty_spec(self) -> bool {
        self.offset == 0
    }

    /// Creates a span starting at `low` that covers `offset` bytes.
    pub fn new(low: usize, offset: usize) -> (r: Span)
        requires
            low + offset <= usize::MAX,
        ensures
            r.low == low,
            r.offset == offset,
            r.wf(),
    {
        Span { low, offset }
    }

    /// A span with the start of `span` and the given length.
    pub fn from_span_offset(span: Span, length: usize) -> (r: Span)
        requires
            span.low + length <= usize::MAX,
        ensures
            r.low == span.low,
            r.offset == length,
            r.wf(),
    {
        Span::new(span.low, length)
    }

    /// A span from a `(low, length)` pair.
    pub fn from_pair(pair: (usize, usize)) -> (r: Span)
        requires
            pair.0 + pair.1 <= usize::MAX,
        ensures
            r.low == pair.0,
            r.offset == pair.1,
    {
        Span::new(pair.0, pair.1)
    }

    /// A span covering the byte range `start..end`.
    pub fn from_range(start: usize, end: usize) -> (r: Span)
        requires
            start <= end,
        ensures
            r.low == start,
            r.end() == end,
            r.wf(),
    {
        Span::new(start, end - start)
    }

    /// The number of bytes the span covers.
    pub fn len(&self) -> (r: usize)
        ensures
            r == self.offset,
    {
        self.offset
    }

    /// Whether the span covers no byte.
    pub fn is_empty(&self) -> (r: bool)
        ensures
            r == (self.offset == 0),
    {
        self.offset == 0
    }

    /// The byte just past the span, as printed in `low..end`.
    pub fn end_byte(&self) -> (r: usize)
        requires
            self.wf(),
        ensures
            r == self.end(),
    {
        self.low + self.offset
    }
}

} // verus!
