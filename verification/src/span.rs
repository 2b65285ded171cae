use vstd::prelude::*;

verus! {

/// A half-open range `[start, end)` of character positions in a source text.
#[derive(Debug, Clone, Copy, PartialEq, Eq, Hash, Default, Structural)]
pub struct Span {
    pub start: usize,
    pub end: usize,
}

impl Span {
    pub fn new(start: usize, end: usize) -> (s: Self)
        ensures
            s.start == start,
            s.end == end,
    {
        Span { start, end }
    }

    /// The smallest span covering both `self` and `other`.
    pub fn merge(&self, other: &Span) -> (s: Self)
        ensures
            s == merged(*self, *other),
    {
        let start = if self.start <= other.start { self.start } else { other.start };
        let end = if self.end >= other.end { self.end } else { other.end };
        Span { start, end }
    }

    /// Number of positions covered; an inverted span has length zero.
    pub fn len(&self) -> (n: usize)
        ensures
            n == (if self.end >= self.start { (self.end - self.start) as usize } else { 0usize }),
    {
        if self.end >= self.start {
            self.end - self.start
        } else {
            0
        }
    }

    pub fn is_empty(&self) -> (b: bool)
        ensures
            b == (self.start >= self.end),
    {
        self.start >= self.end
    }
}

pub open spec fn min_usize(a: usize, b: usize) -> usize {
    if a <= b { a } else { b }
}

pub open spec fn max_usize(a: usize, b: usize) -> usize {
    if a >= b { a } else { b }
}

/// The span that `merge` gives.
pub open spec fn merged(a: Span, b: Span) -> Span {
    Span { start: min_usize(a.start, b.start), end: max_usize(a.end, b.end) }
}

/// `outer` covers every position that `inner` covers.
pub open spec fn covers(outer: Span, inner: Span) -> bool {
    outer.start <= inner.start && inner.end <= outer.end
}

/// Merging spans does not depend on their order or grouping, merging a span
/// with itself gives it back, and the merge covers both spans.
pub proof fn lemma_merge_laws(a: Span, b: Span, c: Span)
    ensures
        merged(a, b) == merged(b, a),
        merged(merged(a, b), c) == merged(a, merged(b, c)),
        merged(a, a) == a,
        covers(merged(a, b), a),
        covers(merged(a, b), b),
{
}

impl From<core::ops::Range<usize>> for Span {
    fn from(range: core::ops::Range<usize>) -> (s: Span) {
        Span { start: range.start, end: range.end }
    }
}

impl vstd::std_specs::convert::FromSpecImpl<core::ops::Range<usize>> for Span {
    open spec fn obeys_from_spec() -> bool {
        true
    }

    open spec fn from_spec(range: core::ops::Range<usize>) -> Span {
        Span { start: range.start, end: range.end }
    }
}

} // verus!
