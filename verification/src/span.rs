//! Byte ranges in the original source text, used for diagnostics, and a
//! helper pairing an arbitrary node with the span it came from.

use vstd::prelude::*;

verus! {

/// The smallest span covering both operands.
pub open spec fn span_merge(a: Span, b: Span) -> Span {
    Span {
        lo: if a.lo <= b.lo {
            a.lo
        } else {
            b.lo
        },
        hi: if a.hi >= b.hi {
            a.hi
        } else {
            b.hi
        },
    }
}

/// A half-open range `lo..hi` of byte offsets in the source text.
#[derive(Clone, Copy, PartialEq, Eq, Structural, Debug)]
pub struct Span {
    pub lo: u64,
    pub hi: u64,
}

impl Span {
    pub open spec fn wf(self) -> bool {
        self.lo <= self.hi
    }

    pub fn new(lo: u64, hi: u64) -> (r: Span)
        requires
            lo <= hi,
        ensures
            r == (Span { lo, hi }),
    {
        Span { lo, hi }
    }

    /// The smallest span covering both `self` and `other`.
    pub fn merge(self, other: Span) -> (r: Span)
        ensures
            r == span_merge(self, other),
    {
        Span {
            lo: if self.lo <= other.lo { self.lo } else { other.lo },
            hi: if self.hi >= other.hi { self.hi } else { other.hi },
        }
    }
}

/// A node of any kind together with the source span it was read from.
#[derive(Debug)]
pub struct Spanned<T> {
    pub node: T,
    pub span: Span,
}

} // verus!
