//! The universal error payload: a human-readable message paired with the
//! source span the diagnostic points at.

use vstd::prelude::*;
use crate::span::Span;

verus! {

/// A recoverable compilation diagnostic.
#[derive(Debug)]
pub struct SassError {
    pub message: String,
    pub span: Span,
}

impl SassError {
    pub fn new(message: String, span: Span) -> (r: SassError)
        ensures
            r.message@ == message@,
            r.span == span,
    {
        SassError { message, span }
    }
}

pub type SassResult<T> = Result<T, SassError>;

} // verus!
