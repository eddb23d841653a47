//! The selector context handed through evaluation. Selector syntax and
//! combination are a collaborator's concern; the core only carries the
//! context along.

use vstd::prelude::*;

verus! {

/// The selector a block is being evaluated under.
pub struct Selector {
    pub contents: String,
}

impl Selector {
    /// The empty (top-level) selector context.
    pub fn new() -> (r: Selector)
        ensures
            r.contents@ == Seq::<char>::empty(),
    {
        Selector { contents: String::new() }
    }
}

} // verus!
