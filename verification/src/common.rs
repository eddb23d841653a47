//! Shared small enumerations: the quoting state of a string value and the
//! comparison operators whose evaluation the value model defines.

use vstd::prelude::*;

verus! {

/// Whether a string value carries quotes in the output.
#[derive(Clone, Copy, PartialEq, Eq, Structural, Debug)]
pub enum QuoteKind {
    Quoted,
    Unquoted,
}

/// The binary comparison operators over values.
#[derive(Clone, Copy, PartialEq, Eq, Structural, Debug)]
pub enum Op {
    GreaterThan,
    GreaterThanEqual,
    LessThan,
    LessThanEqual,
}

pub open spec fn op_text(op: Op) -> Seq<char> {
    match op {
        Op::GreaterThan => ">"@,
        Op::GreaterThanEqual => ">="@,
        Op::LessThan => "<"@,
        Op::LessThanEqual => "<="@,
    }
}

impl Op {
    /// The operator as it is written in source text.
    pub fn as_str(self) -> (r: &'static str)
        ensures
            r@ == op_text(self),
    {
        match self {
            Op::GreaterThan => ">",
            Op::GreaterThanEqual => ">=",
            Op::LessThan => "<",
            Op::LessThanEqual => "<=",
        }
    }
}

} // verus!
