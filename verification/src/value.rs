//! The value model: the closed set of computed expression results, their
//! rendering to output text, and unit-aware comparison.

use vstd::prelude::*;
use vstd::string::StringExecFns;
use crate::common::{op_text, Op, QuoteKind};
use crate::error::{SassError, SassResult};
use crate::number::{num_lt, number_css, Number, NumV};
use crate::span::Span;
use crate::unit::{unit_factor, unit_family, unit_text, Unit};
use crate::utils::push_char;

verus! {

/// A computed expression result.
#[derive(Debug)]
pub enum Value {
    Dimension(Number, Unit),
    Ident(String, QuoteKind),
    Null,
    True,
    False,
}

/// The mathematical value of a `Value`.
pub enum ValueRepr {
    Dimension(NumV, Unit),
    Ident(Seq<char>, QuoteKind),
    Null,
    True,
    False,
}

impl View for Value {
    type V = ValueRepr;

    open spec fn view(&self) -> ValueRepr {
        match self {
            Value::Dimension(n, u) => ValueRepr::Dimension(n@, *u),
            Value::Ident(s, q) => ValueRepr::Ident(s@, *q),
            Value::Null => ValueRepr::Null,
            Value::True => ValueRepr::True,
            Value::False => ValueRepr::False,
        }
    }
}

impl Clone for Value {
    fn clone(&self) -> (r: Self)
        ensures
            r@ == self@,
    {
        match self {
            Value::Dimension(n, u) => Value::Dimension(n.clone(), *u),
            Value::Ident(s, q) => Value::Ident(s.clone(), *q),
            Value::Null => Value::Null,
            Value::True => Value::True,
            Value::False => Value::False,
        }
    }
}

/// The rendering of a value in the output format.
pub open spec fn value_css(v: ValueRepr) -> Seq<char> {
    match v {
        ValueRepr::Dimension(n, u) => number_css(n) + unit_text(u),
        ValueRepr::Ident(s, QuoteKind::Quoted) => seq!['"'] + s + seq!['"'],
        ValueRepr::Ident(s, QuoteKind::Unquoted) => s,
        ValueRepr::Null => Seq::empty(),
        ValueRepr::True => "true"@,
        ValueRepr::False => "false"@,
    }
}

/// A value stripped of its quotes.
pub open spec fn unquoted(v: ValueRepr) -> ValueRepr {
    match v {
        ValueRepr::Ident(s, _) => ValueRepr::Ident(s, QuoteKind::Unquoted),
        other => other,
    }
}

/// A number scaled to its family's canonical unit.
pub open spec fn canonical(n: NumV, u: Unit) -> NumV {
    NumV { num: n.num * unit_factor(u).0, den: n.den * unit_factor(u).1 }
}

/// The outcome of comparing two dimensions of one family.
pub open spec fn dim_cmp(op: Op, n1: NumV, u1: Unit, n2: NumV, u2: Unit) -> bool {
    let a = canonical(n1, u1);
    let b = canonical(n2, u2);
    match op {
        Op::GreaterThan => num_lt(b, a),
        Op::GreaterThanEqual => !num_lt(a, b),
        Op::LessThan => num_lt(a, b),
        Op::LessThanEqual => !num_lt(b, a),
    }
}

/// Whether the comparison is defined at all: both operands are dimensions
/// whose units belong to one family.
pub open spec fn cmp_defined(l: ValueRepr, r: ValueRepr) -> bool {
    match (l, r) {
        (ValueRepr::Dimension(_, u1), ValueRepr::Dimension(_, u2)) => unit_family(u1)
            == unit_family(u2),
        _ => false,
    }
}

/// The diagnostic for a comparison of incomparable operands.
pub open spec fn undef_op_msg(l: ValueRepr, op: Op, r: ValueRepr) -> Seq<char> {
    "Undefined operation \""@ + value_css(l) + " "@ + op_text(op) + " "@ + value_css(r) + "\"."@
}

impl Value {
    pub open spec fn wf(self) -> bool {
        match self@ {
            ValueRepr::Dimension(n, _) => n.den > 0,
            _ => true,
        }
    }

    /// This value with quoting removed.
    pub fn unquote(self) -> (r: Value)
        ensures
            r@ == unquoted(self@),
    {
        match self {
            Value::Ident(s, _) => Value::Ident(s, QuoteKind::Unquoted),
            v => v,
        }
    }

    /// The value rendered in the output format.
    pub fn to_css_string(&self, span: Span) -> (r: SassResult<String>)
        requires
            self.wf(),
        ensures
            r matches Ok(s) && s@ == value_css(self@),
    {
        let _ = span;
        match self {
            Value::Dimension(n, u) => {
                let mut s = n.to_css_string();
                s.append(u.as_str());
                Ok(s)
            }
            Value::Ident(t, QuoteKind::Quoted) => {
                let mut s = String::new();
                push_char(&mut s, '"');
                s.append(t.as_str());
                push_char(&mut s, '"');
                proof {
                    assert(s@ =~= seq!['"'] + t@ + seq!['"']);
                }
                Ok(s)
            }
            Value::Ident(t, QuoteKind::Unquoted) => Ok(t.clone()),
            Value::Null => Ok(String::new()),
            Value::True => Ok(String::from_str("true")),
            Value::False => Ok(String::from_str("false")),
        }
    }

    /// Compare two values: defined exactly for two dimensions of one unit
    /// family; anything else is an undefined operation.
    pub fn compare(&self, op: Op, other: &Value, span: Span) -> (r: SassResult<Value>)
        requires
            self.wf(),
            other.wf(),
        ensures
            cmp_defined(self@, other@) ==> (r matches Ok(v) && v@ == (
            if dim_cmp(
                op,
                self@->Dimension_0,
                self@->Dimension_1,
                other@->Dimension_0,
                other@->Dimension_1,
            ) {
                ValueRepr::True
            } else {
                ValueRepr::False
            })),
            !cmp_defined(self@, other@) ==> (r matches Err(e) && e.message@ == undef_op_msg(
                self@,
                op,
                other@,
            ) && e.span == span),
    {
        match (self, other) {
            (Value::Dimension(n1, u1), Value::Dimension(n2, u2)) => {
                if u1.comparable(*u2) {
                    let f1 = u1.factor();
                    let f2 = u2.factor();
                    let a = n1.scaled(f1.0, f1.1);
                    let b = n2.scaled(f2.0, f2.1);
                    let c = match op {
                        Op::GreaterThan => b.lt(&a),
                        Op::GreaterThanEqual => !a.lt(&b),
                        Op::LessThan => a.lt(&b),
                        Op::LessThanEqual => !b.lt(&a),
                    };
                    Ok(
                        if c {
                            Value::True
                        } else {
                            Value::False
                        },
                    )
                } else {
                    Err(undefined_op_err(self, op, other, span))
                }
            }
            _ => Err(undefined_op_err(self, op, other, span)),
        }
    }
}

/// The undefined-operation diagnostic, naming both operands and the
/// operator as they render in output.
fn undefined_op_err(l: &Value, op: Op, r: &Value, span: Span) -> (e: SassError)
    requires
        l.wf(),
        r.wf(),
    ensures
        e.message@ == undef_op_msg(l@, op, r@),
        e.span == span,
{
    let mut s = String::from_str("Undefined operation \"");
    let lc = match l.to_css_string(span) {
        Ok(c) => c,
        Err(e) => e.message,  // unreachable: rendering cannot fail
    };
    s.append(lc.as_str());
    push_char(&mut s, ' ');
    s.append(op.as_str());
    push_char(&mut s, ' ');
    let rc = match r.to_css_string(span) {
        Ok(c) => c,
        Err(e) => e.message,  // unreachable: rendering cannot fail
    };
    s.append(rc.as_str());
    s.append("\".");
    proof {
        assert(seq![' '] =~= " "@) by {
            reveal_strlit(" ");
        }
        assert(s@ =~= undef_op_msg(l@, op, r@));
    }
    SassError::new(s, span)
}

} // verus!
