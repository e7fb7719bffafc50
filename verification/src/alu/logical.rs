use vstd::prelude::*;
use crate::alu::{mismatch_message, outcome, raised_at, ALU};
use crate::errors::ComputationError;
use crate::span::Span;
use crate::value::{view_type, Value, ValueView};

verus! {

/// Logical `&&`: defined on two booleans only.
pub open spec fn concatenation_spec(v1: ValueView, v2: ValueView) -> Result<ValueView, Seq<char>> {
    match (v1, v2) {
        (ValueView::Bool(a), ValueView::Bool(b)) => Ok(ValueView::Bool(a && b)),
        _ => Err(mismatch_message("concatenation"@, view_type(v1), view_type(v2))),
    }
}

/// Logical `||`: defined on two booleans only.
pub open spec fn alternative_spec(v1: ValueView, v2: ValueView) -> Result<ValueView, Seq<char>> {
    match (v1, v2) {
        (ValueView::Bool(a), ValueView::Bool(b)) => Ok(ValueView::Bool(a || b)),
        _ => Err(mismatch_message("alternative"@, view_type(v1), view_type(v2))),
    }
}

impl ALU {
    /// Logical conjunction.
    pub fn concatenation(val1: Value, val2: Value, span: Span) -> (r: Result<Value, ComputationError>)
        ensures
            outcome(r) == concatenation_spec(val1@, val2@),
            raised_at(r, span),
    {
        match (&val1, &val2) {
            (Value::Bool(a), Value::Bool(b)) => Ok(Value::Bool(*a && *b)),
            _ => Err(Self::mismatch_error("concatenation", &val1.to_type(), &val2.to_type(), span)),
        }
    }

    /// Logical disjunction.
    pub fn alternative(val1: Value, val2: Value, span: Span) -> (r: Result<Value, ComputationError>)
        ensures
            outcome(r) == alternative_spec(val1@, val2@),
            raised_at(r, span),
    {
        match (&val1, &val2) {
            (Value::Bool(a), Value::Bool(b)) => Ok(Value::Bool(*a || *b)),
            _ => Err(Self::mismatch_error("alternative", &val1.to_type(), &val2.to_type(), span)),
        }
    }
}

} // verus!
