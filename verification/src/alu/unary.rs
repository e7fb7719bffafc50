use vstd::prelude::*;
use crate::alu::{float_neg, float_negate, outcome, raised_at, ALU};
use crate::errors::{ComputationError, ErrorSeverity};
use crate::span::Span;
use crate::text::{append_str, string_of};
use crate::types::{kind_min, kind_type, type_label};
use crate::value::{int_parts, int_view, view_type, Value, ValueView};

verus! {

pub open spec fn unary_type_message(op: Seq<char>, t: crate::types::Type) -> Seq<char> {
    "Cannot perform "@ + op + " on type '"@ + type_label(t) + "'."@
}

pub open spec fn negation_overflow_message(t: crate::types::Type) -> Seq<char> {
    "Overflow occurred when performing arithmetic negation on "@ + type_label(t) + "."@
}

/// Logical negation: defined on booleans only.
pub open spec fn boolean_negate_spec(v: ValueView) -> Result<ValueView, Seq<char>> {
    match v {
        ValueView::Bool(b) => Ok(ValueView::Bool(!b)),
        _ => Err(unary_type_message("boolean negation"@, view_type(v))),
    }
}

/// Arithmetic negation: signed integers (the least value of a kind overflows) and
/// doubles (the sign flips); nothing else.
pub open spec fn arithmetic_negate_spec(v: ValueView) -> Result<ValueView, Seq<char>> {
    match v {
        ValueView::F64(b) => Ok(ValueView::F64(float_neg(b))),
        ValueView::I8(_) | ValueView::I16(_) | ValueView::I32(_) | ValueView::I64(_) => {
            let (k, x) = int_parts(v).unwrap();
            if x == kind_min(k) {
                Err(negation_overflow_message(kind_type(k)))
            } else {
                Ok(int_view(k, -x))
            }
        },
        _ => Err(unary_type_message("arithmetic negation"@, view_type(v))),
    }
}

fn unary_error(op: &str, t: &crate::types::Type, span: Span) -> (e: ComputationError)
    ensures
        e.message@ == unary_type_message(op@, *t),
        e.span == span,
        e.severity == ErrorSeverity::HIGH,
{
    let mut m = string_of("Cannot perform ");
    append_str(&mut m, op);
    append_str(&mut m, " on type '");
    append_str(&mut m, t.label().as_str());
    append_str(&mut m, "'.");
    ComputationError::new(ErrorSeverity::HIGH, m, span)
}

fn negation_overflow(t: &str, span: Span) -> (e: ComputationError)
    ensures
        e.message@ == "Overflow occurred when performing arithmetic negation on "@ + t@ + "."@,
        e.span == span,
        e.severity == ErrorSeverity::HIGH,
{
    let mut m = string_of("Overflow occurred when performing arithmetic negation on ");
    append_str(&mut m, t);
    append_str(&mut m, ".");
    ComputationError::new(ErrorSeverity::HIGH, m, span)
}

impl ALU {
    /// Logical negation.
    pub fn boolean_negate(val: Value, span: Span) -> (r: Result<Value, ComputationError>)
        ensures
            outcome(r) == boolean_negate_spec(val@),
            raised_at(r, span),
    {
        match val {
            Value::Bool(b) => Ok(Value::Bool(!b)),
            _ => Err(unary_error("boolean negation", &val.to_type(), span)),
        }
    }

    /// Arithmetic negation.
    pub fn arithmetic_negate(val: Value, span: Span) -> (r: Result<Value, ComputationError>)
        ensures
            outcome(r) == arithmetic_negate_spec(val@),
            raised_at(r, span),
    {
        match val {
            Value::I8(x) => if x == i8::MIN { Err(negation_overflow("i8", span)) } else { Ok(Value::I8(-x)) },
            Value::I16(x) => if x == i16::MIN { Err(negation_overflow("i16", span)) } else { Ok(Value::I16(-x)) },
            Value::I32(x) => if x == i32::MIN { Err(negation_overflow("i32", span)) } else { Ok(Value::I32(-x)) },
            Value::I64(x) => if x == i64::MIN { Err(negation_overflow("i64", span)) } else { Ok(Value::I64(-x)) },
            Value::F64(b) => Ok(Value::F64(float_negate(b))),
            _ => Err(unary_error("arithmetic negation", &val.to_type(), span)),
        }
    }
}

} // verus!
