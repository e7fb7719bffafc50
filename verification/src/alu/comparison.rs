use vstd::prelude::*;
use crate::alu::{float_eq, float_equal, float_less, float_lt, mismatch_message, outcome, raised_at, ALU};
use crate::errors::ComputationError;
use crate::span::Span;
use crate::value::{int_parts, view_type, Value, ValueView};

verus! {

/// The six comparison operators.
#[derive(Clone, Copy, Debug, PartialEq, Eq, Structural)]
pub enum CmpOp {
    Greater,
    GreaterEqual,
    Less,
    LessEqual,
    Equal,
    NotEqual,
}

/// The operator's name in messages.
pub open spec fn cmp_label(op: CmpOp) -> Seq<char> {
    match op {
        CmpOp::Greater => "greater"@,
        CmpOp::GreaterEqual => "greater or equal"@,
        CmpOp::Less => "less"@,
        CmpOp::LessEqual => "less or equal"@,
        CmpOp::Equal => "equal"@,
        CmpOp::NotEqual => "not equal"@,
    }
}

pub open spec fn int_cmp(op: CmpOp, a: int, b: int) -> bool {
    match op {
        CmpOp::Greater => a > b,
        CmpOp::GreaterEqual => a >= b,
        CmpOp::Less => a < b,
        CmpOp::LessEqual => a <= b,
        CmpOp::Equal => a == b,
        CmpOp::NotEqual => a != b,
    }
}

/// IEEE-754 comparison of two doubles: every ordered comparison with a NaN is false, and
/// `!=` is the negation of `==`.
pub open spec fn float_cmp(op: CmpOp, a: u64, b: u64) -> bool {
    match op {
        CmpOp::Greater => float_lt(b, a),
        CmpOp::GreaterEqual => float_lt(b, a) || float_eq(a, b),
        CmpOp::Less => float_lt(a, b),
        CmpOp::LessEqual => float_lt(a, b) || float_eq(a, b),
        CmpOp::Equal => float_eq(a, b),
        CmpOp::NotEqual => !float_eq(a, b),
    }
}

/// What a comparison gives: integers of one kind and doubles compare by value; strings,
/// booleans and characters only for (in)equality; anything else is refused.
pub open spec fn compare_spec(op: CmpOp, v1: ValueView, v2: ValueView) -> Result<ValueView, Seq<char>> {
    match (int_parts(v1), int_parts(v2)) {
        (Some((k1, a)), Some((k2, b))) if k1 == k2 => Ok(ValueView::Bool(int_cmp(op, a, b))),
        _ => match (v1, v2) {
            (ValueView::F64(a), ValueView::F64(b)) => Ok(ValueView::Bool(float_cmp(op, a, b))),
            (ValueView::Str(a), ValueView::Str(b)) if op == CmpOp::Equal => Ok(ValueView::Bool(a == b)),
            (ValueView::Str(a), ValueView::Str(b)) if op == CmpOp::NotEqual => Ok(ValueView::Bool(a != b)),
            (ValueView::Bool(a), ValueView::Bool(b)) if op == CmpOp::Equal => Ok(ValueView::Bool(a == b)),
            (ValueView::Bool(a), ValueView::Bool(b)) if op == CmpOp::NotEqual => Ok(ValueView::Bool(a != b)),
            (ValueView::Char(a), ValueView::Char(b)) if op == CmpOp::Equal => Ok(ValueView::Bool(a == b)),
            (ValueView::Char(a), ValueView::Char(b)) if op == CmpOp::NotEqual => Ok(ValueView::Bool(a != b)),
            _ => Err(mismatch_message(cmp_label(op), view_type(v1), view_type(v2))),
        },
    }
}

impl ALU {
    pub fn comparison_error(val1: &Value, val2: &Value, op_name: &str, span: Span) -> (e: ComputationError)
        ensures
            e.message@ == mismatch_message(op_name@, view_type(val1@), view_type(val2@)),
            e.span == span,
            e.severity == crate::errors::ErrorSeverity::HIGH,
    {
        Self::mismatch_error(op_name, &val1.to_type(), &val2.to_type(), span)
    }


    /// The `greater` comparison.
    pub fn greater(val1: Value, val2: Value, span: Span) -> (r: Result<Value, ComputationError>)
        ensures
            outcome(r) == compare_spec(CmpOp::Greater, val1@, val2@),
            raised_at(r, span),
    {
        match (&val1, &val2) {
            (Value::I8(a), Value::I8(b)) => Ok(Value::Bool(*a > *b)),
            (Value::I16(a), Value::I16(b)) => Ok(Value::Bool(*a > *b)),
            (Value::I32(a), Value::I32(b)) => Ok(Value::Bool(*a > *b)),
            (Value::I64(a), Value::I64(b)) => Ok(Value::Bool(*a > *b)),
            (Value::U8(a), Value::U8(b)) => Ok(Value::Bool(*a > *b)),
            (Value::U16(a), Value::U16(b)) => Ok(Value::Bool(*a > *b)),
            (Value::U32(a), Value::U32(b)) => Ok(Value::Bool(*a > *b)),
            (Value::U64(a), Value::U64(b)) => Ok(Value::Bool(*a > *b)),
            (Value::F64(a), Value::F64(b)) => Ok(Value::Bool(float_less(*b, *a))),
            _ => Err(Self::comparison_error(&val1, &val2, "greater", span)),
        }
    }

    /// The `greater or equal` comparison.
    pub fn greater_or_equal(val1: Value, val2: Value, span: Span) -> (r: Result<Value, ComputationError>)
        ensures
            outcome(r) == compare_spec(CmpOp::GreaterEqual, val1@, val2@),
            raised_at(r, span),
    {
        match (&val1, &val2) {
            (Value::I8(a), Value::I8(b)) => Ok(Value::Bool(*a >= *b)),
            (Value::I16(a), Value::I16(b)) => Ok(Value::Bool(*a >= *b)),
            (Value::I32(a), Value::I32(b)) => Ok(Value::Bool(*a >= *b)),
            (Value::I64(a), Value::I64(b)) => Ok(Value::Bool(*a >= *b)),
            (Value::U8(a), Value::U8(b)) => Ok(Value::Bool(*a >= *b)),
            (Value::U16(a), Value::U16(b)) => Ok(Value::Bool(*a >= *b)),
            (Value::U32(a), Value::U32(b)) => Ok(Value::Bool(*a >= *b)),
            (Value::U64(a), Value::U64(b)) => Ok(Value::Bool(*a >= *b)),
            (Value::F64(a), Value::F64(b)) => Ok(Value::Bool(float_less(*b, *a) || float_equal(*a, *b))),
            _ => Err(Self::comparison_error(&val1, &val2, "greater or equal", span)),
        }
    }

    /// The `less` comparison.
    pub fn less(val1: Value, val2: Value, span: Span) -> (r: Result<Value, ComputationError>)
        ensures
            outcome(r) == compare_spec(CmpOp::Less, val1@, val2@),
            raised_at(r, span),
    {
        match (&val1, &val2) {
            (Value::I8(a), Value::I8(b)) => Ok(Value::Bool(*a < *b)),
            (Value::I16(a), Value::I16(b)) => Ok(Value::Bool(*a < *b)),
            (Value::I32(a), Value::I32(b)) => Ok(Value::Bool(*a < *b)),
            (Value::I64(a), Value::I64(b)) => Ok(Value::Bool(*a < *b)),
            (Value::U8(a), Value::U8(b)) => Ok(Value::Bool(*a < *b)),
            (Value::U16(a), Value::U16(b)) => Ok(Value::Bool(*a < *b)),
            (Value::U32(a), Value::U32(b)) => Ok(Value::Bool(*a < *b)),
            (Value::U64(a), Value::U64(b)) => Ok(Value::Bool(*a < *b)),
            (Value::F64(a), Value::F64(b)) => Ok(Value::Bool(float_less(*a, *b))),
            _ => Err(Self::comparison_error(&val1, &val2, "less", span)),
        }
    }

    /// The `less or equal` comparison.
    pub fn less_or_equal(val1: Value, val2: Value, span: Span) -> (r: Result<Value, ComputationError>)
        ensures
            outcome(r) == compare_spec(CmpOp::LessEqual, val1@, val2@),
            raised_at(r, span),
    {
        match (&val1, &val2) {
            (Value::I8(a), Value::I8(b)) => Ok(Value::Bool(*a <= *b)),
            (Value::I16(a), Value::I16(b)) => Ok(Value::Bool(*a <= *b)),
            (Value::I32(a), Value::I32(b)) => Ok(Value::Bool(*a <= *b)),
            (Value::I64(a), Value::I64(b)) => Ok(Value::Bool(*a <= *b)),
            (Value::U8(a), Value::U8(b)) => Ok(Value::Bool(*a <= *b)),
            (Value::U16(a), Value::U16(b)) => Ok(Value::Bool(*a <= *b)),
            (Value::U32(a), Value::U32(b)) => Ok(Value::Bool(*a <= *b)),
            (Value::U64(a), Value::U64(b)) => Ok(Value::Bool(*a <= *b)),
            (Value::F64(a), Value::F64(b)) => Ok(Value::Bool(float_less(*a, *b) || float_equal(*a, *b))),
            _ => Err(Self::comparison_error(&val1, &val2, "less or equal", span)),
        }
    }

    /// The `equal` comparison.
    pub fn equal(val1: Value, val2: Value, span: Span) -> (r: Result<Value, ComputationError>)
        ensures
            outcome(r) == compare_spec(CmpOp::Equal, val1@, val2@),
            raised_at(r, span),
    {
        match (&val1, &val2) {
            (Value::I8(a), Value::I8(b)) => Ok(Value::Bool(*a == *b)),
            (Value::I16(a), Value::I16(b)) => Ok(Value::Bool(*a == *b)),
            (Value::I32(a), Value::I32(b)) => Ok(Value::Bool(*a == *b)),
            (Value::I64(a), Value::I64(b)) => Ok(Value::Bool(*a == *b)),
            (Value::U8(a), Value::U8(b)) => Ok(Value::Bool(*a == *b)),
            (Value::U16(a), Value::U16(b)) => Ok(Value::Bool(*a == *b)),
            (Value::U32(a), Value::U32(b)) => Ok(Value::Bool(*a == *b)),
            (Value::U64(a), Value::U64(b)) => Ok(Value::Bool(*a == *b)),
            (Value::F64(a), Value::F64(b)) => Ok(Value::Bool(float_equal(*a, *b))),
            (Value::String(a), Value::String(b)) => Ok(Value::Bool(*a == *b)),
            (Value::Bool(a), Value::Bool(b)) => Ok(Value::Bool(*a == *b)),
            (Value::Char(a), Value::Char(b)) => Ok(Value::Bool(*a == *b)),
            _ => Err(Self::comparison_error(&val1, &val2, "equal", span)),
        }
    }

    /// The `not equal` comparison.
    pub fn not_equal(val1: Value, val2: Value, span: Span) -> (r: Result<Value, ComputationError>)
        ensures
            outcome(r) == compare_spec(CmpOp::NotEqual, val1@, val2@),
            raised_at(r, span),
    {
        match (&val1, &val2) {
            (Value::I8(a), Value::I8(b)) => Ok(Value::Bool(*a != *b)),
            (Value::I16(a), Value::I16(b)) => Ok(Value::Bool(*a != *b)),
            (Value::I32(a), Value::I32(b)) => Ok(Value::Bool(*a != *b)),
            (Value::I64(a), Value::I64(b)) => Ok(Value::Bool(*a != *b)),
            (Value::U8(a), Value::U8(b)) => Ok(Value::Bool(*a != *b)),
            (Value::U16(a), Value::U16(b)) => Ok(Value::Bool(*a != *b)),
            (Value::U32(a), Value::U32(b)) => Ok(Value::Bool(*a != *b)),
            (Value::U64(a), Value::U64(b)) => Ok(Value::Bool(*a != *b)),
            (Value::F64(a), Value::F64(b)) => Ok(Value::Bool(!float_equal(*a, *b))),
            (Value::String(a), Value::String(b)) => Ok(Value::Bool(*a != *b)),
            (Value::Bool(a), Value::Bool(b)) => Ok(Value::Bool(*a != *b)),
            (Value::Char(a), Value::Char(b)) => Ok(Value::Bool(*a != *b)),
            _ => Err(Self::comparison_error(&val1, &val2, "not equal", span)),
        }
    }
}

} // verus!
