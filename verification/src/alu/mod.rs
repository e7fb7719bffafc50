pub mod arithmetic;
pub mod cast;
pub mod comparison;
pub mod double;
pub mod product;
pub mod logical;
pub mod unary;

use vstd::prelude::*;
use crate::errors::{ComputationError, ErrorSeverity};
use crate::span::Span;
use crate::types::{type_label, Type};
use crate::value::{Value, ValueView};

verus! {

/// The arithmetic and logic unit: the operators of the language on values.
pub struct ALU;

/// The arithmetic on IEEE-754 doubles of the host: each operand and result is the bit
/// pattern of a double. The operations are those of Rust's `f64`: `add`..`div` are
/// `+ - * /`, `from_signed`/`from_unsigned` are `as f64`, `truncate` is the integer part
/// (towards zero) of a finite double, `render` is `to_string`, and `parse` is
/// `str::parse::<f64>`. The operators take sums, differences, quotients, renderings and
/// parsed doubles from it; products, conversions of integers to doubles and integer parts
/// of doubles are computed by the library itself (see `product` and `double`).
pub trait FloatUnit {
    fn add(&self, a: u64, b: u64) -> u64;

    fn sub(&self, a: u64, b: u64) -> u64;

    fn mul(&self, a: u64, b: u64) -> u64;

    fn div(&self, a: u64, b: u64) -> u64;

    fn from_signed(&self, x: i64) -> u64;

    fn from_unsigned(&self, x: u64) -> u64;

    fn truncate(&self, a: u64) -> i128;

    fn render(&self, a: u64) -> String;

    fn parse(&self, s: &str) -> Option<u64>;
}

/// The sign bit of a double.
pub open spec fn sign_bit() -> int {
    0x8000_0000_0000_0000
}

/// The bits of a double other than the sign.
pub open spec fn float_magnitude(b: u64) -> int {
    if b >= sign_bit() { b - sign_bit() } else { b as int }
}

/// The magnitude bits of an infinity; greater ones are NaNs.
pub open spec fn infinity_bits() -> int {
    0x7ff0_0000_0000_0000
}

pub open spec fn float_is_nan(b: u64) -> bool {
    float_magnitude(b) > infinity_bits()
}

pub open spec fn float_is_finite(b: u64) -> bool {
    float_magnitude(b) < infinity_bits()
}

/// A key that orders the non-NaN doubles as the numbers they denote (both zeros get 0).
pub open spec fn float_key(b: u64) -> int {
    if b >= sign_bit() { -float_magnitude(b) } else { float_magnitude(b) }
}

/// IEEE-754 `<` on the bit patterns of two doubles.
pub open spec fn float_lt(a: u64, b: u64) -> bool {
    !float_is_nan(a) && !float_is_nan(b) && float_key(a) < float_key(b)
}

/// IEEE-754 `==` on the bit patterns of two doubles.
pub open spec fn float_eq(a: u64, b: u64) -> bool {
    !float_is_nan(a) && !float_is_nan(b) && float_key(a) == float_key(b)
}

/// IEEE-754 negation: the sign bit flipped.
pub open spec fn float_neg(b: u64) -> u64 {
    if b >= sign_bit() { (b - sign_bit()) as u64 } else { (b + sign_bit()) as u64 }
}

pub fn is_nan_bits(b: u64) -> (r: bool)
    ensures
        r == float_is_nan(b),
{
    let m = if b >= 0x8000_0000_0000_0000u64 { b - 0x8000_0000_0000_0000u64 } else { b };
    m > 0x7ff0_0000_0000_0000u64
}

pub fn is_finite_bits(b: u64) -> (r: bool)
    ensures
        r == float_is_finite(b),
{
    let m = if b >= 0x8000_0000_0000_0000u64 { b - 0x8000_0000_0000_0000u64 } else { b };
    m < 0x7ff0_0000_0000_0000u64
}

fn float_key_of(b: u64) -> (k: i128)
    ensures
        k == float_key(b),
{
    if b >= 0x8000_0000_0000_0000u64 {
        -((b - 0x8000_0000_0000_0000u64) as i128)
    } else {
        b as i128
    }
}

pub fn float_less(a: u64, b: u64) -> (r: bool)
    ensures
        r == float_lt(a, b),
{
    !is_nan_bits(a) && !is_nan_bits(b) && float_key_of(a) < float_key_of(b)
}

pub fn float_equal(a: u64, b: u64) -> (r: bool)
    ensures
        r == float_eq(a, b),
{
    !is_nan_bits(a) && !is_nan_bits(b) && float_key_of(a) == float_key_of(b)
}

pub fn float_negate(b: u64) -> (r: u64)
    ensures
        r == float_neg(b),
{
    if b >= 0x8000_0000_0000_0000u64 { b - 0x8000_0000_0000_0000u64 } else { b + 0x8000_0000_0000_0000u64 }
}

/// What an operation gave, as a model: the value, or the error's message.
pub open spec fn outcome(r: Result<Value, ComputationError>) -> Result<ValueView, Seq<char>> {
    match r {
        Ok(v) => Ok(v@),
        Err(e) => Err(e.message@),
    }
}

/// An error, if any, is a high-severity error at `span`.
pub open spec fn raised_at(r: Result<Value, ComputationError>, span: Span) -> bool {
    r matches Err(e) ==> e.span == span && e.severity == ErrorSeverity::HIGH
}

/// "Cannot perform <op> between values of type '<t1>' and '<t2>'."
pub open spec fn mismatch_message(op: Seq<char>, t1: Type, t2: Type) -> Seq<char> {
    "Cannot perform "@ + op + " between values of type '"@ + type_label(t1) + "' and '"@
        + type_label(t2) + "'."@
}

/// "Overflow occurred when performing <op> on <t1> and <t2>."
pub open spec fn overflow_message(op: Seq<char>, t1: Type, t2: Type) -> Seq<char> {
    "Overflow occurred when performing "@ + op + " on "@ + type_label(t1) + " and "@
        + type_label(t2) + "."@
}

/// "Invalid result when performing <op> on f64s."
pub open spec fn invalid_float_message(op: Seq<char>) -> Seq<char> {
    "Invalid result when performing "@ + op + " on f64s."@
}

impl ALU {
    pub fn mismatch_error(op: &str, t1: &Type, t2: &Type, span: Span) -> (e: ComputationError)
        ensures
            e.message@ == mismatch_message(op@, *t1, *t2),
            e.span == span,
            e.severity == ErrorSeverity::HIGH,
    {
        let mut m = crate::text::string_of("Cannot perform ");
        crate::text::append_str(&mut m, op);
        crate::text::append_str(&mut m, " between values of type '");
        crate::text::append_str(&mut m, t1.label().as_str());
        crate::text::append_str(&mut m, "' and '");
        crate::text::append_str(&mut m, t2.label().as_str());
        crate::text::append_str(&mut m, "'.");
        ComputationError::new(ErrorSeverity::HIGH, m, span)
    }

    pub fn overflow_error(op: &str, t1: &Type, t2: &Type, span: Span) -> (e: ComputationError)
        ensures
            e.message@ == overflow_message(op@, *t1, *t2),
            e.span == span,
            e.severity == ErrorSeverity::HIGH,
    {
        let mut m = crate::text::string_of("Overflow occurred when performing ");
        crate::text::append_str(&mut m, op);
        crate::text::append_str(&mut m, " on ");
        crate::text::append_str(&mut m, t1.label().as_str());
        crate::text::append_str(&mut m, " and ");
        crate::text::append_str(&mut m, t2.label().as_str());
        crate::text::append_str(&mut m, ".");
        ComputationError::new(ErrorSeverity::HIGH, m, span)
    }
}

} // verus!
