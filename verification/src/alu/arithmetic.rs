use vstd::prelude::*;
use crate::alu::{float_is_finite, float_magnitude, sign_bit, invalid_float_message, mismatch_message, outcome, overflow_message, raised_at, FloatUnit, ALU};
use crate::alu::product::{decode_double, double_unit_exponent, double_units, lemma_exact_is_nearest, lemma_fields_of_magnitude, nearest_scaled, overflow_threshold, round_to_double, scaled};
use crate::errors::{ComputationError, ErrorSeverity};
use crate::span::Span;
use crate::text::{append_str, push_char};
use crate::types::{in_kind_range, kind_min, IntKind};
use crate::value::{int_parts, int_view, view_type, Value, ValueView};

verus! {

/// The five arithmetic operators.
#[derive(Clone, Copy, Debug, PartialEq, Eq, Structural)]
pub enum ArithOp {
    Add,
    Sub,
    Mul,
    Div,
    Rem,
}

/// The operator's name in messages.
pub open spec fn arith_label(op: ArithOp) -> Seq<char> {
    match op {
        ArithOp::Add => "addition"@,
        ArithOp::Sub => "subtraction"@,
        ArithOp::Mul => "multiplication"@,
        ArithOp::Div => "division"@,
        ArithOp::Rem => "modulo"@,
    }
}

/// Integer division rounding towards zero.
pub open spec fn trunc_div(x: int, d: int) -> int {
    if x == 0 {
        0
    } else if x > 0 && d > 0 {
        x / d
    } else if x < 0 && d < 0 {
        (x * -1) / (d * -1)
    } else if x < 0 {
        ((x * -1) / d) * -1
    } else {
        (x / (d * -1)) * -1
    }
}

/// The remainder of `trunc_div`: it has the sign of `x`.
pub open spec fn trunc_rem(x: int, d: int) -> int {
    if x == 0 {
        0
    } else if x > 0 && d > 0 {
        x % d
    } else if x < 0 && d < 0 {
        ((x * -1) % (d * -1)) * -1
    } else if x < 0 {
        ((x * -1) % d) * -1
    } else {
        x % (d * -1)
    }
}

/// The result of an integer operation on two values of kind `k`, or `None` where it
/// overflows: out of range, division by zero, or the remainder of the least value by -1.
pub open spec fn checked_result(op: ArithOp, k: IntKind, a: int, b: int) -> Option<int> {
    let r = match op {
        ArithOp::Add => a + b,
        ArithOp::Sub => a - b,
        ArithOp::Mul => a * b,
        ArithOp::Div => trunc_div(a, b),
        ArithOp::Rem => trunc_rem(a, b),
    };
    if (op == ArithOp::Div || op == ArithOp::Rem) && b == 0 {
        None
    } else if op == ArithOp::Rem && a == kind_min(k) && b == -1 {
        None
    } else if in_kind_range(k, r) {
        Some(r)
    } else {
        None
    }
}

/// What an arithmetic operator gives on two values that are not both doubles (and on two
/// doubles for `Rem`, which refuses them).
pub open spec fn arith_exact(op: ArithOp, v1: ValueView, v2: ValueView) -> Result<ValueView, Seq<char>> {
    match (int_parts(v1), int_parts(v2)) {
        (Some((k1, a)), Some((k2, b))) if k1 == k2 => match checked_result(op, k1, a, b) {
            Some(r) => Ok(int_view(k1, r)),
            None => Err(overflow_message(arith_label(op), view_type(v1), view_type(v2))),
        },
        _ => match (op, v1, v2) {
            (ArithOp::Add, ValueView::Str(a), ValueView::Str(b)) => Ok(ValueView::Str(a + b)),
            (ArithOp::Add, ValueView::Char(a), ValueView::Char(b)) => Ok(ValueView::Str(seq![a, b])),
            (ArithOp::Add, ValueView::Char(a), ValueView::Str(b)) => Ok(ValueView::Str(seq![a] + b)),
            (ArithOp::Add, ValueView::Str(a), ValueView::Char(b)) => Ok(ValueView::Str(a.push(b))),
            _ => Err(mismatch_message(arith_label(op), view_type(v1), view_type(v2))),
        },
    }
}

/// A double operation is refused only where its result is not a finite double: for a
/// product of finite doubles, only where the exact product reaches the least magnitude
/// that rounds to infinity.
pub open spec fn float_error_owed(op: ArithOp, a: u64, b: u64) -> bool {
    match op {
        ArithOp::Mul => !(float_is_finite(a) && float_is_finite(b))
            || !(double_units(a) * double_units(b) * scaled(double_unit_exponent(a) + double_unit_exponent(b))
                < overflow_threshold()),
        _ => true,
    }
}

/// The bits of the double 1.0.
pub open spec fn one_bits() -> u64 {
    0x3ff0_0000_0000_0000
}

/// The sign bit of the double `b` is set.
pub open spec fn float_sign(b: u64) -> bool {
    b >= sign_bit()
}

/// What holds of a double result `r` of `op` on the doubles `a` and `b`, whatever the host:
/// a sum of two doubles of one sign has that sign, and adding a negative zero gives the
/// other operand back; a difference of doubles of opposite signs has the sign of `a`, and
/// subtracting a positive zero gives `a` back; a product or a quotient has the sign bit of
/// `a` exclusive-or that of `b`; multiplying by one and dividing by one give the other
/// operand back; a zero times, or over, a finite double (a non-zero one for a quotient) is
/// a zero.
pub open spec fn float_result_fits(op: ArithOp, a: u64, b: u64, r: u64) -> bool {
    match op {
        ArithOp::Add => {
            &&& float_sign(a) == float_sign(b) ==> float_sign(r) == float_sign(a)
            &&& b == sign_bit() ==> r == a
            &&& a == sign_bit() ==> r == b
        },
        ArithOp::Sub => {
            &&& float_sign(a) != float_sign(b) ==> float_sign(r) == float_sign(a)
            &&& b == 0 ==> r == a
        },
        ArithOp::Mul => {
            &&& float_is_finite(a) && float_is_finite(b) ==> (
                (float_is_finite(r) <==> double_units(a) * double_units(b)
                    * scaled(double_unit_exponent(a) + double_unit_exponent(b)) < overflow_threshold())
                && (float_is_finite(r) ==> nearest_scaled(r, double_units(a) * double_units(b),
                    double_unit_exponent(a) + double_unit_exponent(b))))
            &&& float_sign(r) == (float_sign(a) != float_sign(b))
            &&& b == one_bits() ==> r == a
            &&& a == one_bits() ==> r == b
            &&& (float_magnitude(a) == 0 && float_is_finite(b)) || (float_magnitude(b) == 0 && float_is_finite(a))
                ==> float_magnitude(r) == 0
        },
        ArithOp::Div => {
            &&& float_sign(r) == (float_sign(a) != float_sign(b))
            &&& b == one_bits() ==> r == a
            &&& float_magnitude(a) == 0 && float_is_finite(b) && float_magnitude(b) != 0 ==> float_magnitude(r) == 0
        },
        _ => true,
    }
}

/// Whether `out` is what an arithmetic operator may give on `v1` and `v2`. On two doubles
/// (other than for `Rem`) the host computes the double; a finite result is the value, an
/// infinite or NaN one is refused.
pub open spec fn arith_outcome_ok(
    op: ArithOp,
    v1: ValueView,
    v2: ValueView,
    out: Result<ValueView, Seq<char>>,
) -> bool {
    if v1 is F64 && v2 is F64 && op != ArithOp::Rem {
        match out {
            Ok(ValueView::F64(r)) => float_is_finite(r) && float_result_fits(op, v1->F64_0, v2->F64_0, r),
            Ok(_) => false,
            Err(m) => m == invalid_float_message(arith_label(op)) && float_error_owed(op, v1->F64_0, v2->F64_0),
        }
    } else {
        out == arith_exact(op, v1, v2)
    }
}

proof fn lemma_trunc_rem_bound(x: int, d: int)
    requires
        d != 0,
    ensures
        -d < trunc_rem(x, d) < d || d < trunc_rem(x, d) < -d,
        x >= 0 ==> trunc_rem(x, d) >= 0,
        x <= 0 ==> trunc_rem(x, d) <= 0,
{
    if x > 0 && d > 0 {
        assert(0 <= x % d < d) by (nonlinear_arith) requires x > 0, d > 0;
    } else if x < 0 && d < 0 {
        assert(0 <= (x * -1) % (d * -1) < d * -1) by (nonlinear_arith) requires x < 0, d < 0;
    } else if x < 0 && d > 0 {
        assert(0 <= (x * -1) % d < d) by (nonlinear_arith) requires x < 0, d > 0;
    } else if x > 0 && d < 0 {
        assert(0 <= x % (d * -1) < d * -1) by (nonlinear_arith) requires x > 0, d < 0;
    }
}

proof fn lemma_trunc_rem_natural(x: int, d: int)
    requires
        x >= 0,
        d > 0,
    ensures
        trunc_rem(x, d) == x % d,
{
    if x == 0 {
        assert(0int % d == 0) by (nonlinear_arith) requires d > 0;
    }
}

impl ALU {
    /// The result of an integer operation, or the overflow error where there is none.
    pub fn check_int_operation(
        val1: &Value,
        val2: &Value,
        result: Option<Value>,
        op_name: &str,
        span: Span,
    ) -> (r: Result<Value, ComputationError>)
        ensures
            match result {
                Some(v) => r matches Ok(w) && w@ == v@,
                None => r matches Err(e) && e.message@ == overflow_message(op_name@, view_type(val1@), view_type(val2@)),
            },
            raised_at(r, span),
    {
        match result {
            Some(v) => Ok(v),
            None => Err(Self::overflow_error(op_name, &val1.to_type(), &val2.to_type(), span)),
        }
    }

    /// `r` with its sign bit set exactly when `negative`.
    pub fn with_sign(r: u64, negative: bool) -> (s: u64)
        ensures
            float_magnitude(s) == float_magnitude(r),
            float_sign(s) == negative,
    {
        let magnitude = if r >= 0x8000_0000_0000_0000u64 { r - 0x8000_0000_0000_0000u64 } else { r };
        if negative { magnitude + 0x8000_0000_0000_0000u64 } else { magnitude }
    }

    /// The sum of two doubles: the host's, with the sign of the operands when they share
    /// one; adding a negative zero is known without the host.
    pub fn float_sum<F: FloatUnit>(a: u64, b: u64, fpu: &F) -> (r: u64)
        ensures
            float_result_fits(ArithOp::Add, a, b, r),
    {
        if b == 0x8000_0000_0000_0000u64 {
            a
        } else if a == 0x8000_0000_0000_0000u64 {
            b
        } else {
            let negative = a >= 0x8000_0000_0000_0000u64;
            let r = fpu.add(a, b);
            if negative == (b >= 0x8000_0000_0000_0000u64) { Self::with_sign(r, negative) } else { r }
        }
    }

    /// The difference of two doubles: the host's, with the sign of `a` when the operands'
    /// signs differ; subtracting a positive zero is known without the host.
    pub fn float_difference<F: FloatUnit>(a: u64, b: u64, fpu: &F) -> (r: u64)
        ensures
            float_result_fits(ArithOp::Sub, a, b, r),
    {
        if b == 0 {
            a
        } else {
            let negative = a >= 0x8000_0000_0000_0000u64;
            let r = fpu.sub(a, b);
            if negative != (b >= 0x8000_0000_0000_0000u64) { Self::with_sign(r, negative) } else { r }
        }
    }

    /// A finite double times one is nearest to itself and finite.
    proof fn lemma_times_one(a: u64)
        requires
            float_is_finite(a),
        ensures
            float_is_finite(a) <==> double_units(a) * double_units(0x3ff0_0000_0000_0000u64)
                * scaled(double_unit_exponent(a) + double_unit_exponent(0x3ff0_0000_0000_0000u64)) < overflow_threshold(),
            nearest_scaled(a, double_units(a) * double_units(0x3ff0_0000_0000_0000u64),
                double_unit_exponent(a) + double_unit_exponent(0x3ff0_0000_0000_0000u64)),
            nearest_scaled(a, double_units(0x3ff0_0000_0000_0000u64) * double_units(a),
                double_unit_exponent(0x3ff0_0000_0000_0000u64) + double_unit_exponent(a)),
            float_is_finite(a) <==> double_units(0x3ff0_0000_0000_0000u64) * double_units(a)
                * scaled(double_unit_exponent(0x3ff0_0000_0000_0000u64) + double_unit_exponent(a)) < overflow_threshold(),
    {
        lemma_fields_of_magnitude(a);
        lemma_fields_of_magnitude(0x3ff0_0000_0000_0000u64);
        assert(double_units(0x3ff0_0000_0000_0000u64) == 0x10_0000_0000_0000);
        assert(double_unit_exponent(0x3ff0_0000_0000_0000u64) == -52);
        let m = double_units(a);
        let x = double_unit_exponent(a);
        crate::alu::product::lemma_scaled_adds_pub(x - 52, 52);
        vstd::arithmetic::power2::lemma2_to64();
        vstd::arithmetic::power2::lemma2_to64_rest();
        assert(m * 0x10_0000_0000_0000 * scaled(x - 52) == m * scaled(x)) by (nonlinear_arith)
            requires scaled(x) == vstd::arithmetic::power2::pow2(52) * scaled(x - 52),
                vstd::arithmetic::power2::pow2(52) == 0x10_0000_0000_0000;
        assert(0x10_0000_0000_0000 * m == m * 0x10_0000_0000_0000);
        assert(m >= 0) by {
            vstd::arithmetic::div_mod::lemma_mod_pos_bound(a as int, 0x10_0000_0000_0000);
        }
        lemma_exact_is_nearest(a, m * 0x10_0000_0000_0000, x - 52);
    }

    /// A zero is the double nearest to nothing.
    proof fn lemma_zero_nearest(r: u64, p: int, k: int)
        requires
            float_magnitude(r) == 0,
            p == 0,
            -2148 <= k,
        ensures
            float_is_finite(r),
            nearest_scaled(r, p, k),
            p * scaled(k) < overflow_threshold(),
    {
        lemma_fields_of_magnitude(r);
        crate::alu::product::lemma_scaled_adds_pub(-1074, 0);
        crate::alu::product::lemma_scaled_adds_pub(970, 0);
        assert(0 * scaled(-1074) == 0);
    }

    /// The product of two doubles: the host's, with the sign the operands give; by one and
    /// by a zero it is known without the host.
    pub fn float_product<F: FloatUnit>(a: u64, b: u64, fpu: &F) -> (r: u64)
        ensures
            float_result_fits(ArithOp::Mul, a, b, r),
    {
        let negative = (a >= 0x8000_0000_0000_0000u64) != (b >= 0x8000_0000_0000_0000u64);
        let a_zero = a == 0 || a == 0x8000_0000_0000_0000u64;
        let b_zero = b == 0 || b == 0x8000_0000_0000_0000u64;
        proof {
            lemma_fields_of_magnitude(a);
            lemma_fields_of_magnitude(b);
            lemma_fields_of_magnitude(0x3ff0_0000_0000_0000u64);
        }
        if b == 0x3ff0_0000_0000_0000u64 {
            proof {
                if float_is_finite(a) {
                    Self::lemma_times_one(a);
                }
            }
            a
        } else if a == 0x3ff0_0000_0000_0000u64 {
            proof {
                if float_is_finite(b) {
                    Self::lemma_times_one(b);
                }
            }
            b
        } else if !crate::alu::is_finite_bits(a) || !crate::alu::is_finite_bits(b) {
            Self::with_sign(fpu.mul(a, b), negative)
        } else if a_zero || b_zero {
            let r = Self::with_sign(0, negative);
            proof {
                lemma_fields_of_magnitude(r);
                lemma_fields_of_magnitude(0);
                if a_zero {
                    assert(double_units(a) == 0);
                } else {
                    assert(double_units(b) == 0);
                }
                let ua = double_units(a);
                let ub = double_units(b);
                assert(ua * ub == 0) by (nonlinear_arith) requires ua == 0 || ub == 0;
                Self::lemma_zero_nearest(r, double_units(a) * double_units(b), double_unit_exponent(a) + double_unit_exponent(b));
            }
            r
        } else {
            let (ma, xa) = decode_double(a);
            let (mb, xb) = decode_double(b);
            proof {
                assert(ma >= 1 && mb >= 1);
                assert(ma * mb < 0x400_0000_0000_0000_0000_0000_0000) by (nonlinear_arith)
                    requires ma < 0x20_0000_0000_0000, mb < 0x20_0000_0000_0000;
                assert(ma * mb >= 1) by (nonlinear_arith) requires ma >= 1, mb >= 1;
            }
            let r0 = round_to_double(ma * mb, xa + xb);
            let r = Self::with_sign(r0, negative);
            proof {
                lemma_fields_of_magnitude(r);
                lemma_fields_of_magnitude(r0);
            }
            r
        }
    }

    /// The quotient of two doubles: the host's, with the sign the operands give; over one
    /// and of a zero it is known without the host.
    pub fn float_quotient<F: FloatUnit>(a: u64, b: u64, fpu: &F) -> (r: u64)
        ensures
            float_result_fits(ArithOp::Div, a, b, r),
    {
        let negative = (a >= 0x8000_0000_0000_0000u64) != (b >= 0x8000_0000_0000_0000u64);
        let a_zero = a == 0 || a == 0x8000_0000_0000_0000u64;
        let b_zero = b == 0 || b == 0x8000_0000_0000_0000u64;
        if b == 0x3ff0_0000_0000_0000u64 {
            a
        } else if a_zero && crate::alu::is_finite_bits(b) && !b_zero {
            Self::with_sign(0, negative)
        } else {
            Self::with_sign(fpu.div(a, b), negative)
        }
    }

    /// The double the host computed, refused when it is infinite or NaN.
    pub fn check_float_operation(result: u64, op_name: &str, span: Span) -> (r: Result<Value, ComputationError>)
        ensures
            float_is_finite(result) ==> (r matches Ok(v) && v@ == ValueView::F64(result)),
            !float_is_finite(result) ==> (r matches Err(e) && e.message@ == invalid_float_message(op_name@)),
            raised_at(r, span),
    {
        if crate::alu::is_finite_bits(result) {
            Ok(Value::F64(result))
        } else {
            let mut m = crate::text::string_of("Invalid result when performing ");
            append_str(&mut m, op_name);
            append_str(&mut m, " on f64s.");
            Err(ComputationError::new(ErrorSeverity::HIGH, m, span))
        }
    }


    /// The `addition` operator.
    pub fn add<F: FloatUnit>(val1: Value, val2: Value, span: Span, fpu: &F) -> (r: Result<Value, ComputationError>)
        ensures
            arith_outcome_ok(ArithOp::Add, val1@, val2@, outcome(r)),
            raised_at(r, span),
    {
        match (&val1, &val2) {
            (Value::I8(a), Value::I8(b)) => Self::check_int_operation(
                &val1,
                &val2,
                match a.checked_add(*b) {
                    Some(x) => Some(Value::I8(x)),
                    None => None,
                },
                "addition",
                span,
            ),
            (Value::I16(a), Value::I16(b)) => Self::check_int_operation(
                &val1,
                &val2,
                match a.checked_add(*b) {
                    Some(x) => Some(Value::I16(x)),
                    None => None,
                },
                "addition",
                span,
            ),
            (Value::I32(a), Value::I32(b)) => Self::check_int_operation(
                &val1,
                &val2,
                match a.checked_add(*b) {
                    Some(x) => Some(Value::I32(x)),
                    None => None,
                },
                "addition",
                span,
            ),
            (Value::I64(a), Value::I64(b)) => Self::check_int_operation(
                &val1,
                &val2,
                match a.checked_add(*b) {
                    Some(x) => Some(Value::I64(x)),
                    None => None,
                },
                "addition",
                span,
            ),
            (Value::U8(a), Value::U8(b)) => Self::check_int_operation(
                &val1,
                &val2,
                match a.checked_add(*b) {
                    Some(x) => Some(Value::U8(x)),
                    None => None,
                },
                "addition",
                span,
            ),
            (Value::U16(a), Value::U16(b)) => Self::check_int_operation(
                &val1,
                &val2,
                match a.checked_add(*b) {
                    Some(x) => Some(Value::U16(x)),
                    None => None,
                },
                "addition",
                span,
            ),
            (Value::U32(a), Value::U32(b)) => Self::check_int_operation(
                &val1,
                &val2,
                match a.checked_add(*b) {
                    Some(x) => Some(Value::U32(x)),
                    None => None,
                },
                "addition",
                span,
            ),
            (Value::U64(a), Value::U64(b)) => Self::check_int_operation(
                &val1,
                &val2,
                match a.checked_add(*b) {
                    Some(x) => Some(Value::U64(x)),
                    None => None,
                },
                "addition",
                span,
            ),
            (Value::F64(a), Value::F64(b)) => Self::check_float_operation(Self::float_sum(*a, *b, fpu), "addition", span),
            (Value::String(a), Value::String(b)) => {
                let mut s = a.clone();
                append_str(&mut s, b.as_str());
                Ok(Value::String(s))
            },
            (Value::Char(a), Value::Char(b)) => {
                let mut s = String::new();
                push_char(&mut s, *a);
                push_char(&mut s, *b);
                assert(s@ =~= seq![*a, *b]);
                Ok(Value::String(s))
            },
            (Value::Char(a), Value::String(b)) => {
                let mut s = String::new();
                push_char(&mut s, *a);
                append_str(&mut s, b.as_str());
                assert(s@ =~= seq![*a] + b@);
                Ok(Value::String(s))
            },
            (Value::String(a), Value::Char(b)) => {
                let mut s = a.clone();
                push_char(&mut s, *b);
                Ok(Value::String(s))
            },
            _ => Err(Self::mismatch_error("addition", &val1.to_type(), &val2.to_type(), span)),
        }
    }


    /// The `subtraction` operator.
    pub fn subtract<F: FloatUnit>(val1: Value, val2: Value, span: Span, fpu: &F) -> (r: Result<Value, ComputationError>)
        ensures
            arith_outcome_ok(ArithOp::Sub, val1@, val2@, outcome(r)),
            raised_at(r, span),
    {
        match (&val1, &val2) {
            (Value::I8(a), Value::I8(b)) => Self::check_int_operation(
                &val1,
                &val2,
                match a.checked_sub(*b) {
                    Some(x) => Some(Value::I8(x)),
                    None => None,
                },
                "subtraction",
                span,
            ),
            (Value::I16(a), Value::I16(b)) => Self::check_int_operation(
                &val1,
                &val2,
                match a.checked_sub(*b) {
                    Some(x) => Some(Value::I16(x)),
                    None => None,
                },
                "subtraction",
                span,
            ),
            (Value::I32(a), Value::I32(b)) => Self::check_int_operation(
                &val1,
                &val2,
                match a.checked_sub(*b) {
                    Some(x) => Some(Value::I32(x)),
                    None => None,
                },
                "subtraction",
                span,
            ),
            (Value::I64(a), Value::I64(b)) => Self::check_int_operation(
                &val1,
                &val2,
                match a.checked_sub(*b) {
                    Some(x) => Some(Value::I64(x)),
                    None => None,
                },
                "subtraction",
                span,
            ),
            (Value::U8(a), Value::U8(b)) => Self::check_int_operation(
                &val1,
                &val2,
                match a.checked_sub(*b) {
                    Some(x) => Some(Value::U8(x)),
                    None => None,
                },
                "subtraction",
                span,
            ),
            (Value::U16(a), Value::U16(b)) => Self::check_int_operation(
                &val1,
                &val2,
                match a.checked_sub(*b) {
                    Some(x) => Some(Value::U16(x)),
                    None => None,
                },
                "subtraction",
                span,
            ),
            (Value::U32(a), Value::U32(b)) => Self::check_int_operation(
                &val1,
                &val2,
                match a.checked_sub(*b) {
                    Some(x) => Some(Value::U32(x)),
                    None => None,
                },
                "subtraction",
                span,
            ),
            (Value::U64(a), Value::U64(b)) => Self::check_int_operation(
                &val1,
                &val2,
                match a.checked_sub(*b) {
                    Some(x) => Some(Value::U64(x)),
                    None => None,
                },
                "subtraction",
                span,
            ),
            (Value::F64(a), Value::F64(b)) => Self::check_float_operation(Self::float_difference(*a, *b, fpu), "subtraction", span),
            _ => Err(Self::mismatch_error("subtraction", &val1.to_type(), &val2.to_type(), span)),
        }
    }


    /// The `multiplication` operator.
    pub fn multiplication<F: FloatUnit>(val1: Value, val2: Value, span: Span, fpu: &F) -> (r: Result<Value, ComputationError>)
        ensures
            arith_outcome_ok(ArithOp::Mul, val1@, val2@, outcome(r)),
            raised_at(r, span),
    {
        match (&val1, &val2) {
            (Value::I8(a), Value::I8(b)) => Self::check_int_operation(
                &val1,
                &val2,
                match a.checked_mul(*b) {
                    Some(x) => Some(Value::I8(x)),
                    None => None,
                },
                "multiplication",
                span,
            ),
            (Value::I16(a), Value::I16(b)) => Self::check_int_operation(
                &val1,
                &val2,
                match a.checked_mul(*b) {
                    Some(x) => Some(Value::I16(x)),
                    None => None,
                },
                "multiplication",
                span,
            ),
            (Value::I32(a), Value::I32(b)) => Self::check_int_operation(
                &val1,
                &val2,
                match a.checked_mul(*b) {
                    Some(x) => Some(Value::I32(x)),
                    None => None,
                },
                "multiplication",
                span,
            ),
            (Value::I64(a), Value::I64(b)) => Self::check_int_operation(
                &val1,
                &val2,
                match a.checked_mul(*b) {
                    Some(x) => Some(Value::I64(x)),
                    None => None,
                },
                "multiplication",
                span,
            ),
            (Value::U8(a), Value::U8(b)) => Self::check_int_operation(
                &val1,
                &val2,
                match a.checked_mul(*b) {
                    Some(x) => Some(Value::U8(x)),
                    None => None,
                },
                "multiplication",
                span,
            ),
            (Value::U16(a), Value::U16(b)) => Self::check_int_operation(
                &val1,
                &val2,
                match a.checked_mul(*b) {
                    Some(x) => Some(Value::U16(x)),
                    None => None,
                },
                "multiplication",
                span,
            ),
            (Value::U32(a), Value::U32(b)) => Self::check_int_operation(
                &val1,
                &val2,
                match a.checked_mul(*b) {
                    Some(x) => Some(Value::U32(x)),
                    None => None,
                },
                "multiplication",
                span,
            ),
            (Value::U64(a), Value::U64(b)) => Self::check_int_operation(
                &val1,
                &val2,
                match a.checked_mul(*b) {
                    Some(x) => Some(Value::U64(x)),
                    None => None,
                },
                "multiplication",
                span,
            ),
            (Value::F64(a), Value::F64(b)) => Self::check_float_operation(Self::float_product(*a, *b, fpu), "multiplication", span),
            _ => Err(Self::mismatch_error("multiplication", &val1.to_type(), &val2.to_type(), span)),
        }
    }


    /// The `division` operator.
    pub fn division<F: FloatUnit>(val1: Value, val2: Value, span: Span, fpu: &F) -> (r: Result<Value, ComputationError>)
        ensures
            arith_outcome_ok(ArithOp::Div, val1@, val2@, outcome(r)),
            raised_at(r, span),
    {
        match (&val1, &val2) {
            (Value::I8(a), Value::I8(b)) => Self::check_int_operation(
                &val1,
                &val2,
                match a.checked_div(*b) {
                    Some(x) => Some(Value::I8(x)),
                    None => None,
                },
                "division",
                span,
            ),
            (Value::I16(a), Value::I16(b)) => Self::check_int_operation(
                &val1,
                &val2,
                match a.checked_div(*b) {
                    Some(x) => Some(Value::I16(x)),
                    None => None,
                },
                "division",
                span,
            ),
            (Value::I32(a), Value::I32(b)) => Self::check_int_operation(
                &val1,
                &val2,
                match a.checked_div(*b) {
                    Some(x) => Some(Value::I32(x)),
                    None => None,
                },
                "division",
                span,
            ),
            (Value::I64(a), Value::I64(b)) => Self::check_int_operation(
                &val1,
                &val2,
                match a.checked_div(*b) {
                    Some(x) => Some(Value::I64(x)),
                    None => None,
                },
                "division",
                span,
            ),
            (Value::U8(a), Value::U8(b)) => Self::check_int_operation(
                &val1,
                &val2,
                match a.checked_div(*b) {
                    Some(x) => Some(Value::U8(x)),
                    None => None,
                },
                "division",
                span,
            ),
            (Value::U16(a), Value::U16(b)) => Self::check_int_operation(
                &val1,
                &val2,
                match a.checked_div(*b) {
                    Some(x) => Some(Value::U16(x)),
                    None => None,
                },
                "division",
                span,
            ),
            (Value::U32(a), Value::U32(b)) => Self::check_int_operation(
                &val1,
                &val2,
                match a.checked_div(*b) {
                    Some(x) => Some(Value::U32(x)),
                    None => None,
                },
                "division",
                span,
            ),
            (Value::U64(a), Value::U64(b)) => Self::check_int_operation(
                &val1,
                &val2,
                match a.checked_div(*b) {
                    Some(x) => Some(Value::U64(x)),
                    None => None,
                },
                "division",
                span,
            ),
            (Value::F64(a), Value::F64(b)) => Self::check_float_operation(Self::float_quotient(*a, *b, fpu), "division", span),
            _ => Err(Self::mismatch_error("division", &val1.to_type(), &val2.to_type(), span)),
        }
    }


    /// The `modulo` operator.
    pub fn modulo<F: FloatUnit>(val1: Value, val2: Value, span: Span, fpu: &F) -> (r: Result<Value, ComputationError>)
        ensures
            arith_outcome_ok(ArithOp::Rem, val1@, val2@, outcome(r)),
            raised_at(r, span),
    {
        match (&val1, &val2) {
            (Value::I8(a), Value::I8(b)) if *b != 0 => {
                proof {
                    lemma_trunc_rem_bound(*a as int, *b as int);
                    
                }
                Self::check_int_operation(
                    &val1,
                    &val2,
                    match a.checked_rem(*b) {
                        Some(x) => Some(Value::I8(x)),
                        None => None,
                    },
                    "modulo",
                    span,
                )
            },
            (Value::I8(a), Value::I8(b)) => Self::check_int_operation(
                &val1,
                &val2,
                match a.checked_rem(*b) {
                    Some(x) => Some(Value::I8(x)),
                    None => None,
                },
                "modulo",
                span,
            ),
            (Value::I16(a), Value::I16(b)) if *b != 0 => {
                proof {
                    lemma_trunc_rem_bound(*a as int, *b as int);
                    
                }
                Self::check_int_operation(
                    &val1,
                    &val2,
                    match a.checked_rem(*b) {
                        Some(x) => Some(Value::I16(x)),
                        None => None,
                    },
                    "modulo",
                    span,
                )
            },
            (Value::I16(a), Value::I16(b)) => Self::check_int_operation(
                &val1,
                &val2,
                match a.checked_rem(*b) {
                    Some(x) => Some(Value::I16(x)),
                    None => None,
                },
                "modulo",
                span,
            ),
            (Value::I32(a), Value::I32(b)) if *b != 0 => {
                proof {
                    lemma_trunc_rem_bound(*a as int, *b as int);
                    
                }
                Self::check_int_operation(
                    &val1,
                    &val2,
                    match a.checked_rem(*b) {
                        Some(x) => Some(Value::I32(x)),
                        None => None,
                    },
                    "modulo",
                    span,
                )
            },
            (Value::I32(a), Value::I32(b)) => Self::check_int_operation(
                &val1,
                &val2,
                match a.checked_rem(*b) {
                    Some(x) => Some(Value::I32(x)),
                    None => None,
                },
                "modulo",
                span,
            ),
            (Value::I64(a), Value::I64(b)) if *b != 0 => {
                proof {
                    lemma_trunc_rem_bound(*a as int, *b as int);
                    
                }
                Self::check_int_operation(
                    &val1,
                    &val2,
                    match a.checked_rem(*b) {
                        Some(x) => Some(Value::I64(x)),
                        None => None,
                    },
                    "modulo",
                    span,
                )
            },
            (Value::I64(a), Value::I64(b)) => Self::check_int_operation(
                &val1,
                &val2,
                match a.checked_rem(*b) {
                    Some(x) => Some(Value::I64(x)),
                    None => None,
                },
                "modulo",
                span,
            ),
            (Value::U8(a), Value::U8(b)) if *b != 0 => {
                proof {
                    lemma_trunc_rem_bound(*a as int, *b as int);
                    lemma_trunc_rem_natural(*a as int, *b as int);
                }
                Self::check_int_operation(
                    &val1,
                    &val2,
                    match a.checked_rem(*b) {
                        Some(x) => Some(Value::U8(x)),
                        None => None,
                    },
                    "modulo",
                    span,
                )
            },
            (Value::U8(a), Value::U8(b)) => Self::check_int_operation(
                &val1,
                &val2,
                match a.checked_rem(*b) {
                    Some(x) => Some(Value::U8(x)),
                    None => None,
                },
                "modulo",
                span,
            ),
            (Value::U16(a), Value::U16(b)) if *b != 0 => {
                proof {
                    lemma_trunc_rem_bound(*a as int, *b as int);
                    lemma_trunc_rem_natural(*a as int, *b as int);
                }
                Self::check_int_operation(
                    &val1,
                    &val2,
                    match a.checked_rem(*b) {
                        Some(x) => Some(Value::U16(x)),
                        None => None,
                    },
                    "modulo",
                    span,
                )
            },
            (Value::U16(a), Value::U16(b)) => Self::check_int_operation(
                &val1,
                &val2,
                match a.checked_rem(*b) {
                    Some(x) => Some(Value::U16(x)),
                    None => None,
                },
                "modulo",
                span,
            ),
            (Value::U32(a), Value::U32(b)) if *b != 0 => {
                proof {
                    lemma_trunc_rem_bound(*a as int, *b as int);
                    lemma_trunc_rem_natural(*a as int, *b as int);
                }
                Self::check_int_operation(
                    &val1,
                    &val2,
                    match a.checked_rem(*b) {
                        Some(x) => Some(Value::U32(x)),
                        None => None,
                    },
                    "modulo",
                    span,
                )
            },
            (Value::U32(a), Value::U32(b)) => Self::check_int_operation(
                &val1,
                &val2,
                match a.checked_rem(*b) {
                    Some(x) => Some(Value::U32(x)),
                    None => None,
                },
                "modulo",
                span,
            ),
            (Value::U64(a), Value::U64(b)) if *b != 0 => {
                proof {
                    lemma_trunc_rem_bound(*a as int, *b as int);
                    lemma_trunc_rem_natural(*a as int, *b as int);
                }
                Self::check_int_operation(
                    &val1,
                    &val2,
                    match a.checked_rem(*b) {
                        Some(x) => Some(Value::U64(x)),
                        None => None,
                    },
                    "modulo",
                    span,
                )
            },
            (Value::U64(a), Value::U64(b)) => Self::check_int_operation(
                &val1,
                &val2,
                match a.checked_rem(*b) {
                    Some(x) => Some(Value::U64(x)),
                    None => None,
                },
                "modulo",
                span,
            ),
            _ => Err(Self::mismatch_error("modulo", &val1.to_type(), &val2.to_type(), span)),
        }
    }

}

} // verus!
