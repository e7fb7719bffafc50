use vstd::prelude::*;
use crate::alu::double::{double_trunc, int_to_double, nearest_double, trunc_double};
use crate::alu::{float_magnitude, float_eq, float_equal, float_less, float_lt, is_finite_bits, float_is_finite, outcome, raised_at, FloatUnit, ALU};
use crate::errors::{ComputationError, ErrorSeverity};
use crate::span::Span;
use crate::text::{append_str, decimal, format_signed, parse_int, parse_int_spec, push_char, string_of};
use crate::types::{in_kind_range, is_signed_kind, kind_max, kind_min, type_int_kind, type_label, IntKind, Type};
use crate::value::{int_parts, int_view, view_type, Value, ValueView};

verus! {

/// "Cannot cast '<value>' to '<target>'."
pub open spec fn invalid_cast_message(value: Seq<char>, target: Seq<char>) -> Seq<char> {
    "Cannot cast '"@ + value + "' to '"@ + target + "'."@
}

/// "Cannot cast String '<value>' to '<target>'."
pub open spec fn invalid_string_cast_message(value: Seq<char>, target: Seq<char>) -> Seq<char> {
    "Cannot cast String '"@ + value + "' to '"@ + target + "'."@
}

/// A cast refusal for a value whose text the host renders (a double).
pub open spec fn is_cast_refusal(m: Seq<char>, t: Type) -> bool {
    exists|shown: Seq<char>| m == invalid_cast_message(shown, type_label(t))
}

/// The bit pattern of the least double a double may be to be cast to kind `k`.
pub open spec fn cast_low_bits(k: IntKind) -> u64 {
    match k {
        IntKind::I8 => 0xc060_0000_0000_0000u64,
        IntKind::I16 => 0xc0e0_0000_0000_0000u64,
        IntKind::I32 => 0xc1e0_0000_0000_0000u64,
        IntKind::I64 => 0xc3e0_0000_0000_0000u64,
        _ => 0u64,
    }
}

/// The bit pattern of the greatest double a double may be to be cast to kind `k`: the
/// kind's greatest value as a double (rounded up for `i64` and `u64`).
pub open spec fn cast_high_bits(k: IntKind) -> u64 {
    match k {
        IntKind::I8 => 0x405f_c000_0000_0000u64,
        IntKind::I16 => 0x40df_ffc0_0000_0000u64,
        IntKind::I32 => 0x41df_ffff_ffc0_0000u64,
        IntKind::I64 => 0x43e0_0000_0000_0000u64,
        IntKind::U8 => 0x406f_e000_0000_0000u64,
        IntKind::U16 => 0x40ef_ffe0_0000_0000u64,
        IntKind::U32 => 0x41ef_ffff_ffe0_0000u64,
        IntKind::U64 => 0x43f0_0000_0000_0000u64,
    }
}

/// A double that may be cast to kind `k`: finite, and between the kind's bounds.
pub open spec fn float_castable(k: IntKind, b: u64) -> bool {
    &&& float_is_finite(b)
    &&& (float_lt(cast_low_bits(k), b) || float_eq(b, cast_low_bits(k)))
    &&& (float_lt(b, cast_high_bits(k)) || float_eq(b, cast_high_bits(k)))
}

/// `x` held to the range of kind `k`.
pub open spec fn clamp_to_kind(k: IntKind, x: int) -> int {
    if x < kind_min(k) { kind_min(k) } else if x > kind_max(k) { kind_max(k) } else { x }
}

/// A double that may be cast to an integer kind has magnitude at most 2^64.
proof fn lemma_castable_magnitude(k: IntKind, b: u64)
    requires
        float_castable(k, b),
    ensures
        float_magnitude(b) <= 0x43f0_0000_0000_0000,
{
}

/// How a value is shown in the message of a refused cast (doubles are shown by the host).
pub open spec fn shown(v: ValueView) -> Seq<char> {
    match v {
        ValueView::Str(s) => s,
        ValueView::Bool(b) => if b { "true"@ } else { "false"@ },
        ValueView::Char(c) => seq![c],
        ValueView::Vector { kind, .. } => type_label(kind),
        _ => match int_parts(v) {
            Some((_, x)) => decimal(x),
            None => Seq::empty(),
        },
    }
}

/// What a cast gives where it does not depend on the host's arithmetic on doubles.
pub open spec fn cast_exact(v: ValueView, t: Type) -> Result<ValueView, Seq<char>> {
    match int_parts(v) {
        Some((k, x)) => match t {
            Type::Str => Ok(ValueView::Str(decimal(x))),
            Type::Bool => Ok(ValueView::Bool(x > 0)),
            Type::Char if k == IntKind::U8 => Ok(ValueView::Char((x as u8) as char)),
            _ => match type_int_kind(t) {
                Some(k2) => if in_kind_range(k2, x) {
                    Ok(int_view(k2, x))
                } else {
                    Err(invalid_cast_message(decimal(x), type_label(t)))
                },
                None => Err(invalid_cast_message(decimal(x), type_label(t))),
            },
        },
        None => match (v, t) {
            (ValueView::F64(b), Type::Bool) => Ok(ValueView::Bool(float_lt(0u64, b))),
            (ValueView::Str(s), _) if type_int_kind(t) is Some => {
                let k = type_int_kind(t).unwrap();
                match parse_int_spec(s, is_signed_kind(k)) {
                    Some(x) if in_kind_range(k, x) => Ok(int_view(k, x)),
                    _ => Err(invalid_string_cast_message(s, type_label(t))),
                }
            },
            (ValueView::Str(s), Type::Bool) => Ok(ValueView::Bool(s.len() > 0)),
            (ValueView::Bool(b), Type::Str) => Ok(ValueView::Str(if b { "true"@ } else { "false"@ })),
            (ValueView::Bool(b), _) if type_int_kind(t) is Some => Ok(int_view(type_int_kind(t).unwrap(), if b { 1 } else { 0 })),
            (ValueView::Bool(b), Type::F64) => Ok(ValueView::F64(if b { 0x3ff0_0000_0000_0000u64 } else { 0u64 })),
            (ValueView::Char(c), Type::U8) => Ok(ValueView::U8(c as u8)),
            (ValueView::Char(c), Type::Str) => Ok(ValueView::Str(seq![c])),
            _ => if view_type(v) == t {
                Ok(v)
            } else {
                Err(invalid_cast_message(shown(v), type_label(t)))
            },
        },
    }
}

/// Whether `out` is what casting `v` to `t` may give. Where the host computes on doubles
/// (integer to double, double to text or to an integer, text to double), the kind of the
/// result is fixed and the host's number is taken as it comes.
pub open spec fn cast_outcome_ok(v: ValueView, t: Type, out: Result<ValueView, Seq<char>>) -> bool {
    match (v, t) {
        (ValueView::F64(b), Type::Str) => out matches Ok(ValueView::Str(_)),
        (ValueView::F64(b), _) if type_int_kind(t) is Some => {
            let k = type_int_kind(t).unwrap();
            if float_castable(k, b) {
                out matches Ok(w) && int_parts(w) == Some((k, clamp_to_kind(k, double_trunc(b))))
            } else {
                out matches Err(m) && is_cast_refusal(m, t)
            }
        },
        (ValueView::F64(b), Type::Char) => out matches Err(m) && is_cast_refusal(m, t),
        (ValueView::F64(b), Type::Void) => out matches Err(m) && is_cast_refusal(m, t),
        (ValueView::F64(b), Type::Vector(_)) => out matches Err(m) && is_cast_refusal(m, t),
        (ValueView::F64(b), Type::Struct(_)) => out matches Err(m) && is_cast_refusal(m, t),
        (ValueView::Str(s), Type::F64) => out matches Ok(ValueView::F64(_))
            || out == Err::<ValueView, Seq<char>>(invalid_string_cast_message(s, "f64"@)),
        (_, Type::F64) if int_parts(v) is Some => out matches Ok(ValueView::F64(b))
            && nearest_double(b, int_parts(v).unwrap().1),
        _ => out == cast_exact(v, t),
    }
}

/// The integer kind and value of an integer value.
pub fn int_parts_of(v: &Value) -> (r: Option<(IntKind, i128)>)
    ensures
        match r {
            Some((k, x)) => int_parts(v@) == Some((k, x as int)),
            None => int_parts(v@) is None,
        },
{
    match v {
        Value::I8(x) => Some((IntKind::I8, *x as i128)),
        Value::I16(x) => Some((IntKind::I16, *x as i128)),
        Value::I32(x) => Some((IntKind::I32, *x as i128)),
        Value::I64(x) => Some((IntKind::I64, *x as i128)),
        Value::U8(x) => Some((IntKind::U8, *x as i128)),
        Value::U16(x) => Some((IntKind::U16, *x as i128)),
        Value::U32(x) => Some((IntKind::U32, *x as i128)),
        Value::U64(x) => Some((IntKind::U64, *x as i128)),
        _ => None,
    }
}

pub fn kind_bounds(k: IntKind) -> (r: (i128, i128))
    ensures
        r.0 == kind_min(k),
        r.1 == kind_max(k),
{
    match k {
        IntKind::I8 => (i8::MIN as i128, i8::MAX as i128),
        IntKind::I16 => (i16::MIN as i128, i16::MAX as i128),
        IntKind::I32 => (i32::MIN as i128, i32::MAX as i128),
        IntKind::I64 => (i64::MIN as i128, i64::MAX as i128),
        IntKind::U8 => (0, u8::MAX as i128),
        IntKind::U16 => (0, u16::MAX as i128),
        IntKind::U32 => (0, u32::MAX as i128),
        IntKind::U64 => (0, u64::MAX as i128),
    }
}

/// The integer value of kind `k` holding `x`.
pub fn make_int(k: IntKind, x: i128) -> (v: Value)
    requires
        in_kind_range(k, x as int),
    ensures
        v@ == int_view(k, x as int),
{
    match k {
        IntKind::I8 => Value::I8(x as i8),
        IntKind::I16 => Value::I16(x as i16),
        IntKind::I32 => Value::I32(x as i32),
        IntKind::I64 => Value::I64(x as i64),
        IntKind::U8 => Value::U8(x as u8),
        IntKind::U16 => Value::U16(x as u16),
        IntKind::U32 => Value::U32(x as u32),
        IntKind::U64 => Value::U64(x as u64),
    }
}

fn cast_bounds(k: IntKind) -> (r: (u64, u64))
    ensures
        r.0 == cast_low_bits(k),
        r.1 == cast_high_bits(k),
{
    match k {
        IntKind::I8 => (0xc060_0000_0000_0000u64, 0x405f_c000_0000_0000u64),
        IntKind::I16 => (0xc0e0_0000_0000_0000u64, 0x40df_ffc0_0000_0000u64),
        IntKind::I32 => (0xc1e0_0000_0000_0000u64, 0x41df_ffff_ffc0_0000u64),
        IntKind::I64 => (0xc3e0_0000_0000_0000u64, 0x43e0_0000_0000_0000u64),
        IntKind::U8 => (0u64, 0x406f_e000_0000_0000u64),
        IntKind::U16 => (0u64, 0x40ef_ffe0_0000_0000u64),
        IntKind::U32 => (0u64, 0x41ef_ffff_ffe0_0000u64),
        IntKind::U64 => (0u64, 0x43f0_0000_0000_0000u64),
    }
}

impl ALU {
    /// The error for a refused cast of a value shown as `value`.
    pub fn invalid_cast(value: &str, target_type: &Type, span: Span) -> (e: ComputationError)
        ensures
            e.message@ == invalid_cast_message(value@, type_label(*target_type)),
            e.span == span,
            e.severity == ErrorSeverity::HIGH,
    {
        let mut m = string_of("Cannot cast '");
        append_str(&mut m, value);
        append_str(&mut m, "' to '");
        append_str(&mut m, target_type.label().as_str());
        append_str(&mut m, "'.");
        ComputationError::new(ErrorSeverity::HIGH, m, span)
    }

    /// The error for a string that does not parse as the target type.
    pub fn invalid_string_cast(value: &str, target_type: &str, span: Span) -> (e: ComputationError)
        ensures
            e.message@ == invalid_string_cast_message(value@, target_type@),
            e.span == span,
            e.severity == ErrorSeverity::HIGH,
    {
        let mut m = string_of("Cannot cast String '");
        append_str(&mut m, value);
        append_str(&mut m, "' to '");
        append_str(&mut m, target_type);
        append_str(&mut m, "'.");
        ComputationError::new(ErrorSeverity::HIGH, m, span)
    }

    /// An integer cast to another type: into an integer type when it fits, refused
    /// otherwise.
    pub fn cast_signed_integer(value: i128, target_type: &Type, span: Span) -> (r: Result<Value, ComputationError>)
        ensures
            match type_int_kind(*target_type) {
                Some(k) => if in_kind_range(k, value as int) {
                    r matches Ok(v) && v@ == int_view(k, value as int)
                } else {
                    r matches Err(e) && e.message@ == invalid_cast_message(decimal(value as int), type_label(*target_type))
                },
                None => r matches Err(e) && e.message@ == invalid_cast_message(decimal(value as int), type_label(*target_type)),
            },
            raised_at(r, span),
    {
        match target_type.int_kind() {
            Some(k) => {
                let (lo, hi) = kind_bounds(k);
                if lo <= value && value <= hi {
                    Ok(make_int(k, value))
                } else {
                    Err(Self::invalid_cast(format_signed(value).as_str(), target_type, span))
                }
            },
            None => Err(Self::invalid_cast(format_signed(value).as_str(), target_type, span)),
        }
    }

    /// An unsigned integer cast to another type (see `cast_signed_integer`).
    pub fn cast_unsigned_integer(value: u128, target_type: &Type, span: Span) -> (r: Result<Value, ComputationError>)
        requires
            value <= u64::MAX,
        ensures
            match type_int_kind(*target_type) {
                Some(k) => if in_kind_range(k, value as int) {
                    r matches Ok(v) && v@ == int_view(k, value as int)
                } else {
                    r matches Err(e) && e.message@ == invalid_cast_message(decimal(value as int), type_label(*target_type))
                },
                None => r matches Err(e) && e.message@ == invalid_cast_message(decimal(value as int), type_label(*target_type)),
            },
            raised_at(r, span),
    {
        Self::cast_signed_integer(value as i128, target_type, span)
    }

    /// The text of a value in the message of a refused cast.
    fn shown_text<F: FloatUnit>(v: &Value, fpu: &F) -> (s: String)
        ensures
            !(v@ is F64) ==> s@ == shown(v@),
    {
        match v {
            Value::String(s) => s.clone(),
            Value::Bool(b) => if *b { string_of("true") } else { string_of("false") },
            Value::Char(c) => {
                let mut s = String::new();
                push_char(&mut s, *c);
                assert(s@ =~= seq![*c]);
                s
            },
            Value::Vector { kind, .. } => kind.label(),
            Value::F64(b) => fpu.render(*b),
            _ => match int_parts_of(v) {
                Some((_, x)) => format_signed(x),
                None => String::new(),
            },
        }
    }

    /// A double cast to an integer kind: refused unless finite and within the kind's
    /// bounds; then its integer part, held to the kind's range.
    fn cast_float_to_integer<F: FloatUnit>(b: u64, k: IntKind, target_type: &Type, span: Span, fpu: &F) -> (r: Result<Value, ComputationError>)
        requires
            type_int_kind(*target_type) == Some(k),
        ensures
            float_castable(k, b) ==> (r matches Ok(w) && int_parts(w@) == Some((k, clamp_to_kind(k, double_trunc(b))))),
            !float_castable(k, b) ==> (r matches Err(e) && is_cast_refusal(e.message@, *target_type)),
            raised_at(r, span),
    {
        let (low, high) = cast_bounds(k);
        if is_finite_bits(b) && (float_less(low, b) || float_equal(b, low)) && (float_less(b, high) || float_equal(b, high)) {
            proof { lemma_castable_magnitude(k, b); }
            let t = trunc_double(b);
            let (lo, hi) = kind_bounds(k);
            let x = if t < lo { lo } else if t > hi { hi } else { t };
            let v = make_int(k, x);
            assert(int_parts(v@) == Some((k, x as int)));
            Ok(v)
        } else {
            let e = Self::invalid_cast(fpu.render(b).as_str(), target_type, span);
            proof {
                let m = e.message@;
                assert(exists|s: Seq<char>| m == invalid_cast_message(s, type_label(*target_type)));
            }
            Err(e)
        }
    }

    /// Converts a value to the given type.
    pub fn cast_to_type<F: FloatUnit>(val: Value, to_type: &Type, span: Span, fpu: &F) -> (r: Result<Value, ComputationError>)
        ensures
            cast_outcome_ok(val@, *to_type, outcome(r)),
            raised_at(r, span),
    {
        if let Some((k, x)) = int_parts_of(&val) {
            return match to_type {
                Type::Str => Ok(Value::String(format_signed(x))),
                Type::F64 => Ok(Value::F64(int_to_double(x))),
                Type::Bool => Ok(Value::Bool(x > 0)),
                Type::Char if k == IntKind::U8 => Ok(Value::Char((x as u8) as char)),
                _ => if is_signed_kind_exec(k) {
                    Self::cast_signed_integer(x, to_type, span)
                } else {
                    Self::cast_unsigned_integer(x as u128, to_type, span)
                },
            };
        }
        match (&val, to_type) {
            (Value::F64(b), Type::Str) => Ok(Value::String(fpu.render(*b))),
            (Value::F64(b), Type::Bool) => Ok(Value::Bool(float_less(0u64, *b))),
            (Value::F64(b), _) => match to_type.int_kind() {
                Some(k) => Self::cast_float_to_integer(*b, k, to_type, span, fpu),
                None => if let Type::F64 = to_type {
                    Ok(Value::F64(*b))
                } else {
                    let e = Self::invalid_cast(fpu.render(*b).as_str(), to_type, span);
                    proof {
                        let m = e.message@;
                        assert(exists|s: Seq<char>| m == invalid_cast_message(s, type_label(*to_type)));
                    }
                    Err(e)
                },
            },
            (Value::String(s), Type::F64) => match fpu.parse(s.as_str()) {
                Some(b) => Ok(Value::F64(b)),
                None => Err(Self::invalid_string_cast(s.as_str(), "f64", span)),
            },
            (Value::String(s), Type::Bool) => Ok(Value::Bool(crate::text::char_count(s) > 0)),
            (Value::String(s), _) if to_type.int_kind().is_some() => {
                let k = to_type.int_kind().unwrap();
                let (lo, hi) = kind_bounds(k);
                match parse_int(s, is_signed_kind_exec(k), lo, hi) {
                    Some(x) => Ok(make_int(k, x)),
                    None => Err(Self::invalid_string_cast(s.as_str(), to_type.label().as_str(), span)),
                }
            },
            (Value::Bool(b), Type::Str) => Ok(Value::String(if *b { string_of("true") } else { string_of("false") })),
            (Value::Bool(b), Type::F64) => Ok(Value::F64(if *b { 0x3ff0_0000_0000_0000u64 } else { 0u64 })),
            (Value::Bool(b), _) if to_type.int_kind().is_some() => {
                let k = to_type.int_kind().unwrap();
                Ok(make_int(k, if *b { 1 } else { 0 }))
            },
            (Value::Char(c), Type::U8) => Ok(Value::U8(*c as u8)),
            (Value::Char(c), Type::Str) => {
                let mut s = String::new();
                push_char(&mut s, *c);
                assert(s@ =~= seq![*c]);
                Ok(Value::String(s))
            },
            _ => {
                if val.to_type().same_as(to_type) {
                    Ok(val)
                } else {
                    Err(Self::invalid_cast(Self::shown_text(&val, fpu).as_str(), to_type, span))
                }
            },
        }
    }
}

pub fn is_signed_kind_exec(k: IntKind) -> (r: bool)
    ensures
        r == is_signed_kind(k),
{
    match k {
        IntKind::I8 | IntKind::I16 | IntKind::I32 | IntKind::I64 => true,
        _ => false,
    }
}

} // verus!
