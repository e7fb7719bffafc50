use raptor::alu::FloatUnit;
use raptor::alu::ALU;
use raptor::span::Span;
use raptor::value::Value;

/// Double arithmetic done with Rust's `f64`.
struct Fpu;

impl FloatUnit for Fpu {
    fn add(&self, a: u64, b: u64) -> u64 {
        (f64::from_bits(a) + f64::from_bits(b)).to_bits()
    }

    fn sub(&self, a: u64, b: u64) -> u64 {
        (f64::from_bits(a) - f64::from_bits(b)).to_bits()
    }

    fn mul(&self, a: u64, b: u64) -> u64 {
        (f64::from_bits(a) * f64::from_bits(b)).to_bits()
    }

    fn div(&self, a: u64, b: u64) -> u64 {
        (f64::from_bits(a) / f64::from_bits(b)).to_bits()
    }

    fn from_signed(&self, x: i64) -> u64 {
        (x as f64).to_bits()
    }

    fn from_unsigned(&self, x: u64) -> u64 {
        (x as f64).to_bits()
    }

    fn truncate(&self, a: u64) -> i128 {
        f64::from_bits(a).trunc() as i128
    }

    fn render(&self, a: u64) -> String {
        f64::from_bits(a).to_string()
    }

    fn parse(&self, s: &str) -> Option<u64> {
        s.parse::<f64>().ok().map(|x| x.to_bits())
    }
}

fn bits(x: f64) -> u64 {
    x.to_bits()
}


#[test]
fn boolean_negation() {
    assert_eq!(ALU::boolean_negate(Value::Bool(false), Span::default_span()).unwrap(), Value::Bool(true));
    assert_eq!(ALU::boolean_negate(Value::Bool(true), Span::default_span()).unwrap(), Value::Bool(false));
    assert_eq!(
        ALU::boolean_negate(Value::I64(1), Span::default_span()).err().unwrap().message(),
        String::from("Cannot perform boolean negation on type 'i64'.")
    );
}

#[test]
fn arithmetic_negation() {
    assert_eq!(ALU::arithmetic_negate(Value::I64(1), Span::default_span()).unwrap(), Value::I64(-1));
    assert_eq!(ALU::arithmetic_negate(Value::F64(bits(-21.37)), Span::default_span()).unwrap(), Value::F64(bits(21.37)));
    assert_eq!(
        ALU::arithmetic_negate(Value::String(String::from("abc")), Span::default_span())
            .err()
            .unwrap()
            .message(),
        String::from("Cannot perform arithmetic negation on type 'str'.")
    );
}

#[test]
fn boolean_negation_unsupported_types() {
    let unsupported = [
        Value::I8(1),
        Value::I16(1),
        Value::I32(1),
        Value::U8(1),
        Value::U16(1),
        Value::U32(1),
        Value::U64(1),
        Value::F64(bits(1.0)),
        Value::String("true".into()),
        Value::Char('t'),
    ];
    for val in unsupported {
        let r = ALU::boolean_negate(val, Span::default_span());
        assert!(r.is_err());
        let msg = r.err().unwrap().message();
        assert!(msg.starts_with("Cannot perform boolean negation on type"), "got: {}", msg);
    }
}

#[test]
fn arithmetic_negation_all_signed_integers() {
    // I8
    assert_eq!(ALU::arithmetic_negate(Value::I8(5), Span::default_span()).unwrap(), Value::I8(-5));
    assert_eq!(ALU::arithmetic_negate(Value::I8(-5), Span::default_span()).unwrap(), Value::I8(5));
    assert_eq!(ALU::arithmetic_negate(Value::I8(0), Span::default_span()).unwrap(), Value::I8(0));

    // I16
    assert_eq!(ALU::arithmetic_negate(Value::I16(1000), Span::default_span()).unwrap(), Value::I16(-1000));
    assert_eq!(ALU::arithmetic_negate(Value::I16(-1000), Span::default_span()).unwrap(), Value::I16(1000));

    // I32
    assert_eq!(
        ALU::arithmetic_negate(Value::I32(i32::MAX), Span::default_span()).unwrap(),
        Value::I32(-i32::MAX)
    );
    assert_eq!(ALU::arithmetic_negate(Value::I32(-42), Span::default_span()).unwrap(), Value::I32(42));

    // I64 already partially covered, add zero and negative
    assert_eq!(ALU::arithmetic_negate(Value::I64(0), Span::default_span()).unwrap(), Value::I64(0));
    assert_eq!(
        ALU::arithmetic_negate(Value::I64(i64::MAX), Span::default_span()).unwrap(),
        Value::I64(-i64::MAX)
    );
}

#[test]
fn arithmetic_negation_overflow() {
    // i8::MIN cannot be negated
    let r = ALU::arithmetic_negate(Value::I8(i8::MIN), Span::default_span());
    assert!(r.is_err());
    assert_eq!(r.err().unwrap().message(), "Overflow occurred when performing arithmetic negation on i8.");

    // i16::MIN
    let r = ALU::arithmetic_negate(Value::I16(i16::MIN), Span::default_span());
    assert!(r.is_err());
    assert_eq!(
        r.err().unwrap().message(),
        "Overflow occurred when performing arithmetic negation on i16."
    );

    // i32::MIN
    let r = ALU::arithmetic_negate(Value::I32(i32::MIN), Span::default_span());
    assert!(r.is_err());
    assert_eq!(
        r.err().unwrap().message(),
        "Overflow occurred when performing arithmetic negation on i32."
    );

    // i64::MIN
    let r = ALU::arithmetic_negate(Value::I64(i64::MIN), Span::default_span());
    assert!(r.is_err());
    assert_eq!(
        r.err().unwrap().message(),
        "Overflow occurred when performing arithmetic negation on i64."
    );
}

#[test]
fn arithmetic_negation_f64_edge_cases() {
    assert_eq!(ALU::arithmetic_negate(Value::F64(bits(0.0)), Span::default_span()).unwrap(), Value::F64(bits(-0.0)));
    assert_eq!(ALU::arithmetic_negate(Value::F64(bits(-0.0)), Span::default_span()).unwrap(), Value::F64(bits(0.0)));
    assert_eq!(
        ALU::arithmetic_negate(Value::F64(bits(f64::INFINITY)), Span::default_span()).unwrap(),
        Value::F64(bits(f64::NEG_INFINITY))
    );
    assert_eq!(
        ALU::arithmetic_negate(Value::F64(bits(f64::NEG_INFINITY)), Span::default_span()).unwrap(),
        Value::F64(bits(f64::INFINITY))
    );
    // NaN stays NaN
    let res = ALU::arithmetic_negate(Value::F64(bits(f64::NAN)), Span::default_span()).unwrap();
    if let Value::F64(v) = res {
        assert!(f64::from_bits(v).is_nan());
    } else {
        panic!("expected F64");
    }
}

#[test]
fn arithmetic_negation_unsupported_types() {
    let unsupported = [
        Value::U8(1),
        Value::U16(1),
        Value::U32(1),
        Value::U64(1),
        Value::Bool(true),
        Value::Char('a'),
        Value::String("1".into()),
    ];
    for val in unsupported {
        let r = ALU::arithmetic_negate(val, Span::default_span());
        assert!(r.is_err());
        let msg = r.err().unwrap().message();
        assert!(msg.starts_with("Cannot perform arithmetic negation on type"), "got: {}", msg);
    }
}

