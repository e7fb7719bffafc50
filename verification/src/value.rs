use vstd::prelude::*;
use crate::errors::{ComputationError, ErrorSeverity};
use crate::heap::Heap;
use crate::span::Span;
use crate::text::{append_str, string_of};
use crate::types::{type_label, IntKind, Type};

verus! {

/// A runtime value. A vector value names the heap vector that holds its elements, so
/// copies of a vector value share those elements. A struct value names its struct type,
/// and holds its field names in order and the heap vector of the cells holding the
/// fields. An `F64` holds the bit pattern of an IEEE-754 double.
#[derive(Debug, Clone, PartialEq)]
pub enum Value {
    I8(i8),
    I16(i16),
    I32(i32),
    I64(i64),
    U8(u8),
    U16(u16),
    U32(u32),
    U64(u64),
    F64(u64),
    String(String),
    Bool(bool),
    Char(char),
    Vector { kind: Box<Type>, values: usize },
    Struct { type_id: usize, names: Vec<String>, fields: usize },
}

/// The mathematical model of a value.
pub enum ValueView {
    I8(i8),
    I16(i16),
    I32(i32),
    I64(i64),
    U8(u8),
    U16(u16),
    U32(u32),
    U64(u64),
    F64(u64),
    Str(Seq<char>),
    Bool(bool),
    Char(char),
    Vector { kind: Type, values: usize },
    Struct { type_id: usize, names: Seq<Seq<char>>, fields: usize },
}

impl View for Value {
    type V = ValueView;

    open spec fn view(&self) -> ValueView {
        match self {
            Value::I8(x) => ValueView::I8(*x),
            Value::I16(x) => ValueView::I16(*x),
            Value::I32(x) => ValueView::I32(*x),
            Value::I64(x) => ValueView::I64(*x),
            Value::U8(x) => ValueView::U8(*x),
            Value::U16(x) => ValueView::U16(*x),
            Value::U32(x) => ValueView::U32(*x),
            Value::U64(x) => ValueView::U64(*x),
            Value::F64(x) => ValueView::F64(*x),
            Value::String(s) => ValueView::Str(s@),
            Value::Bool(b) => ValueView::Bool(*b),
            Value::Char(c) => ValueView::Char(*c),
            Value::Vector { kind, values } => ValueView::Vector { kind: **kind, values: *values },
            Value::Struct { type_id, names, fields } => ValueView::Struct {
                type_id: *type_id,
                names: names@.map_values(|n: String| n@),
                fields: *fields,
            },
        }
    }
}

/// The type of a value; a vector value carries its type.
pub open spec fn view_type(v: ValueView) -> Type {
    match v {
        ValueView::I8(_) => Type::I8,
        ValueView::I16(_) => Type::I16,
        ValueView::I32(_) => Type::I32,
        ValueView::I64(_) => Type::I64,
        ValueView::U8(_) => Type::U8,
        ValueView::U16(_) => Type::U16,
        ValueView::U32(_) => Type::U32,
        ValueView::U64(_) => Type::U64,
        ValueView::F64(_) => Type::F64,
        ValueView::Str(_) => Type::Str,
        ValueView::Bool(_) => Type::Bool,
        ValueView::Char(_) => Type::Char,
        ValueView::Vector { kind, .. } => kind,
        ValueView::Struct { type_id, .. } => Type::Struct(type_id),
    }
}

/// The integer kind and mathematical value of an integer value.
pub open spec fn int_parts(v: ValueView) -> Option<(IntKind, int)> {
    match v {
        ValueView::I8(x) => Some((IntKind::I8, x as int)),
        ValueView::I16(x) => Some((IntKind::I16, x as int)),
        ValueView::I32(x) => Some((IntKind::I32, x as int)),
        ValueView::I64(x) => Some((IntKind::I64, x as int)),
        ValueView::U8(x) => Some((IntKind::U8, x as int)),
        ValueView::U16(x) => Some((IntKind::U16, x as int)),
        ValueView::U32(x) => Some((IntKind::U32, x as int)),
        ValueView::U64(x) => Some((IntKind::U64, x as int)),
        _ => None,
    }
}

/// The integer value of kind `k` that holds `x` (meaningful when `x` is in range).
pub open spec fn int_view(k: IntKind, x: int) -> ValueView {
    match k {
        IntKind::I8 => ValueView::I8(x as i8),
        IntKind::I16 => ValueView::I16(x as i16),
        IntKind::I32 => ValueView::I32(x as i32),
        IntKind::I64 => ValueView::I64(x as i64),
        IntKind::U8 => ValueView::U8(x as u8),
        IntKind::U16 => ValueView::U16(x as u16),
        IntKind::U32 => ValueView::U32(x as u32),
        IntKind::U64 => ValueView::U64(x as u64),
    }
}

/// A value refers only to heap vectors that exist.
pub open spec fn refs_within(v: ValueView, n_vectors: nat) -> bool {
    match v {
        ValueView::Vector { values, .. } => values < n_vectors,
        ValueView::Struct { fields, .. } => fields < n_vectors,
        _ => true,
    }
}

/// What `default_value` gives: the zero of each scalar type, the empty string, or a
/// fresh empty vector of the given type.
pub open spec fn default_for(t: Type, fresh: usize) -> Option<ValueView> {
    match t {
        Type::Bool => Some(ValueView::Bool(false)),
        Type::I8 => Some(ValueView::I8(0)),
        Type::I16 => Some(ValueView::I16(0)),
        Type::I32 => Some(ValueView::I32(0)),
        Type::I64 => Some(ValueView::I64(0)),
        Type::U8 => Some(ValueView::U8(0)),
        Type::U16 => Some(ValueView::U16(0)),
        Type::U32 => Some(ValueView::U32(0)),
        Type::U64 => Some(ValueView::U64(0)),
        Type::F64 => Some(ValueView::F64(0)),
        Type::Str => Some(ValueView::Str(Seq::empty())),
        Type::Vector(_) => Some(ValueView::Vector { kind: t, values: fresh }),
        _ => None,
    }
}

pub open spec fn default_value_message(t: Type) -> Seq<char> {
    "Cannot create default value for type '"@ + type_label(t) + "'."@
}

pub open spec fn not_boolean_message() -> Seq<char> {
    "Given value is not a boolean."@
}

/// A copy of a list of field names.
pub fn copy_names(names: &Vec<String>) -> (r: Vec<String>)
    ensures
        r@.map_values(|n: String| n@) == names@.map_values(|n: String| n@),
{
    let mut r: Vec<String> = Vec::new();
    let n = names.len();
    let mut i: usize = 0;
    while i < n
        invariant
            0 <= i <= n,
            n == names@.len(),
            r@.len() == i,
            forall|j: int| 0 <= j < i ==> #[trigger] r@[j]@ == names@[j]@,
        decreases n - i,
    {
        r.push(names[i].clone());
        i = i + 1;
    }
    assert(r@.map_values(|n: String| n@) =~= names@.map_values(|n: String| n@));
    r
}

impl Value {
    /// A copy of the value; a copied vector value names the same heap vector.
    pub fn duplicate(&self) -> (r: Value)
        ensures
            r@ == self@,
    {
        match self {
            Value::I8(x) => Value::I8(*x),
            Value::I16(x) => Value::I16(*x),
            Value::I32(x) => Value::I32(*x),
            Value::I64(x) => Value::I64(*x),
            Value::U8(x) => Value::U8(*x),
            Value::U16(x) => Value::U16(*x),
            Value::U32(x) => Value::U32(*x),
            Value::U64(x) => Value::U64(*x),
            Value::F64(x) => Value::F64(*x),
            Value::String(s) => Value::String(s.clone()),
            Value::Bool(b) => Value::Bool(*b),
            Value::Char(c) => Value::Char(*c),
            Value::Vector { kind, values } => Value::Vector {
                kind: Box::new((**kind).duplicate()),
                values: *values,
            },
            Value::Struct { type_id, names, fields } => Value::Struct {
                type_id: *type_id,
                names: copy_names(names),
                fields: *fields,
            },
        }
    }

    /// The default value of a type. A vector type gets a fresh empty heap vector.
    pub fn default_value(var_type: &Type, span: Span, heap: &mut Heap) -> (r: Result<Value, ComputationError>)
        requires
            old(heap).wf(),
        ensures
            final(heap).wf(),
            match r {
                Ok(v) => {
                    &&& default_for(*var_type, old(heap)@.vectors.len() as usize) == Some(v@)
                    &&& match *var_type {
                        Type::Vector(_) => final(heap)@ == old(heap)@.with_vector(Seq::empty()),
                        _ => final(heap)@ == old(heap)@,
                    }
                    &&& refs_within(v@, final(heap)@.vectors.len())
                },
                Err(e) => {
                    &&& default_for(*var_type, 0) is None
                    &&& e.message@ == default_value_message(*var_type)
                    &&& e.span == span
                    &&& final(heap)@ == old(heap)@
                },
            },
    {
        match var_type {
            Type::Bool => Ok(Value::Bool(false)),
            Type::I8 => Ok(Value::I8(0)),
            Type::I16 => Ok(Value::I16(0)),
            Type::I32 => Ok(Value::I32(0)),
            Type::I64 => Ok(Value::I64(0)),
            Type::U8 => Ok(Value::U8(0)),
            Type::U16 => Ok(Value::U16(0)),
            Type::U32 => Ok(Value::U32(0)),
            Type::U64 => Ok(Value::U64(0)),
            Type::F64 => Ok(Value::F64(0)),
            Type::Str => Ok(Value::String(String::new())),
            Type::Vector(_) => {
                let id = heap.alloc_vector(Vec::new());
                Ok(Value::Vector { kind: Box::new(var_type.duplicate()), values: id })
            },
            _ => {
                let mut m = string_of("Cannot create default value for type '");
                append_str(&mut m, var_type.label().as_str());
                append_str(&mut m, "'.");
                Err(ComputationError::new(ErrorSeverity::HIGH, m, span))
            },
        }
    }

    /// The type of the value.
    pub fn to_type(&self) -> (t: Type)
        ensures
            t == view_type(self@),
    {
        match self {
            Value::I8(_) => Type::I8,
            Value::I16(_) => Type::I16,
            Value::I32(_) => Type::I32,
            Value::I64(_) => Type::I64,
            Value::U8(_) => Type::U8,
            Value::U16(_) => Type::U16,
            Value::U32(_) => Type::U32,
            Value::U64(_) => Type::U64,
            Value::F64(_) => Type::F64,
            Value::String(_) => Type::Str,
            Value::Bool(_) => Type::Bool,
            Value::Char(_) => Type::Char,
            Value::Vector { kind, .. } => (**kind).duplicate(),
            Value::Struct { type_id, .. } => Type::Struct(*type_id),
        }
    }

    /// The boolean a `Bool` value holds; any other value is refused.
    pub fn try_into_bool(&self, span: Span) -> (r: Result<bool, ComputationError>)
        ensures
            match self@ {
                ValueView::Bool(b) => r == Ok::<bool, ComputationError>(b),
                _ => r matches Err(e) && e.message@ == not_boolean_message() && e.span == span,
            },
    {
        match self {
            Value::Bool(b) => Ok(*b),
            _ => Err(ComputationError::new(ErrorSeverity::HIGH, string_of("Given value is not a boolean."), span)),
        }
    }
}

} // verus!
