use vstd::prelude::*;
use crate::text::{append_str, string_of};

verus! {

/// The static types of the language. A struct type is named by its place in the
/// program's table of struct types.
#[derive(Debug)]
pub enum Type {
    Bool,
    I8,
    I16,
    I32,
    I64,
    U8,
    U16,
    U32,
    U64,
    F64,
    Str,
    Char,
    Void,
    Vector(Box<Type>),
    Struct(usize),
}

/// The eight integer types, as a plain tag.
#[derive(Clone, Copy, Debug, PartialEq, Eq, Structural)]
pub enum IntKind {
    I8,
    I16,
    I32,
    I64,
    U8,
    U16,
    U32,
    U64,
}

pub open spec fn kind_min(k: IntKind) -> int {
    match k {
        IntKind::I8 => i8::MIN as int,
        IntKind::I16 => i16::MIN as int,
        IntKind::I32 => i32::MIN as int,
        IntKind::I64 => i64::MIN as int,
        _ => 0,
    }
}

pub open spec fn kind_max(k: IntKind) -> int {
    match k {
        IntKind::I8 => i8::MAX as int,
        IntKind::I16 => i16::MAX as int,
        IntKind::I32 => i32::MAX as int,
        IntKind::I64 => i64::MAX as int,
        IntKind::U8 => u8::MAX as int,
        IntKind::U16 => u16::MAX as int,
        IntKind::U32 => u32::MAX as int,
        IntKind::U64 => u64::MAX as int,
    }
}

pub open spec fn in_kind_range(k: IntKind, x: int) -> bool {
    kind_min(k) <= x <= kind_max(k)
}

pub open spec fn is_signed_kind(k: IntKind) -> bool {
    match k {
        IntKind::I8 | IntKind::I16 | IntKind::I32 | IntKind::I64 => true,
        _ => false,
    }
}

pub open spec fn kind_type(k: IntKind) -> Type {
    match k {
        IntKind::I8 => Type::I8,
        IntKind::I16 => Type::I16,
        IntKind::I32 => Type::I32,
        IntKind::I64 => Type::I64,
        IntKind::U8 => Type::U8,
        IntKind::U16 => Type::U16,
        IntKind::U32 => Type::U32,
        IntKind::U64 => Type::U64,
    }
}

/// The integer kind that a type names, if it names one.
pub open spec fn type_int_kind(t: Type) -> Option<IntKind> {
    match t {
        Type::I8 => Some(IntKind::I8),
        Type::I16 => Some(IntKind::I16),
        Type::I32 => Some(IntKind::I32),
        Type::I64 => Some(IntKind::I64),
        Type::U8 => Some(IntKind::U8),
        Type::U16 => Some(IntKind::U16),
        Type::U32 => Some(IntKind::U32),
        Type::U64 => Some(IntKind::U64),
        _ => None,
    }
}

/// The name under which a type is shown in messages.
pub open spec fn type_label(t: Type) -> Seq<char>
    decreases t,
{
    match t {
        Type::Bool => "bool"@,
        Type::I8 => "i8"@,
        Type::I16 => "i16"@,
        Type::I32 => "i32"@,
        Type::I64 => "i64"@,
        Type::U8 => "u8"@,
        Type::U16 => "u16"@,
        Type::U32 => "u32"@,
        Type::U64 => "u64"@,
        Type::F64 => "f64"@,
        Type::Str => "str"@,
        Type::Char => "char"@,
        Type::Void => "void"@,
        Type::Vector(inner) => type_label(*inner) + "[]"@,
        Type::Struct(_) => "struct"@,
    }
}

impl Type {
    /// A copy of the type.
    pub fn duplicate(&self) -> (r: Type)
        ensures
            r == *self,
        decreases self,
    {
        match self {
            Type::Bool => Type::Bool,
            Type::I8 => Type::I8,
            Type::I16 => Type::I16,
            Type::I32 => Type::I32,
            Type::I64 => Type::I64,
            Type::U8 => Type::U8,
            Type::U16 => Type::U16,
            Type::U32 => Type::U32,
            Type::U64 => Type::U64,
            Type::F64 => Type::F64,
            Type::Str => Type::Str,
            Type::Char => Type::Char,
            Type::Void => Type::Void,
            Type::Vector(inner) => Type::Vector(Box::new(inner.duplicate())),
            Type::Struct(i) => Type::Struct(*i),
        }
    }

    /// Whether two types are the same type.
    pub fn same_as(&self, other: &Type) -> (r: bool)
        ensures
            r == (*self == *other),
        decreases self,
    {
        match (self, other) {
            (Type::Vector(a), Type::Vector(b)) => a.same_as(b),
            (Type::Bool, Type::Bool) => true,
            (Type::I8, Type::I8) => true,
            (Type::I16, Type::I16) => true,
            (Type::I32, Type::I32) => true,
            (Type::I64, Type::I64) => true,
            (Type::U8, Type::U8) => true,
            (Type::U16, Type::U16) => true,
            (Type::U32, Type::U32) => true,
            (Type::U64, Type::U64) => true,
            (Type::F64, Type::F64) => true,
            (Type::Str, Type::Str) => true,
            (Type::Char, Type::Char) => true,
            (Type::Void, Type::Void) => true,
            (Type::Struct(a), Type::Struct(b)) => *a == *b,
            _ => false,
        }
    }

    /// The name under which the type is shown in messages.
    pub fn label(&self) -> (r: String)
        ensures
            r@ == type_label(*self),
        decreases self,
    {
        match self {
            Type::Bool => string_of("bool"),
            Type::I8 => string_of("i8"),
            Type::I16 => string_of("i16"),
            Type::I32 => string_of("i32"),
            Type::I64 => string_of("i64"),
            Type::U8 => string_of("u8"),
            Type::U16 => string_of("u16"),
            Type::U32 => string_of("u32"),
            Type::U64 => string_of("u64"),
            Type::F64 => string_of("f64"),
            Type::Str => string_of("str"),
            Type::Char => string_of("char"),
            Type::Void => string_of("void"),
            Type::Vector(inner) => {
                let mut s = inner.label();
                append_str(&mut s, "[]");
                s
            },
            Type::Struct(_) => string_of("struct"),
        }
    }

    /// The integer kind this type names, if any.
    pub fn int_kind(&self) -> (r: Option<IntKind>)
        ensures
            r == type_int_kind(*self),
    {
        match self {
            Type::I8 => Some(IntKind::I8),
            Type::I16 => Some(IntKind::I16),
            Type::I32 => Some(IntKind::I32),
            Type::I64 => Some(IntKind::I64),
            Type::U8 => Some(IntKind::U8),
            Type::U16 => Some(IntKind::U16),
            Type::U32 => Some(IntKind::U32),
            Type::U64 => Some(IntKind::U64),
            _ => None,
        }
    }
}

impl PartialEq for Type {
    fn eq(&self, other: &Type) -> (r: bool) {
        self.same_as(other)
    }
}

impl Eq for Type {
}

impl vstd::std_specs::cmp::PartialEqSpecImpl for Type {
    open spec fn obeys_eq_spec() -> bool {
        true
    }

    open spec fn eq_spec(&self, other: &Type) -> bool {
        *self == *other
    }
}

impl Clone for Type {
    fn clone(&self) -> (r: Type)
        ensures
            r == *self,
    {
        self.duplicate()
    }
}

} // verus!
