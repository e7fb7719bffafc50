use vstd::prelude::*;
use crate::span::Span;
use crate::types::Type;

verus! {

/// A syntax tree node and the source span it came from.
pub struct Node<T> {
    pub value: T,
    pub span: Span,
}

/// A literal. An `F64` literal holds the bit pattern of an IEEE-754 double.
pub enum Literal {
    F64(u64),
    I64(i64),
    String(String),
    Char(char),
    False,
    True,
}

/// How an argument is passed: a copy of its value, or the cell it names.
#[derive(Clone, Copy, Debug, PartialEq, Eq, Structural)]
pub enum PassedBy {
    Value,
    Reference,
}

pub struct Argument {
    pub value: Node<Expression>,
    pub passed_by: PassedBy,
}

pub enum Expression {
    Casting { value: Box<Node<Expression>>, to_type: Node<Type> },
    BooleanNegation(Box<Node<Expression>>),
    ArithmeticNegation(Box<Node<Expression>>),
    Addition(Box<Node<Expression>>, Box<Node<Expression>>),
    Subtraction(Box<Node<Expression>>, Box<Node<Expression>>),
    Multiplication(Box<Node<Expression>>, Box<Node<Expression>>),
    Division(Box<Node<Expression>>, Box<Node<Expression>>),
    Modulo(Box<Node<Expression>>, Box<Node<Expression>>),
    Alternative(Box<Node<Expression>>, Box<Node<Expression>>),
    Concatenation(Box<Node<Expression>>, Box<Node<Expression>>),
    Greater(Box<Node<Expression>>, Box<Node<Expression>>),
    GreaterEqual(Box<Node<Expression>>, Box<Node<Expression>>),
    Less(Box<Node<Expression>>, Box<Node<Expression>>),
    LessEqual(Box<Node<Expression>>, Box<Node<Expression>>),
    Equal(Box<Node<Expression>>, Box<Node<Expression>>),
    NotEqual(Box<Node<Expression>>, Box<Node<Expression>>),
    Literal(Literal),
    Vector(Vec<Box<Node<Expression>>>),
    Variable(String),
    FunctionCall { identifier: Node<String>, arguments: Vec<Box<Node<Argument>>> },
    Index { collection: Box<Node<Expression>>, index: Box<Node<Expression>> },
    StructLiteral { identifier: Node<String>, fields: Vec<Node<StructLiteralField>> },
    FieldAccess { instance: Box<Node<Expression>>, field: Node<String> },
}

/// One `name: value` of a struct literal.
pub struct StructLiteralField {
    pub identifier: Node<String>,
    pub value: Node<Expression>,
}

/// A step on the way from a variable to the place an assignment writes: an element of a
/// vector or a string, or a field of a struct.
pub enum Accessor {
    Index(Node<Expression>),
    Field(Node<String>),
}

#[allow(inconsistent_fields)]
pub enum VariableDeclarationKind {
    TYPE { var_type: Node<Type>, value: Option<Node<Expression>> },
    LET { var_type: Option<Node<Type>>, value: Node<Expression> },
}

pub struct Block(pub Vec<Node<Statement>>);

pub struct SwitchCase {
    pub condition: Node<Expression>,
    pub block: Node<Block>,
}

pub struct SwitchExpression {
    pub expression: Node<Expression>,
    pub alias: Option<Node<String>>,
}

pub enum Statement {
    FunctionCall { identifier: Node<String>, arguments: Vec<Box<Node<Argument>>> },
    Declaration { identifier: Node<String>, kind: VariableDeclarationKind },
    Assignment { identifier: Node<String>, value: Node<Expression>, accessors: Vec<Node<Accessor>> },
    Conditional { condition: Node<Expression>, if_block: Node<Block>, else_block: Option<Node<Block>> },
    WhileLoop { condition: Node<Expression>, block: Node<Block> },
    ForLoop {
        declaration: Option<Box<Node<Statement>>>,
        condition: Node<Expression>,
        assignment: Option<Box<Node<Statement>>>,
        block: Node<Block>,
    },
    Switch { expressions: Vec<Node<SwitchExpression>>, cases: Vec<Node<SwitchCase>> },
    Return(Option<Node<Expression>>),
    Break,
    Continue,
}

pub struct Parameter {
    pub passed_by: PassedBy,
    pub parameter_type: Node<Type>,
    pub identifier: Node<String>,
}

pub struct FunctionDeclaration {
    pub identifier: Node<String>,
    pub parameters: Vec<Node<Parameter>>,
    pub return_type: Node<Type>,
    pub block: Node<Block>,
}

/// A function that the host provides (printing, input, ...): its name and its number
/// of parameters.
pub struct StdFunction {
    pub name: String,
    pub param_count: usize,
}

/// A function declared to be linked from outside; it cannot be interpreted.
pub struct ExternFunction {
    pub name: String,
    pub span: Span,
}

/// A struct type: its name and its fields with their types. `Type::Struct(i)` is the
/// struct type at place `i` of the program's `types`.
pub struct StructDeclaration {
    pub name: String,
    pub fields: Vec<(String, Type)>,
}

pub struct Program {
    pub statements: Vec<Node<Statement>>,
    pub functions: Vec<Node<FunctionDeclaration>>,
    pub std_functions: Vec<StdFunction>,
    pub extern_functions: Vec<ExternFunction>,
    pub types: Vec<StructDeclaration>,
}

} // verus!
