use vstd::prelude::*;
use crate::alu::arithmetic::{arith_exact, arith_outcome_ok, ArithOp};
use crate::alu::cast::{cast_exact, cast_outcome_ok, float_castable};
use crate::alu::comparison::{compare_spec, CmpOp};
use crate::alu::logical::{alternative_spec, concatenation_spec};
use crate::alu::unary::{arithmetic_negate_spec, boolean_negate_spec};
use crate::alu::{outcome, FloatUnit, ALU};
use crate::ast::{Expression, Literal, Node};
use crate::errors::{ComputationError, ErrorSeverity, InterpreterError};
use crate::heap::HeapView;
use crate::interpreter::{Host, Interpreter, StackView};
use crate::interpreter::structs::first_index_of;
use crate::span::Span;
use crate::stack::scope_manager::scopes_binding;
use crate::stack::stack::top_scopes;
use crate::text::{append_str, char_at, char_count, format_unsigned, string_of};
use crate::types::{type_int_kind, Type};
use crate::value::{int_parts, refs_within, Value, ValueView};

verus! {

/// A binary operator of the language.
#[derive(Clone, Copy, Debug, PartialEq, Eq, Structural)]
pub enum BinaryOp {
    Arith(ArithOp),
    Cmp(CmpOp),
    And,
    Or,
}

/// A unary operator of the language.
#[derive(Clone, Copy, Debug, PartialEq, Eq, Structural)]
pub enum UnaryOp {
    Not,
    Negate,
}

/// The value of a literal.
pub open spec fn literal_value(l: Literal) -> ValueView {
    match l {
        Literal::F64(b) => ValueView::F64(b),
        Literal::I64(x) => ValueView::I64(x),
        Literal::String(s) => ValueView::Str(s@),
        Literal::Char(c) => ValueView::Char(c),
        Literal::False => ValueView::Bool(false),
        Literal::True => ValueView::Bool(true),
    }
}

/// Whether `out` is what a binary operator may give on `v1` and `v2`.
pub open spec fn binary_outcome_ok(op: BinaryOp, v1: ValueView, v2: ValueView, out: Result<ValueView, Seq<char>>) -> bool {
    match op {
        BinaryOp::Arith(a) => arith_outcome_ok(a, v1, v2, out),
        BinaryOp::Cmp(c) => out == compare_spec(c, v1, v2),
        BinaryOp::And => out == concatenation_spec(v1, v2),
        BinaryOp::Or => out == alternative_spec(v1, v2),
    }
}

pub open spec fn unary_outcome(op: UnaryOp, v: ValueView) -> Result<ValueView, Seq<char>> {
    match op {
        UnaryOp::Not => boolean_negate_spec(v),
        UnaryOp::Negate => arithmetic_negate_spec(v),
    }
}

/// The binary operator an expression applies, if it is a binary one.
pub open spec fn binary_op_of(e: Expression) -> Option<BinaryOp> {
    match e {
        Expression::Addition(_, _) => Some(BinaryOp::Arith(ArithOp::Add)),
        Expression::Subtraction(_, _) => Some(BinaryOp::Arith(ArithOp::Sub)),
        Expression::Multiplication(_, _) => Some(BinaryOp::Arith(ArithOp::Mul)),
        Expression::Division(_, _) => Some(BinaryOp::Arith(ArithOp::Div)),
        Expression::Modulo(_, _) => Some(BinaryOp::Arith(ArithOp::Rem)),
        Expression::Alternative(_, _) => Some(BinaryOp::Or),
        Expression::Concatenation(_, _) => Some(BinaryOp::And),
        Expression::Greater(_, _) => Some(BinaryOp::Cmp(CmpOp::Greater)),
        Expression::GreaterEqual(_, _) => Some(BinaryOp::Cmp(CmpOp::GreaterEqual)),
        Expression::Less(_, _) => Some(BinaryOp::Cmp(CmpOp::Less)),
        Expression::LessEqual(_, _) => Some(BinaryOp::Cmp(CmpOp::LessEqual)),
        Expression::Equal(_, _) => Some(BinaryOp::Cmp(CmpOp::Equal)),
        Expression::NotEqual(_, _) => Some(BinaryOp::Cmp(CmpOp::NotEqual)),
        _ => None,
    }
}

/// What the value `w` of an expression can be, given only the expression's form: a
/// literal's value; what its operator gives on some operand values; a cast's outcome on
/// some value; a vector for a vector literal. (A variable, an index and a call give what
/// the store holds.)
pub open spec fn expression_result_ok(e: Expression, w: ValueView) -> bool {
    match e {
        Expression::Literal(l) => w == literal_value(l),
        Expression::BooleanNegation(_) => exists|v: ValueView| unary_outcome(UnaryOp::Not, v) == Ok::<ValueView, Seq<char>>(w),
        Expression::ArithmeticNegation(_) => exists|v: ValueView| unary_outcome(UnaryOp::Negate, v) == Ok::<ValueView, Seq<char>>(w),
        Expression::Casting { to_type, .. } => exists|v: ValueView| cast_outcome_ok(v, to_type.value, Ok::<ValueView, Seq<char>>(w)),
        Expression::Vector(_) => w is Vector,
        Expression::StructLiteral { .. } => w is Struct,
        _ => match binary_op_of(e) {
            Some(op) => exists|a: ValueView, b: ValueView| binary_outcome_ok(op, a, b, Ok::<ValueView, Seq<char>>(w)),
            None => true,
        },
    }
}

/// The expressions whose evaluation only reads: literals, variables, operators, casts,
/// indexing and field access over such expressions.
pub open spec fn pure_expr(e: Expression) -> bool
    decreases e,
{
    match e {
        Expression::Literal(_) => true,
        Expression::Variable(_) => true,
        Expression::BooleanNegation(v) => pure_expr(v.value),
        Expression::ArithmeticNegation(v) => pure_expr(v.value),
        Expression::Casting { value, .. } => pure_expr(value.value),
        Expression::Addition(l, r) => pure_expr(l.value) && pure_expr(r.value),
        Expression::Subtraction(l, r) => pure_expr(l.value) && pure_expr(r.value),
        Expression::Multiplication(l, r) => pure_expr(l.value) && pure_expr(r.value),
        Expression::Division(l, r) => pure_expr(l.value) && pure_expr(r.value),
        Expression::Modulo(l, r) => pure_expr(l.value) && pure_expr(r.value),
        Expression::Alternative(l, r) => pure_expr(l.value) && pure_expr(r.value),
        Expression::Concatenation(l, r) => pure_expr(l.value) && pure_expr(r.value),
        Expression::Greater(l, r) => pure_expr(l.value) && pure_expr(r.value),
        Expression::GreaterEqual(l, r) => pure_expr(l.value) && pure_expr(r.value),
        Expression::Less(l, r) => pure_expr(l.value) && pure_expr(r.value),
        Expression::LessEqual(l, r) => pure_expr(l.value) && pure_expr(r.value),
        Expression::Equal(l, r) => pure_expr(l.value) && pure_expr(r.value),
        Expression::NotEqual(l, r) => pure_expr(l.value) && pure_expr(r.value),
        Expression::Index { collection, index } => pure_expr(collection.value) && pure_expr(index.value),
        Expression::FieldAccess { instance, .. } => pure_expr(instance.value),
        _ => false,
    }
}

/// The nesting depth of a pure expression: each operator, cast, index or field access
/// adds one level above its operands. Evaluating such an expression takes at most three
/// steps of the budget per level.
pub open spec fn expr_height(e: Expression) -> nat
    decreases e,
{
    match e {
        Expression::BooleanNegation(v) => 1 + expr_height(v.value),
        Expression::ArithmeticNegation(v) => 1 + expr_height(v.value),
        Expression::Casting { value, .. } => 1 + expr_height(value.value),
        Expression::Addition(l, r) => 1 + max_nat(expr_height(l.value), expr_height(r.value)),
        Expression::Subtraction(l, r) => 1 + max_nat(expr_height(l.value), expr_height(r.value)),
        Expression::Multiplication(l, r) => 1 + max_nat(expr_height(l.value), expr_height(r.value)),
        Expression::Division(l, r) => 1 + max_nat(expr_height(l.value), expr_height(r.value)),
        Expression::Modulo(l, r) => 1 + max_nat(expr_height(l.value), expr_height(r.value)),
        Expression::Alternative(l, r) => 1 + max_nat(expr_height(l.value), expr_height(r.value)),
        Expression::Concatenation(l, r) => 1 + max_nat(expr_height(l.value), expr_height(r.value)),
        Expression::Greater(l, r) => 1 + max_nat(expr_height(l.value), expr_height(r.value)),
        Expression::GreaterEqual(l, r) => 1 + max_nat(expr_height(l.value), expr_height(r.value)),
        Expression::Less(l, r) => 1 + max_nat(expr_height(l.value), expr_height(r.value)),
        Expression::LessEqual(l, r) => 1 + max_nat(expr_height(l.value), expr_height(r.value)),
        Expression::Equal(l, r) => 1 + max_nat(expr_height(l.value), expr_height(r.value)),
        Expression::NotEqual(l, r) => 1 + max_nat(expr_height(l.value), expr_height(r.value)),
        Expression::Index { collection, index } => 1 + max_nat(expr_height(collection.value), expr_height(index.value)),
        Expression::FieldAccess { instance, .. } => 1 + expr_height(instance.value),
        _ => 0,
    }
}

pub open spec fn max_nat(a: nat, b: nat) -> nat {
    if a < b { b } else { a }
}

/// Expressions built from literals by operators and casts alone: their value does not
/// depend on variables or on the store.
pub open spec fn constant_expr(e: Expression) -> bool
    decreases e,
{
    match e {
        Expression::Literal(_) => true,
        Expression::BooleanNegation(v) => constant_expr(v.value),
        Expression::ArithmeticNegation(v) => constant_expr(v.value),
        Expression::Casting { value, .. } => constant_expr(value.value),
        Expression::Addition(l, r) => constant_expr(l.value) && constant_expr(r.value),
        Expression::Subtraction(l, r) => constant_expr(l.value) && constant_expr(r.value),
        Expression::Multiplication(l, r) => constant_expr(l.value) && constant_expr(r.value),
        Expression::Division(l, r) => constant_expr(l.value) && constant_expr(r.value),
        Expression::Modulo(l, r) => constant_expr(l.value) && constant_expr(r.value),
        Expression::Alternative(l, r) => constant_expr(l.value) && constant_expr(r.value),
        Expression::Concatenation(l, r) => constant_expr(l.value) && constant_expr(r.value),
        Expression::Greater(l, r) => constant_expr(l.value) && constant_expr(r.value),
        Expression::GreaterEqual(l, r) => constant_expr(l.value) && constant_expr(r.value),
        Expression::Less(l, r) => constant_expr(l.value) && constant_expr(r.value),
        Expression::LessEqual(l, r) => constant_expr(l.value) && constant_expr(r.value),
        Expression::Equal(l, r) => constant_expr(l.value) && constant_expr(r.value),
        Expression::NotEqual(l, r) => constant_expr(l.value) && constant_expr(r.value),
        _ => false,
    }
}

/// A constant expression is pure and has the same value whatever the variables and the store.
pub proof fn lemma_constant_value(e: Expression, s1: StackView, h1: HeapView, s2: StackView, h2: HeapView)
    requires
        constant_expr(e),
    ensures
        pure_expr(e),
        value_of(e, s1, h1) == value_of(e, s2, h2),
    decreases e,
{
    match e {
        Expression::BooleanNegation(v) => lemma_constant_value(v.value, s1, h1, s2, h2),
        Expression::ArithmeticNegation(v) => lemma_constant_value(v.value, s1, h1, s2, h2),
        Expression::Casting { value, .. } => lemma_constant_value(value.value, s1, h1, s2, h2),
        Expression::Addition(l, r) => {
            lemma_constant_value(l.value, s1, h1, s2, h2);
            lemma_constant_value(r.value, s1, h1, s2, h2);
        },
        Expression::Subtraction(l, r) => {
            lemma_constant_value(l.value, s1, h1, s2, h2);
            lemma_constant_value(r.value, s1, h1, s2, h2);
        },
        Expression::Multiplication(l, r) => {
            lemma_constant_value(l.value, s1, h1, s2, h2);
            lemma_constant_value(r.value, s1, h1, s2, h2);
        },
        Expression::Division(l, r) => {
            lemma_constant_value(l.value, s1, h1, s2, h2);
            lemma_constant_value(r.value, s1, h1, s2, h2);
        },
        Expression::Modulo(l, r) => {
            lemma_constant_value(l.value, s1, h1, s2, h2);
            lemma_constant_value(r.value, s1, h1, s2, h2);
        },
        Expression::Alternative(l, r) => {
            lemma_constant_value(l.value, s1, h1, s2, h2);
            lemma_constant_value(r.value, s1, h1, s2, h2);
        },
        Expression::Concatenation(l, r) => {
            lemma_constant_value(l.value, s1, h1, s2, h2);
            lemma_constant_value(r.value, s1, h1, s2, h2);
        },
        Expression::Greater(l, r) => {
            lemma_constant_value(l.value, s1, h1, s2, h2);
            lemma_constant_value(r.value, s1, h1, s2, h2);
        },
        Expression::GreaterEqual(l, r) => {
            lemma_constant_value(l.value, s1, h1, s2, h2);
            lemma_constant_value(r.value, s1, h1, s2, h2);
        },
        Expression::Less(l, r) => {
            lemma_constant_value(l.value, s1, h1, s2, h2);
            lemma_constant_value(r.value, s1, h1, s2, h2);
        },
        Expression::LessEqual(l, r) => {
            lemma_constant_value(l.value, s1, h1, s2, h2);
            lemma_constant_value(r.value, s1, h1, s2, h2);
        },
        Expression::Equal(l, r) => {
            lemma_constant_value(l.value, s1, h1, s2, h2);
            lemma_constant_value(r.value, s1, h1, s2, h2);
        },
        Expression::NotEqual(l, r) => {
            lemma_constant_value(l.value, s1, h1, s2, h2);
            lemma_constant_value(r.value, s1, h1, s2, h2);
        },
        _ => {},
    }
}

/// What an operator gives is never a vector or a struct.
proof fn lemma_combine_plain(op: BinaryOp, x: Option<ValueView>, y: Option<ValueView>)
    ensures
        combine(op, x, y) matches Some(v) ==> !(v is Vector) && !(v is Struct),
{
    match (x, y) {
        (Some(a), Some(b)) => {
            match op {
                BinaryOp::Arith(o) => {},
                BinaryOp::Cmp(c) => {},
                BinaryOp::And => {},
                BinaryOp::Or => {},
            }
        },
        _ => {},
    }
}

/// What a unary operator gives is never a vector or a struct.
proof fn lemma_unary_plain(op: UnaryOp, x: Option<ValueView>)
    ensures
        apply_unary(op, x) matches Some(v) ==> !(v is Vector) && !(v is Struct),
{
}

/// What a cast computed here gives is the value itself or neither a vector nor a struct.
proof fn lemma_cast_plain(x: Option<ValueView>, t: Type)
    ensures
        x matches Some(a) ==> (cast_value(a, t) matches Some(v) ==> v == a || (!(v is Vector) && !(v is Struct))),
{
}

/// A name bound in scopes whose cells are all below `n` is bound to a cell below `n`.
pub proof fn lemma_binding_below(ss: Seq<Map<Seq<char>, usize>>, name: Seq<char>, n: nat)
    requires
        crate::stack::scope_manager::cells_below(ss, n),
    ensures
        scopes_binding(ss, name) matches Some(c) ==> c < n,
    decreases ss.len(),
{
    if ss.len() > 0 && !ss[0].dom().contains(name) {
        let d = ss.drop_first();
        assert forall|i: int, nm: Seq<char>| 0 <= i < d.len() && #[trigger] d[i].dom().contains(nm) implies d[i][nm] < n by {
            assert(d[i] == ss[i + 1]);
        }
        lemma_binding_below(d, name, n);
    }
}

/// A store that only grew (new cells and lists after the old ones, the old ones as they
/// were) gives every expression the value it had; that value refers only to old lists.
#[verifier::rlimit(100)]
#[verifier::spinoff_prover]
pub proof fn lemma_value_of_grown(e: Expression, s: StackView, h1: HeapView, h2: HeapView)
    requires
        h1.wf(),
        s.len() > 0,
        crate::stack::stack::frames_cells_below(s, h1.cells.len()),
        h1.cells.len() <= h2.cells.len(),
        h1.vectors.len() <= h2.vectors.len(),
        forall|c: int| 0 <= c < h1.cells.len() ==> #[trigger] h2.cells[c] == h1.cells[c],
        forall|v: int| 0 <= v < h1.vectors.len() ==> #[trigger] h2.vectors[v] == h1.vectors[v],
    ensures
        value_of(e, s, h2) == value_of(e, s, h1),
        value_of(e, s, h1) matches Some(v) ==> refs_within(v, h1.vectors.len()),
    decreases e,
{
    match e {
        Expression::Variable(name) => {
            assert(crate::stack::scope_manager::cells_below(s[s.len() - 1], h1.cells.len()));
            lemma_binding_below(top_scopes(s), name@, h1.cells.len());
        },
        Expression::BooleanNegation(v) => {
            lemma_value_of_grown(v.value, s, h1, h2);
            lemma_unary_plain(UnaryOp::Not, value_of(v.value, s, h1));
        },
        Expression::ArithmeticNegation(v) => {
            lemma_value_of_grown(v.value, s, h1, h2);
            lemma_unary_plain(UnaryOp::Negate, value_of(v.value, s, h1));
        },
        Expression::Casting { value, to_type } => {
            lemma_value_of_grown(value.value, s, h1, h2);
            lemma_cast_plain(value_of(value.value, s, h1), to_type.value);
        },
        Expression::Index { collection, index } => {
            lemma_value_of_grown(collection.value, s, h1, h2);
            lemma_value_of_grown(index.value, s, h1, h2);
        },
        Expression::FieldAccess { instance, .. } => lemma_value_of_grown(instance.value, s, h1, h2),
        Expression::Addition(l, r) => {
            lemma_value_of_grown(l.value, s, h1, h2);
            lemma_value_of_grown(r.value, s, h1, h2);
            lemma_combine_plain(binary_op_of(e).unwrap(), value_of(l.value, s, h1), value_of(r.value, s, h1));
        },
        Expression::Subtraction(l, r) => {
            lemma_value_of_grown(l.value, s, h1, h2);
            lemma_value_of_grown(r.value, s, h1, h2);
            lemma_combine_plain(binary_op_of(e).unwrap(), value_of(l.value, s, h1), value_of(r.value, s, h1));
        },
        Expression::Multiplication(l, r) => {
            lemma_value_of_grown(l.value, s, h1, h2);
            lemma_value_of_grown(r.value, s, h1, h2);
            lemma_combine_plain(binary_op_of(e).unwrap(), value_of(l.value, s, h1), value_of(r.value, s, h1));
        },
        Expression::Division(l, r) => {
            lemma_value_of_grown(l.value, s, h1, h2);
            lemma_value_of_grown(r.value, s, h1, h2);
            lemma_combine_plain(binary_op_of(e).unwrap(), value_of(l.value, s, h1), value_of(r.value, s, h1));
        },
        Expression::Modulo(l, r) => {
            lemma_value_of_grown(l.value, s, h1, h2);
            lemma_value_of_grown(r.value, s, h1, h2);
            lemma_combine_plain(binary_op_of(e).unwrap(), value_of(l.value, s, h1), value_of(r.value, s, h1));
        },
        Expression::Alternative(l, r) => {
            lemma_value_of_grown(l.value, s, h1, h2);
            lemma_value_of_grown(r.value, s, h1, h2);
            lemma_combine_plain(binary_op_of(e).unwrap(), value_of(l.value, s, h1), value_of(r.value, s, h1));
        },
        Expression::Concatenation(l, r) => {
            lemma_value_of_grown(l.value, s, h1, h2);
            lemma_value_of_grown(r.value, s, h1, h2);
            lemma_combine_plain(binary_op_of(e).unwrap(), value_of(l.value, s, h1), value_of(r.value, s, h1));
        },
        Expression::Greater(l, r) => {
            lemma_value_of_grown(l.value, s, h1, h2);
            lemma_value_of_grown(r.value, s, h1, h2);
            lemma_combine_plain(binary_op_of(e).unwrap(), value_of(l.value, s, h1), value_of(r.value, s, h1));
        },
        Expression::GreaterEqual(l, r) => {
            lemma_value_of_grown(l.value, s, h1, h2);
            lemma_value_of_grown(r.value, s, h1, h2);
            lemma_combine_plain(binary_op_of(e).unwrap(), value_of(l.value, s, h1), value_of(r.value, s, h1));
        },
        Expression::Less(l, r) => {
            lemma_value_of_grown(l.value, s, h1, h2);
            lemma_value_of_grown(r.value, s, h1, h2);
            lemma_combine_plain(binary_op_of(e).unwrap(), value_of(l.value, s, h1), value_of(r.value, s, h1));
        },
        Expression::LessEqual(l, r) => {
            lemma_value_of_grown(l.value, s, h1, h2);
            lemma_value_of_grown(r.value, s, h1, h2);
            lemma_combine_plain(binary_op_of(e).unwrap(), value_of(l.value, s, h1), value_of(r.value, s, h1));
        },
        Expression::Equal(l, r) => {
            lemma_value_of_grown(l.value, s, h1, h2);
            lemma_value_of_grown(r.value, s, h1, h2);
            lemma_combine_plain(binary_op_of(e).unwrap(), value_of(l.value, s, h1), value_of(r.value, s, h1));
        },
        Expression::NotEqual(l, r) => {
            lemma_value_of_grown(l.value, s, h1, h2);
            lemma_value_of_grown(r.value, s, h1, h2);
            lemma_combine_plain(binary_op_of(e).unwrap(), value_of(l.value, s, h1), value_of(r.value, s, h1));
        },
        _ => {},
    }
}

/// Every element is a constant expression with a determined value whose evaluation fits
/// in `fuel` steps.
pub open spec fn constant_elements(es: Seq<Box<Node<Expression>>>, s: StackView, h: HeapView, fuel: int) -> bool {
    forall|j: int| 0 <= j < es.len() ==> constant_expr(#[trigger] es[j].value) && value_of(es[j].value, s, h) is Some
        && 3 * expr_height(es[j].value) < fuel
}

/// Two stacks under which every name is bound to the same cell.
pub open spec fn same_bindings(s1: StackView, s2: StackView) -> bool {
    forall|n: Seq<char>| #[trigger] scopes_binding(top_scopes(s1), n) == scopes_binding(top_scopes(s2), n)
}

/// The value of an expression depends on the stack only through the bindings it sees.
pub proof fn lemma_value_of_same_bindings(e: Expression, s1: StackView, s2: StackView, h: HeapView)
    requires
        same_bindings(s1, s2),
    ensures
        value_of(e, s1, h) == value_of(e, s2, h),
    decreases e,
{
    match e {
        Expression::Variable(name) => {
            assert(scopes_binding(top_scopes(s1), name@) == scopes_binding(top_scopes(s2), name@));
        },
        Expression::BooleanNegation(v) => lemma_value_of_same_bindings(v.value, s1, s2, h),
        Expression::ArithmeticNegation(v) => lemma_value_of_same_bindings(v.value, s1, s2, h),
        Expression::Casting { value, .. } => lemma_value_of_same_bindings(value.value, s1, s2, h),
        Expression::Index { collection, index } => {
            lemma_value_of_same_bindings(collection.value, s1, s2, h);
            lemma_value_of_same_bindings(index.value, s1, s2, h);
        },
        Expression::FieldAccess { instance, .. } => lemma_value_of_same_bindings(instance.value, s1, s2, h),
        Expression::Addition(l, r) => {
            lemma_value_of_same_bindings(l.value, s1, s2, h);
            lemma_value_of_same_bindings(r.value, s1, s2, h);
        },
        Expression::Subtraction(l, r) => {
            lemma_value_of_same_bindings(l.value, s1, s2, h);
            lemma_value_of_same_bindings(r.value, s1, s2, h);
        },
        Expression::Multiplication(l, r) => {
            lemma_value_of_same_bindings(l.value, s1, s2, h);
            lemma_value_of_same_bindings(r.value, s1, s2, h);
        },
        Expression::Division(l, r) => {
            lemma_value_of_same_bindings(l.value, s1, s2, h);
            lemma_value_of_same_bindings(r.value, s1, s2, h);
        },
        Expression::Modulo(l, r) => {
            lemma_value_of_same_bindings(l.value, s1, s2, h);
            lemma_value_of_same_bindings(r.value, s1, s2, h);
        },
        Expression::Alternative(l, r) => {
            lemma_value_of_same_bindings(l.value, s1, s2, h);
            lemma_value_of_same_bindings(r.value, s1, s2, h);
        },
        Expression::Concatenation(l, r) => {
            lemma_value_of_same_bindings(l.value, s1, s2, h);
            lemma_value_of_same_bindings(r.value, s1, s2, h);
        },
        Expression::Greater(l, r) => {
            lemma_value_of_same_bindings(l.value, s1, s2, h);
            lemma_value_of_same_bindings(r.value, s1, s2, h);
        },
        Expression::GreaterEqual(l, r) => {
            lemma_value_of_same_bindings(l.value, s1, s2, h);
            lemma_value_of_same_bindings(r.value, s1, s2, h);
        },
        Expression::Less(l, r) => {
            lemma_value_of_same_bindings(l.value, s1, s2, h);
            lemma_value_of_same_bindings(r.value, s1, s2, h);
        },
        Expression::LessEqual(l, r) => {
            lemma_value_of_same_bindings(l.value, s1, s2, h);
            lemma_value_of_same_bindings(r.value, s1, s2, h);
        },
        Expression::Equal(l, r) => {
            lemma_value_of_same_bindings(l.value, s1, s2, h);
            lemma_value_of_same_bindings(r.value, s1, s2, h);
        },
        Expression::NotEqual(l, r) => {
            lemma_value_of_same_bindings(l.value, s1, s2, h);
            lemma_value_of_same_bindings(r.value, s1, s2, h);
        },
        _ => {},
    }
}

/// A pure expression whose value is determined and whose evaluation fits in `fuel` steps.
pub open spec fn evaluable(e: Expression, s: StackView, h: HeapView, fuel: int) -> bool {
    pure_expr(e) && value_of(e, s, h) is Some && 3 * expr_height(e) < fuel
}

/// What a result of an operation is, when it is a value.
pub open spec fn ok_value(r: Result<ValueView, Seq<char>>) -> Option<ValueView> {
    match r {
        Ok(w) => Some(w),
        Err(_) => None,
    }
}

/// The value a binary operator gives on `a` and `b`, when it is determined by them:
/// arithmetic on two doubles (other than `%`) is computed by the host and is left open.
pub open spec fn binary_value(op: BinaryOp, a: ValueView, b: ValueView) -> Option<ValueView> {
    match op {
        BinaryOp::Arith(o) => if a is F64 && b is F64 && o != ArithOp::Rem {
            None
        } else {
            ok_value(arith_exact(o, a, b))
        },
        BinaryOp::Cmp(c) => ok_value(compare_spec(c, a, b)),
        BinaryOp::And => ok_value(concatenation_spec(a, b)),
        BinaryOp::Or => ok_value(alternative_spec(a, b)),
    }
}

/// The value a cast gives, when it does not depend on the host's arithmetic on doubles.
pub open spec fn cast_value(v: ValueView, t: Type) -> Option<ValueView> {
    let host = match (v, t) {
        (ValueView::F64(_), Type::Str) => true,
        (ValueView::F64(_), _) => type_int_kind(t) is Some,
        (ValueView::Str(_), Type::F64) => true,
        (_, Type::F64) => int_parts(v) is Some,
        _ => false,
    };
    if host { None } else { ok_value(cast_exact(v, t)) }
}

/// Whether casting `v` to `t` succeeds: where the result is determined, when it is a
/// value; a double to a string, an integer to a double, and a double whose truncation
/// fits to an integer type always do (the host computes those results).
pub open spec fn cast_succeeds(v: ValueView, t: Type) -> bool {
    ||| cast_value(v, t) is Some
    ||| (v is F64 && t is Str)
    ||| (int_parts(v) is Some && t is F64)
    ||| (v matches ValueView::F64(b) && type_int_kind(t) matches Some(k) && float_castable(k, b))
}

/// Element `i` of the vector value `v`, or character `i` of the string `v`.
pub open spec fn element_value(v: ValueView, i: int, h: HeapView) -> Option<ValueView> {
    match v {
        ValueView::Vector { values, .. } => if 0 <= i < h.vectors[values as int].len() {
            Some(h.cells[h.vectors[values as int][i] as int])
        } else {
            None
        },
        ValueView::Str(t) => if 0 <= i < t.len() { Some(ValueView::Char(t[i])) } else { None },
        _ => None,
    }
}

/// The value held by the first field named `name` of the struct value `v`.
pub open spec fn field_value(v: ValueView, name: Seq<char>, h: HeapView) -> Option<ValueView> {
    match v {
        ValueView::Struct { names, fields, .. } => {
            let j = first_index_of(names, name);
            if 0 <= j < h.vectors[fields as int].len() {
                Some(h.cells[h.vectors[fields as int][j] as int])
            } else {
                None
            }
        },
        _ => None,
    }
}

/// What a unary operator gives on its operand's value.
pub open spec fn apply_unary(op: UnaryOp, x: Option<ValueView>) -> Option<ValueView> {
    match x {
        Some(a) => ok_value(unary_outcome(op, a)),
        None => None,
    }
}

/// Element `i` of the collection's value, for an `i64` index value.
pub open spec fn index_value(collection: Option<ValueView>, index: Option<ValueView>, h: HeapView) -> Option<ValueView> {
    match (collection, index) {
        (Some(cv), Some(ValueView::I64(i))) => element_value(cv, i as int, h),
        _ => None,
    }
}

/// The field `name` of the instance's value.
pub open spec fn access_value(instance: Option<ValueView>, name: Seq<char>, h: HeapView) -> Option<ValueView> {
    match instance {
        Some(iv) => field_value(iv, name, h),
        None => None,
    }
}

/// Both operands' values, combined by `op`.
pub open spec fn combine(op: BinaryOp, x: Option<ValueView>, y: Option<ValueView>) -> Option<ValueView> {
    match (x, y) {
        (Some(a), Some(b)) => binary_value(op, a, b),
        _ => None,
    }
}

/// The value of a pure expression with the variables `s` over the store `h`, where it is
/// determined: a literal's value; what a variable's cell holds; what an operator or a cast
/// gives on its operands' values; the element at a non-negative `i64` index within
/// bounds; the value of the first field of that name. `None` where evaluation is refused
/// or where the host computes the result.
pub open spec fn value_of(e: Expression, s: StackView, h: HeapView) -> Option<ValueView>
    decreases e,
{
    match e {
        Expression::Literal(l) => Some(literal_value(l)),
        Expression::Variable(name) => match scopes_binding(top_scopes(s), name@) {
            Some(c) => Some(h.cells[c as int]),
            None => None,
        },
        Expression::BooleanNegation(v) => apply_unary(UnaryOp::Not, value_of(v.value, s, h)),
        Expression::ArithmeticNegation(v) => apply_unary(UnaryOp::Negate, value_of(v.value, s, h)),
        Expression::Casting { value, to_type } => match value_of(value.value, s, h) {
            Some(a) => cast_value(a, to_type.value),
            None => None,
        },
        Expression::Addition(l, r) => combine(BinaryOp::Arith(ArithOp::Add), value_of(l.value, s, h), value_of(r.value, s, h)),
        Expression::Subtraction(l, r) => combine(BinaryOp::Arith(ArithOp::Sub), value_of(l.value, s, h), value_of(r.value, s, h)),
        Expression::Multiplication(l, r) => combine(BinaryOp::Arith(ArithOp::Mul), value_of(l.value, s, h), value_of(r.value, s, h)),
        Expression::Division(l, r) => combine(BinaryOp::Arith(ArithOp::Div), value_of(l.value, s, h), value_of(r.value, s, h)),
        Expression::Modulo(l, r) => combine(BinaryOp::Arith(ArithOp::Rem), value_of(l.value, s, h), value_of(r.value, s, h)),
        Expression::Alternative(l, r) => combine(BinaryOp::Or, value_of(l.value, s, h), value_of(r.value, s, h)),
        Expression::Concatenation(l, r) => combine(BinaryOp::And, value_of(l.value, s, h), value_of(r.value, s, h)),
        Expression::Greater(l, r) => combine(BinaryOp::Cmp(CmpOp::Greater), value_of(l.value, s, h), value_of(r.value, s, h)),
        Expression::GreaterEqual(l, r) => combine(BinaryOp::Cmp(CmpOp::GreaterEqual), value_of(l.value, s, h), value_of(r.value, s, h)),
        Expression::Less(l, r) => combine(BinaryOp::Cmp(CmpOp::Less), value_of(l.value, s, h), value_of(r.value, s, h)),
        Expression::LessEqual(l, r) => combine(BinaryOp::Cmp(CmpOp::LessEqual), value_of(l.value, s, h), value_of(r.value, s, h)),
        Expression::Equal(l, r) => combine(BinaryOp::Cmp(CmpOp::Equal), value_of(l.value, s, h), value_of(r.value, s, h)),
        Expression::NotEqual(l, r) => combine(BinaryOp::Cmp(CmpOp::NotEqual), value_of(l.value, s, h), value_of(r.value, s, h)),
        Expression::Index { collection, index } => index_value(value_of(collection.value, s, h), value_of(index.value, s, h), h),
        Expression::FieldAccess { instance, field } => access_value(value_of(instance.value, s, h), field.value@, h),
        _ => None,
    }
}

pub open spec fn out_of_bounds_message(idx: int) -> Seq<char> {
    "Index "@ + crate::text::decimal(idx) + " out of bounds."@
}

proof fn lemma_binary_not_vector(op: BinaryOp, v1: ValueView, v2: ValueView, out: Result<ValueView, Seq<char>>)
    requires
        binary_outcome_ok(op, v1, v2, out),
    ensures
        out matches Ok(w) ==> !(w is Vector),
{
}

proof fn lemma_cast_refs(v: ValueView, t: Type, out: Result<ValueView, Seq<char>>, n: nat)
    requires
        cast_outcome_ok(v, t, out),
        refs_within(v, n),
    ensures
        out matches Ok(w) ==> refs_within(w, n),
{
}

pub fn out_of_bounds(idx: usize, span: Span) -> (e: InterpreterError)
    ensures
        e.message@ == out_of_bounds_message(idx as int),
        e.span == span,
{
    let mut m = string_of("Index ");
    append_str(&mut m, format_unsigned(idx as u128).as_str());
    append_str(&mut m, " out of bounds.");
    InterpreterError::at(ErrorSeverity::HIGH, m, span)
}

pub fn computation_failure(e: ComputationError, span: Span) -> (r: InterpreterError)
    ensures
        r.message@ == e.message@,
        r.span == span,
{
    InterpreterError::at(ErrorSeverity::HIGH, e.message, span)
}

impl<'a, R: FloatUnit + Host> Interpreter<'a, R> {
    /// Applies a binary operator.
    pub fn apply_binary(&self, op: BinaryOp, v1: Value, v2: Value, span: Span) -> (r: Result<Value, ComputationError>)
        ensures
            binary_outcome_ok(op, v1@, v2@, outcome(r)),
    {
        match op {
            BinaryOp::Arith(ArithOp::Add) => ALU::add(v1, v2, span, &self.runtime),
            BinaryOp::Arith(ArithOp::Sub) => ALU::subtract(v1, v2, span, &self.runtime),
            BinaryOp::Arith(ArithOp::Mul) => ALU::multiplication(v1, v2, span, &self.runtime),
            BinaryOp::Arith(ArithOp::Div) => ALU::division(v1, v2, span, &self.runtime),
            BinaryOp::Arith(ArithOp::Rem) => ALU::modulo(v1, v2, span, &self.runtime),
            BinaryOp::Cmp(CmpOp::Greater) => ALU::greater(v1, v2, span),
            BinaryOp::Cmp(CmpOp::GreaterEqual) => ALU::greater_or_equal(v1, v2, span),
            BinaryOp::Cmp(CmpOp::Less) => ALU::less(v1, v2, span),
            BinaryOp::Cmp(CmpOp::LessEqual) => ALU::less_or_equal(v1, v2, span),
            BinaryOp::Cmp(CmpOp::Equal) => ALU::equal(v1, v2, span),
            BinaryOp::Cmp(CmpOp::NotEqual) => ALU::not_equal(v1, v2, span),
            BinaryOp::And => ALU::concatenation(v1, v2, span),
            BinaryOp::Or => ALU::alternative(v1, v2, span),
        }
    }

    /// Evaluates an expression, leaving its value as the pending result.
    pub fn eval_expression(&mut self, expression: &Node<Expression>, fuel: u64) -> (r: Result<(), InterpreterError>)
        requires
            old(self).inv(),
        ensures
            pure_expr(expression.value) ==> final(self).heap@ == old(self).heap@ && final(self).stack@ == old(self).stack@,
            r is Ok && old(self).abort_state is None ==> final(self).abort_state is None,
            final(self).kept(*old(self)),
            r is Ok ==> final(self).stack@ == old(self).stack@,
            r is Ok && !(expression.value is FunctionCall) ==> final(self).last_result is Some,
            r is Ok ==> (final(self).last_result matches Some(w) ==> expression_result_ok(expression.value, w@)),
            fuel > 0 && expression.value is Literal ==> r is Ok,
            evaluable(expression.value, old(self).stack@, old(self).heap@, fuel as int) ==> r is Ok,
            fuel > 1 && (expression.value matches Expression::Casting { value, to_type }
                && evaluable(value.value, old(self).stack@, old(self).heap@, fuel - 1)
                && cast_succeeds(value_of(value.value, old(self).stack@, old(self).heap@).unwrap(), to_type.value)) ==> r is Ok,
            r is Ok && pure_expr(expression.value) ==> final(self).heap@ == old(self).heap@
                && (value_of(expression.value, old(self).stack@, old(self).heap@) is Some ==> (final(self).last_result matches Some(w)
                    && Some(w@) == value_of(expression.value, old(self).stack@, old(self).heap@))),
            fuel > 0 ==> (expression.value matches Expression::Variable(name) ==> match scopes_binding(top_scopes(old(self).stack@), name@) {
                Some(c) => r is Ok && (final(self).last_result matches Some(v) && v@ == old(self).heap@.cells[c as int]),
                None => r is Err,
            }),
        decreases fuel, 0nat,
    {
        if fuel == 0 {
            return Err(Self::step_limit(expression.span));
        }
        self.span = expression.span;
        match &expression.value {
            Expression::Casting { value, to_type } => {
                self.eval_expression(value, fuel - 1)?;
                let computed = self.read_last_result()?;
                let ghost cv = computed@;
                let res = ALU::cast_to_type(computed, &to_type.value, self.span, &self.runtime);
                proof { lemma_cast_refs(cv, to_type.value, outcome(res), self.heap@.vectors.len()); }
                match res {
                    Ok(v) => {
                        assert(cast_outcome_ok(cv, to_type.value, Ok::<ValueView, Seq<char>>(v@)));
                        self.last_result = Some(v);
                        proof {
                            if pure_expr(expression.value) {
                                assert(pure_expr(value.value));
                            }
                        }
                        Ok(())
                    },
                    Err(e) => Err(computation_failure(e, self.span)),
                }
            },
            Expression::BooleanNegation(value) => self.evaluate_unary_op(value, UnaryOp::Not, fuel - 1),
            Expression::ArithmeticNegation(value) => self.evaluate_unary_op(value, UnaryOp::Negate, fuel - 1),
            Expression::Addition(lhs, rhs) => self.evaluate_binary_op(lhs, rhs, BinaryOp::Arith(ArithOp::Add), fuel - 1),
            Expression::Subtraction(lhs, rhs) => self.evaluate_binary_op(lhs, rhs, BinaryOp::Arith(ArithOp::Sub), fuel - 1),
            Expression::Multiplication(lhs, rhs) => self.evaluate_binary_op(lhs, rhs, BinaryOp::Arith(ArithOp::Mul), fuel - 1),
            Expression::Division(lhs, rhs) => self.evaluate_binary_op(lhs, rhs, BinaryOp::Arith(ArithOp::Div), fuel - 1),
            Expression::Modulo(lhs, rhs) => self.evaluate_binary_op(lhs, rhs, BinaryOp::Arith(ArithOp::Rem), fuel - 1),
            Expression::Alternative(lhs, rhs) => self.evaluate_binary_op(lhs, rhs, BinaryOp::Or, fuel - 1),
            Expression::Concatenation(lhs, rhs) => self.evaluate_binary_op(lhs, rhs, BinaryOp::And, fuel - 1),
            Expression::Greater(lhs, rhs) => self.evaluate_binary_op(lhs, rhs, BinaryOp::Cmp(CmpOp::Greater), fuel - 1),
            Expression::GreaterEqual(lhs, rhs) => self.evaluate_binary_op(lhs, rhs, BinaryOp::Cmp(CmpOp::GreaterEqual), fuel - 1),
            Expression::Less(lhs, rhs) => self.evaluate_binary_op(lhs, rhs, BinaryOp::Cmp(CmpOp::Less), fuel - 1),
            Expression::LessEqual(lhs, rhs) => self.evaluate_binary_op(lhs, rhs, BinaryOp::Cmp(CmpOp::LessEqual), fuel - 1),
            Expression::Equal(lhs, rhs) => self.evaluate_binary_op(lhs, rhs, BinaryOp::Cmp(CmpOp::Equal), fuel - 1),
            Expression::NotEqual(lhs, rhs) => self.evaluate_binary_op(lhs, rhs, BinaryOp::Cmp(CmpOp::NotEqual), fuel - 1),
            Expression::Literal(literal) => {
                self.eval_literal(literal);
                Ok(())
            },
            Expression::Vector(vector) => self.eval_vector_literal(vector, fuel - 1),
            Expression::Variable(variable) => self.eval_variable(variable.as_str(), expression.span),
            Expression::FunctionCall { identifier, arguments } => self.call_function(identifier, arguments, expression.span, fuel - 1),
            Expression::Index { collection, index } => self.eval_index(collection, index, fuel - 1),
            Expression::StructLiteral { identifier, fields } => self.eval_struct_literal(identifier, fields, expression.span, fuel - 1),
            Expression::FieldAccess { instance, field } => self.eval_field_access(instance, field, fuel - 1),
        }
    }

    /// The value of a literal becomes the pending result.
    pub fn eval_literal(&mut self, literal: &Literal)
        requires
            old(self).inv(),
        ensures
            final(self).inv(),
            final(self).last_result matches Some(v) && v@ == literal_value(*literal),
            final(self).stack@ == old(self).stack@,
            final(self).heap@ == old(self).heap@,
            final(self).abort_state == old(self).abort_state,
            final(self).program == old(self).program,
    {
        let value = match literal {
            Literal::F64(b) => Value::F64(*b),
            Literal::I64(x) => Value::I64(*x),
            Literal::String(s) => Value::String(s.clone()),
            Literal::Char(c) => Value::Char(*c),
            Literal::False => Value::Bool(false),
            Literal::True => Value::Bool(true),
        };
        self.last_result = Some(value);
    }

    /// Evaluates the elements of a vector literal into fresh cells of a fresh vector. Its
    /// type is that of a vector of the first element's type, or `void` when it is empty.
    pub fn eval_vector_literal(&mut self, expressions: &Vec<Box<Node<Expression>>>, fuel: u64) -> (r: Result<(), InterpreterError>)
        requires
            old(self).inv(),
        ensures
            r is Ok && old(self).abort_state is None ==> final(self).abort_state is None,
            final(self).kept(*old(self)),
            r is Ok ==> final(self).stack@ == old(self).stack@,
            r is Ok ==> (final(self).last_result matches Some(v) && v@ matches ValueView::Vector { values, .. }
                && final(self).heap@.vectors[values as int].len() == expressions@.len()),
            fuel > 0 && constant_elements(expressions@, old(self).stack@, old(self).heap@, fuel - 1) ==> r is Ok
                && (final(self).last_result matches Some(v) && v@ matches ValueView::Vector { values, .. }
                && forall|j: int| 0 <= j < expressions@.len() ==> Some(final(self).heap@.cells[
                    #[trigger] final(self).heap@.vectors[values as int][j] as int]) == value_of(expressions@[j].value, old(self).stack@, old(self).heap@)),
            r is Ok ==> (final(self).last_result matches Some(v) && v@ matches ValueView::Vector { values, .. }
                && old(self).heap@.vectors.len() <= values
                && (forall|j: int| 0 <= j < expressions@.len()
                    ==> old(self).heap@.cells.len() <= #[trigger] final(self).heap@.vectors[values as int][j] < final(self).heap@.cells.len())
                && (forall|j: int, k: int| 0 <= j < k < expressions@.len()
                    ==> #[trigger] final(self).heap@.vectors[values as int][j] < #[trigger] final(self).heap@.vectors[values as int][k])),
            r is Ok && (forall|j: int| 0 <= j < expressions@.len() ==> pure_expr(#[trigger] expressions@[j].value))
                ==> (final(self).last_result matches Some(v) && v@ matches ValueView::Vector { values, .. }
                && forall|j: int| 0 <= j < expressions@.len() && value_of(expressions@[j].value, old(self).stack@, old(self).heap@) is Some
                    ==> Some(final(self).heap@.cells[#[trigger] final(self).heap@.vectors[values as int][j] as int])
                        == value_of(expressions@[j].value, old(self).stack@, old(self).heap@)),
        decreases fuel, 0nat,
    {
        if fuel == 0 {
            return Err(Self::step_limit(Span::default_span()));
        }
        let ghost all_const = constant_elements(expressions@, old(self).stack@, old(self).heap@, fuel - 1);
        let ghost all_pure = forall|j: int| 0 <= j < expressions@.len() ==> pure_expr(#[trigger] expressions@[j].value);
        let ghost s0 = old(self).stack@;
        let ghost h0 = old(self).heap@;
        let mut cells: Vec<usize> = Vec::new();
        let n = expressions.len();
        let mut i: usize = 0;
        while i < n
            invariant
                old(self).abort_state is None ==> self.abort_state is None,
                0 <= i <= n,
                n == expressions@.len(),
                self.kept(*old(self)),
                self.stack@ == old(self).stack@,
                cells@.len() == i,
                fuel > 0,
                forall|j: int| 0 <= j < cells@.len() ==> #[trigger] cells@[j] < self.heap@.cells.len(),
                all_const == constant_elements(expressions@, old(self).stack@, old(self).heap@, fuel - 1),
                all_const ==> forall|j: int| 0 <= j < i ==> Some(self.heap@.cells[#[trigger] cells@[j] as int])
                    == value_of(expressions@[j].value, old(self).stack@, old(self).heap@),
                s0 == old(self).stack@,
                h0 == old(self).heap@,
                h0.wf(),
                s0.len() > 0,
                crate::stack::stack::frames_cells_below(s0, h0.cells.len()),
                all_pure == (forall|j: int| 0 <= j < expressions@.len() ==> pure_expr(#[trigger] expressions@[j].value)),
                forall|j: int| 0 <= j < i ==> h0.cells.len() <= #[trigger] cells@[j],
                forall|j: int, k: int| 0 <= j < k < i ==> #[trigger] cells@[j] < #[trigger] cells@[k],
                all_pure ==> self.heap@.vectors == h0.vectors
                    && (forall|c: int| 0 <= c < h0.cells.len() ==> #[trigger] self.heap@.cells[c] == h0.cells[c])
                    && (forall|j: int| 0 <= j < i && value_of(expressions@[j].value, s0, h0) is Some
                        ==> Some(self.heap@.cells[#[trigger] cells@[j] as int]) == value_of(expressions@[j].value, s0, h0)),
            decreases n - i,
        {
            proof {
                if all_const {
                    lemma_constant_value(expressions@[i as int].value, old(self).stack@, old(self).heap@, self.stack@, self.heap@);
                }
            }
            let ghost h_before = self.heap@;
            proof {
                if all_pure {
                    assert(pure_expr(expressions@[i as int].value));
                    lemma_value_of_grown(expressions@[i as int].value, s0, h0, h_before);
                }
            }
            self.eval_expression(&expressions[i], fuel - 1)?;
            let v = self.read_last_result()?;
            let c = self.heap.alloc_cell(v);
            proof {
                if all_pure {
                    assert forall|j: int| 0 <= j < i + 1 && value_of(expressions@[j].value, s0, h0) is Some
                        implies Some(self.heap@.cells[#[trigger] cells@.push(c)[j] as int]) == value_of(expressions@[j].value, s0, h0) by {
                        if j < i {
                            assert(cells@.push(c)[j] == cells@[j]);
                            assert(cells@[j] < h_before.cells.len());
                        }
                    }
                    assert forall|cc: int| 0 <= cc < h0.cells.len() implies #[trigger] self.heap@.cells[cc] == h0.cells[cc] by {
                        assert(self.heap@.cells[cc] == h_before.cells[cc]);
                    }
                }
                if all_const {
                    assert forall|j: int| 0 <= j < i implies Some(self.heap@.cells[#[trigger] cells@[j] as int])
                        == value_of(expressions@[j].value, old(self).stack@, old(self).heap@) by {
                        assert(cells@[j] < h_before.cells.len());
                    }
                }
            }
            cells.push(c);
            i = i + 1;
        }
        let kind = if cells.len() > 0 {
            Type::Vector(Box::new(self.heap.read(cells[0]).to_type()))
        } else {
            Type::Void
        };
        let id = self.heap.alloc_vector(cells);
        self.last_result = Some(Value::Vector { kind: Box::new(kind), values: id });
        Ok(())
    }

    /// The value of a variable becomes the pending result.
    pub fn eval_variable(&mut self, variable: &str, span: Span) -> (r: Result<(), InterpreterError>)
        requires
            old(self).inv(),
        ensures
            r is Ok && old(self).abort_state is None ==> final(self).abort_state is None,
            final(self).kept(*old(self)),
            final(self).stack@ == old(self).stack@,
            final(self).heap@ == old(self).heap@,
            match crate::stack::scope_manager::scopes_binding(crate::stack::stack::top_scopes(old(self).stack@), variable@) {
                Some(c) => r is Ok && (final(self).last_result matches Some(v) && v@ == old(self).heap@.cells[c as int]),
                None => r is Err,
            },
    {
        match self.stack.get_variable(variable, span) {
            Ok(c) => {
                proof {
                    self.stack.lemma_wf();
                    let s = self.stack@;
                    crate::stack::scope_manager::lemma_scopes_binding(s.last(), variable@);
                    assert(crate::stack::scope_manager::cells_below(s[s.len() - 1], self.heap@.cells.len()));
                }
                let v = self.heap.read(c).duplicate();
                assert(refs_within(self.heap@.cells[c as int], self.heap@.vectors.len()));
                self.last_result = Some(v);
                Ok(())
            },
            Err(e) => Err(InterpreterError::at(ErrorSeverity::HIGH, e.message, span)),
        }
    }

    /// Evaluates an index expression and takes the index it gives.
    pub fn eval_index_value(&mut self, index: &Node<Expression>, fuel: u64) -> (r: Result<usize, InterpreterError>)
        requires
            old(self).inv(),
        ensures
            pure_expr(index.value) ==> final(self).heap@ == old(self).heap@ && final(self).stack@ == old(self).stack@,
            r is Ok && old(self).abort_state is None ==> final(self).abort_state is None,
            final(self).kept(*old(self)),
            r is Ok ==> final(self).stack@ == old(self).stack@,
            r matches Ok(i) ==> i <= i64::MAX,
            r is Ok && pure_expr(index.value) ==> final(self).heap@ == old(self).heap@
                && (r matches Ok(i) && (value_of(index.value, old(self).stack@, old(self).heap@) is Some
                    ==> value_of(index.value, old(self).stack@, old(self).heap@) == Some(ValueView::I64(i as i64)))),
            evaluable(index.value, old(self).stack@, old(self).heap@, fuel - 1) ==> (
                value_of(index.value, old(self).stack@, old(self).heap@) matches Some(ValueView::I64(i))
                    && 0 <= i <= usize::MAX ==> r is Ok),
            evaluable(index.value, old(self).stack@, old(self).heap@, fuel - 1)
                && !(value_of(index.value, old(self).stack@, old(self).heap@) matches Some(ValueView::I64(i)) && 0 <= i <= usize::MAX)
                ==> (r matches Err(e) && e.message@ == "Array index must be a non-negative i64."@),
        decreases fuel, 0nat,
    {
        if fuel == 0 {
            return Err(Self::step_limit(index.span));
        }
        self.eval_expression(index, fuel - 1)?;
        let index_value = self.read_last_result()?;
        match index_value {
            Value::I64(i) if i >= 0 && (i as u64) <= (usize::MAX as u64) => Ok(i as usize),
            other => Err(InterpreterError::expected_found(
                ErrorSeverity::HIGH,
                string_of("Array index must be a non-negative i64."),
                string_of("I64"),
                other.to_type().label(),
                index.span,
            )),
        }
    }

    /// Takes the pending result as an index.
    pub fn expect_index(&mut self) -> (r: Result<usize, InterpreterError>)
        requires
            old(self).inv(),
        ensures
            final(self).abort_state == old(self).abort_state,
            final(self).kept(*old(self)),
            final(self).stack@ == old(self).stack@,
            final(self).heap@ == old(self).heap@,
            match old(self).last_result {
                Some(v) => match v@ {
                    ValueView::I64(i) => if 0 <= i <= usize::MAX { r == Ok::<usize, InterpreterError>(i as usize) } else { r is Err },
                    _ => r is Err,
                },
                None => r is Err,
            },
    {
        match self.read_last_result()? {
            Value::I64(i) if i >= 0 && (i as u64) <= (usize::MAX as u64) => Ok(i as usize),
            other => Err(InterpreterError::expected_found(
                ErrorSeverity::HIGH,
                string_of("Array index must be a non-negative i64."),
                string_of("I64"),
                other.to_type().label(),
                self.span,
            )),
        }
    }

    /// Evaluates `collection[index]`: an element of a vector, or a character of a string.
    pub fn eval_index(&mut self, collection: &Node<Expression>, index: &Node<Expression>, fuel: u64) -> (r: Result<(), InterpreterError>)
        requires
            old(self).inv(),
        ensures
            pure_expr(collection.value) && pure_expr(index.value) ==> final(self).heap@ == old(self).heap@ && final(self).stack@ == old(self).stack@,
            r is Ok && old(self).abort_state is None ==> final(self).abort_state is None,
            final(self).kept(*old(self)),
            r is Ok ==> final(self).stack@ == old(self).stack@,
            r is Ok ==> final(self).last_result is Some,
            r is Ok && pure_expr(collection.value) && pure_expr(index.value) ==> final(self).heap@ == old(self).heap@
                && (index_value(value_of(collection.value, old(self).stack@, old(self).heap@), value_of(index.value, old(self).stack@, old(self).heap@), old(self).heap@) is Some
                    ==> (final(self).last_result matches Some(w) && Some(w@) == index_value(
                        value_of(collection.value, old(self).stack@, old(self).heap@),
                        value_of(index.value, old(self).stack@, old(self).heap@),
                        old(self).heap@,
                    ))),
            r is Ok && pure_expr(collection.value) && pure_expr(index.value)
                && value_of(collection.value, old(self).stack@, old(self).heap@) is Some
                && value_of(index.value, old(self).stack@, old(self).heap@) is Some
                ==> index_value(value_of(collection.value, old(self).stack@, old(self).heap@), value_of(index.value, old(self).stack@, old(self).heap@), old(self).heap@) is Some,
            evaluable(collection.value, old(self).stack@, old(self).heap@, fuel - 1)
                && evaluable(index.value, old(self).stack@, old(self).heap@, fuel - 2)
                && index_value(value_of(collection.value, old(self).stack@, old(self).heap@), value_of(index.value, old(self).stack@, old(self).heap@), old(self).heap@) is Some
                ==> r is Ok,
            evaluable(collection.value, old(self).stack@, old(self).heap@, fuel - 1)
                && evaluable(index.value, old(self).stack@, old(self).heap@, fuel - 2)
                && (value_of(index.value, old(self).stack@, old(self).heap@) matches Some(ValueView::I64(k)) && 0 <= k <= usize::MAX)
                ==> match value_of(collection.value, old(self).stack@, old(self).heap@) {
                    Some(ValueView::Vector { values, .. }) => old(self).heap@.vectors[values as int].len()
                        <= value_of(index.value, old(self).stack@, old(self).heap@)->Some_0->I64_0
                        ==> (r matches Err(e) && e.message@ == out_of_bounds_message(value_of(index.value, old(self).stack@, old(self).heap@)->Some_0->I64_0 as int)),
                    Some(ValueView::Str(t)) => t.len() <= value_of(index.value, old(self).stack@, old(self).heap@)->Some_0->I64_0
                        ==> (r matches Err(e) && e.message@ == out_of_bounds_message(value_of(index.value, old(self).stack@, old(self).heap@)->Some_0->I64_0 as int)),
                    _ => r matches Err(e) && e.message@ == "Cannot index into this value."@,
                },
            evaluable(collection.value, old(self).stack@, old(self).heap@, fuel - 1)
                && evaluable(index.value, old(self).stack@, old(self).heap@, fuel - 2)
                && (value_of(collection.value, old(self).stack@, old(self).heap@) matches Some(ValueView::Vector { .. })
                    || value_of(collection.value, old(self).stack@, old(self).heap@) matches Some(ValueView::Str(_)))
                && (value_of(index.value, old(self).stack@, old(self).heap@) matches Some(ValueView::I64(k)) && k < 0)
                ==> (r matches Err(e) && e.message@ == "Array index must be a non-negative i64."@),
        decreases fuel, 0nat,
    {
        if fuel == 0 {
            return Err(Self::step_limit(collection.span));
        }
        self.eval_expression(collection, fuel - 1)?;
        let collection_value = self.read_last_result()?;
        let ghost cv = collection_value@;
        let ghost pure = pure_expr(collection.value) && pure_expr(index.value);
        match collection_value {
            Value::Vector { values, .. } => {
                proof {
                    if pure {
                        self.heap.lemma_vector_len_fits(values as int);
                    }
                }
                let idx = self.eval_index_value(index, fuel - 1)?;
                if idx < self.heap.vector_len(values) {
                    let c = self.heap.vector_cell(values, idx);
                    let v = self.heap.read(c).duplicate();
                    assert(refs_within(self.heap@.cells[c as int], self.heap@.vectors.len()));
                    self.last_result = Some(v);
                    proof {
                        if pure {
                            assert(self.heap@ == old(self).heap@);
                        }
                    }
                    Ok(())
                } else {
                    Err(out_of_bounds(idx, index.span))
                }
            },
            Value::String(s) => {
                let count = char_count(&s);
                let idx = self.eval_index_value(index, fuel - 1)?;
                if idx < count {
                    let ch = char_at(&s, idx);
                    self.last_result = Some(Value::Char(ch));
                    proof {
                        if pure {
                            assert(self.heap@ == old(self).heap@);
                        }
                    }
                    Ok(())
                } else {
                    Err(out_of_bounds(idx, index.span))
                }
            },
            other => Err(InterpreterError::expected_found(
                ErrorSeverity::HIGH,
                string_of("Cannot index into this value."),
                string_of("Vector or Str"),
                other.to_type().label(),
                collection.span,
            )),
        }
    }

    /// Evaluates both operands, left first, and applies the operator.
    pub fn evaluate_binary_op(&mut self, lhs: &Node<Expression>, rhs: &Node<Expression>, op: BinaryOp, fuel: u64) -> (r: Result<(), InterpreterError>)
        requires
            old(self).inv(),
        ensures
            pure_expr(lhs.value) && pure_expr(rhs.value) ==> final(self).heap@ == old(self).heap@ && final(self).stack@ == old(self).stack@,
            r is Ok && old(self).abort_state is None ==> final(self).abort_state is None,
            final(self).kept(*old(self)),
            r is Ok ==> final(self).stack@ == old(self).stack@,
            r is Ok ==> (final(self).last_result matches Some(w)
                && exists|a: ValueView, b: ValueView| binary_outcome_ok(op, a, b, Ok::<ValueView, Seq<char>>(w@))),
            r is Ok && pure_expr(lhs.value) && pure_expr(rhs.value) ==> final(self).heap@ == old(self).heap@
                && (combine(op, value_of(lhs.value, old(self).stack@, old(self).heap@), value_of(rhs.value, old(self).stack@, old(self).heap@)) is Some
                    ==> (final(self).last_result matches Some(w) && Some(w@) == combine(
                        op,
                        value_of(lhs.value, old(self).stack@, old(self).heap@),
                        value_of(rhs.value, old(self).stack@, old(self).heap@),
                    ))),
            evaluable(lhs.value, old(self).stack@, old(self).heap@, fuel - 1)
                && evaluable(rhs.value, old(self).stack@, old(self).heap@, fuel - 1)
                && combine(op, value_of(lhs.value, old(self).stack@, old(self).heap@), value_of(rhs.value, old(self).stack@, old(self).heap@)) is Some
                ==> r is Ok,
        decreases fuel, 0nat,
    {
        if fuel == 0 {
            return Err(Self::step_limit(lhs.span));
        }
        self.eval_expression(lhs, fuel - 1)?;
        let left_value = self.read_last_result()?;
        self.eval_expression(rhs, fuel - 1)?;
        let right_value = self.read_last_result()?;
        let res = self.apply_binary(op, left_value, right_value, self.span);
        proof { lemma_binary_not_vector(op, left_value@, right_value@, outcome(res)); }
        match res {
            Ok(v) => {
                assert(binary_outcome_ok(op, left_value@, right_value@, Ok::<ValueView, Seq<char>>(v@)));
                self.last_result = Some(v);

                Ok(())
            },
            Err(e) => Err(computation_failure(e, self.span)),
        }
    }

    /// Evaluates the operand and applies the operator.
    pub fn evaluate_unary_op(&mut self, value: &Node<Expression>, op: UnaryOp, fuel: u64) -> (r: Result<(), InterpreterError>)
        requires
            old(self).inv(),
        ensures
            pure_expr(value.value) ==> final(self).heap@ == old(self).heap@ && final(self).stack@ == old(self).stack@,
            r is Ok && old(self).abort_state is None ==> final(self).abort_state is None,
            final(self).kept(*old(self)),
            r is Ok ==> final(self).stack@ == old(self).stack@,
            r is Ok ==> (final(self).last_result matches Some(w)
                && exists|v: ValueView| unary_outcome(op, v) == Ok::<ValueView, Seq<char>>(w@)),
            r is Ok && pure_expr(value.value) ==> final(self).heap@ == old(self).heap@
                && (apply_unary(op, value_of(value.value, old(self).stack@, old(self).heap@)) is Some
                    ==> (final(self).last_result matches Some(w)
                    && Some(w@) == apply_unary(op, value_of(value.value, old(self).stack@, old(self).heap@)))),
            evaluable(value.value, old(self).stack@, old(self).heap@, fuel - 1)
                && apply_unary(op, value_of(value.value, old(self).stack@, old(self).heap@)) is Some ==> r is Ok,
        decreases fuel, 0nat,
    {
        if fuel == 0 {
            return Err(Self::step_limit(value.span));
        }
        self.eval_expression(value, fuel - 1)?;
        let computed = self.read_last_result()?;
        let ghost cv = computed@;
        let res = match op {
            UnaryOp::Not => ALU::boolean_negate(computed, self.span),
            UnaryOp::Negate => ALU::arithmetic_negate(computed, self.span),
        };
        match res {
            Ok(v) => {
                assert(unary_outcome(op, cv) == Ok::<ValueView, Seq<char>>(v@));
                self.last_result = Some(v);

                Ok(())
            },
            Err(e) => Err(computation_failure(e, self.span)),
        }
    }
}

} // verus!
