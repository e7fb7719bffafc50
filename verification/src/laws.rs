use vstd::prelude::*;
use crate::alu::arithmetic::{arith_outcome_ok, checked_result, ArithOp};
use crate::alu::double::{double_denotes_integer, double_exponent, lemma_nearest_is_exact, lemma_trunc_of_exact};
use crate::alu::cast::float_castable;
use crate::alu::product::{double_unit_exponent, double_units, nearest_scaled, overflow_threshold, scaled};
use crate::alu::{float_is_finite, float_magnitude};
use crate::alu::cast::cast_outcome_ok;
use crate::alu::comparison::{compare_spec, CmpOp};
use crate::alu::logical::{alternative_spec, concatenation_spec};
use crate::alu::unary::{arithmetic_negate_spec, boolean_negate_spec};
use crate::ast::Expression;
use crate::heap::HeapView;
use crate::interpreter::expressions::{lemma_value_of_grown, value_of};
use crate::interpreter::StackView;
use crate::stack::scope_manager::{lemma_scopes_binding, no_shadowing, scopes_binding};
use crate::stack::stack::{declared, popped_frame, popped_scope, pushed_frame, pushed_scope, top_scopes};
use crate::types::{kind_type, IntKind, Type};
use crate::value::{int_parts, view_type, ValueView};

verus! {

/// Closing a scope right after opening one gives the stack back.
pub proof fn law_pop_scope_undoes_push_scope(s: StackView)
    ensures
        popped_scope(pushed_scope(s)) == s,
{
    if s.len() > 0 {
        let p = pushed_scope(s);
        assert(p.last() == s.last().push(Map::empty()));
        assert(p.last().drop_last() =~= s.last());
        assert(popped_scope(p) =~= s);
    }
}

/// Closing a frame right after opening one gives the stack back.
pub proof fn law_pop_frame_undoes_push_frame(s: StackView)
    ensures
        popped_frame(pushed_frame(s)) == s,
{
    assert(pushed_frame(s).drop_last() =~= s);
}

/// A name that is not visible yet and is declared is then found, bound to its cell.
pub proof fn law_declared_name_is_found(s: StackView, name: Seq<char>, cell: usize)
    requires
        s.len() > 0,
        s.last().len() > 0,
        no_shadowing(s.last()),
        scopes_binding(top_scopes(s), name) is None,
    ensures
        scopes_binding(top_scopes(declared(s, name, cell)), name) == Some(cell),
{
    let d = declared(s, name, cell);
    let sc = d.last();
    lemma_scopes_binding(s.last(), name);
    assert(sc == s.last().update(s.last().len() - 1, s.last().last().insert(name, cell)));
    assert(no_shadowing(sc)) by {
        assert forall|i: int, j: int, k: Seq<char>|
            0 <= i < j < sc.len() && #[trigger] sc[i].dom().contains(k) implies !#[trigger] sc[j].dom().contains(k) by {
            if j == sc.len() - 1 {
                assert(sc[i] == s.last()[i]);
                if k != name {
                    assert(!s.last()[j].dom().contains(k));
                }
            } else {
                assert(sc[i] == s.last()[i]);
                assert(sc[j] == s.last()[j]);
            }
        }
    }
    lemma_scopes_binding(sc, name);
    assert(sc[sc.len() - 1].dom().contains(name));
}

/// Declaring a name leaves what every other name is bound to as it was.
pub proof fn law_declare_keeps_other_names(s: StackView, name: Seq<char>, cell: usize, other: Seq<char>)
    requires
        s.len() > 0,
        s.last().len() > 0,
        no_shadowing(s.last()),
        scopes_binding(top_scopes(s), name) is None,
        other != name,
    ensures
        scopes_binding(top_scopes(declared(s, name, cell)), other) == scopes_binding(top_scopes(s), other),
{
    let d = declared(s, name, cell);
    let sc = d.last();
    lemma_scopes_binding(s.last(), name);
    lemma_scopes_binding(s.last(), other);
    assert(sc == s.last().update(s.last().len() - 1, s.last().last().insert(name, cell)));
    assert(no_shadowing(sc)) by {
        assert forall|i: int, j: int, k: Seq<char>|
            0 <= i < j < sc.len() && #[trigger] sc[i].dom().contains(k) implies !#[trigger] sc[j].dom().contains(k) by {
            assert(sc[i] == s.last()[i]);
            if j == sc.len() - 1 {
                if k != name {
                    assert(!s.last()[j].dom().contains(k));
                }
            } else {
                assert(sc[j] == s.last()[j]);
            }
        }
    }
    lemma_scopes_binding(sc, other);
    assert forall|i: int| 0 <= i < sc.len() implies (#[trigger] sc[i]).dom().contains(other) == s.last()[i].dom().contains(other)
        && (sc[i].dom().contains(other) ==> sc[i][other] == s.last()[i][other]) by {
    }
    if scopes_binding(sc, other) is Some {
        let i = choose|i: int| 0 <= i < sc.len() && sc[i].dom().contains(other);
        assert(s.last()[i].dom().contains(other));
    }
    if scopes_binding(top_scopes(s), other) is Some {
        let i = choose|i: int| 0 <= i < s.last().len() && s.last()[i].dom().contains(other);
        assert(sc[i].dom().contains(other));
    }
}

/// A name declared inside a scope is no longer visible once that scope is closed.
pub proof fn law_declaration_ends_with_its_scope(s: StackView, name: Seq<char>, cell: usize)
    requires
        s.len() > 0,
        no_shadowing(s.last()),
        scopes_binding(top_scopes(s), name) is None,
    ensures
        popped_scope(declared(pushed_scope(s), name, cell)) == s,
        scopes_binding(top_scopes(popped_scope(declared(pushed_scope(s), name, cell))), name) is None,
{
    let p = pushed_scope(s);
    let d = declared(p, name, cell);
    assert(p.last() == s.last().push(Map::empty()));
    assert(d.last() == p.last().update(p.last().len() - 1, p.last().last().insert(name, cell)));
    assert(d.last().drop_last() =~= s.last());
    assert(popped_scope(d) =~= s);
}

/// A function's frame sees none of its caller's variables.
pub proof fn law_new_frame_sees_no_variable(s: StackView, name: Seq<char>)
    ensures
        scopes_binding(top_scopes(pushed_frame(s)), name) is None,
{
    let t = top_scopes(pushed_frame(s));
    assert(t == seq![Map::<Seq<char>, usize>::empty()]);
    crate::stack::scope_manager::lemma_scopes_binding_none(t, name);
}

/// A value written into a cell is what that cell then holds; no other cell changes.
pub proof fn law_write_then_read(h: HeapView, c: int, v: ValueView, other: int)
    requires
        0 <= c < h.cells.len(),
        0 <= other < h.cells.len(),
        other != c,
    ensures
        h.set_cell(c, v).cells[c] == v,
        h.set_cell(c, v).cells[other] == h.cells[other],
        h.set_cell(c, v).cells.len() == h.cells.len(),
        h.set_cell(c, v).vectors == h.vectors,
{
}

/// Reading a variable after a value was written into its cell gives that value.
pub proof fn law_variable_reads_what_was_written(s: StackView, h: HeapView, name: String, c: usize, v: ValueView)
    requires
        scopes_binding(top_scopes(s), name@) == Some(c),
        c < h.cells.len(),
    ensures
        value_of(Expression::Variable(name), s, h.set_cell(c as int, v)) == Some(v),
{
}

/// `!=` gives the negation of what `==` gives, and refuses exactly what `==` refuses.
pub proof fn law_not_equal_negates_equal(a: ValueView, b: ValueView)
    ensures
        compare_spec(CmpOp::Equal, a, b) is Ok <==> compare_spec(CmpOp::NotEqual, a, b) is Ok,
        compare_spec(CmpOp::Equal, a, b) matches Ok(ValueView::Bool(x))
            ==> compare_spec(CmpOp::NotEqual, a, b) == Ok::<ValueView, Seq<char>>(ValueView::Bool(!x)),
{
}

/// `a > b` gives what `b < a` gives, and `a >= b` what `b <= a` gives.
pub proof fn law_greater_is_flipped_less(a: ValueView, b: ValueView)
    ensures
        compare_spec(CmpOp::Greater, a, b) is Ok <==> compare_spec(CmpOp::Less, b, a) is Ok,
        compare_spec(CmpOp::Greater, a, b) is Ok ==> compare_spec(CmpOp::Greater, a, b) == compare_spec(CmpOp::Less, b, a),
        compare_spec(CmpOp::GreaterEqual, a, b) is Ok ==> compare_spec(CmpOp::GreaterEqual, a, b) == compare_spec(CmpOp::LessEqual, b, a),
        compare_spec(CmpOp::GreaterEqual, a, b) is Ok <==> compare_spec(CmpOp::LessEqual, b, a) is Ok,
{
}

/// `&&` and `||` do not depend on the order of their operands' values.
pub proof fn law_logical_operators_commute(a: ValueView, b: ValueView)
    ensures
        concatenation_spec(a, b) is Ok ==> concatenation_spec(a, b) == concatenation_spec(b, a),
        alternative_spec(a, b) is Ok ==> alternative_spec(a, b) == alternative_spec(b, a),
{
}

/// Negating a boolean twice gives it back.
pub proof fn law_boolean_negation_twice(b: bool)
    ensures
        boolean_negate_spec(ValueView::Bool(b)) matches Ok(w) && boolean_negate_spec(w) == Ok::<ValueView, Seq<char>>(ValueView::Bool(b)),
{
}

/// Negating a number twice gives it back whenever the first negation succeeds.
pub proof fn law_arithmetic_negation_twice(v: ValueView)
    ensures
        arithmetic_negate_spec(v) matches Ok(w) ==> arithmetic_negate_spec(w) == Ok::<ValueView, Seq<char>>(v),
{
    match v {
        ValueView::F64(b) => {
            assert(crate::alu::float_neg(crate::alu::float_neg(b)) == b);
        },
        _ => {},
    }
}

/// Integer addition does not depend on the order of its operands.
pub proof fn law_integer_addition_commutes(k: IntKind, a: int, b: int)
    ensures
        checked_result(ArithOp::Add, k, a, b) == checked_result(ArithOp::Add, k, b, a),
        checked_result(ArithOp::Mul, k, a, b) == checked_result(ArithOp::Mul, k, b, a),
{
    assert(a * b == b * a) by (nonlinear_arith);
}

/// Subtracting what was added gives back the first operand.
pub proof fn law_subtraction_undoes_addition(k: IntKind, a: int, b: int, sum: int)
    requires
        crate::types::in_kind_range(k, a),
        crate::types::in_kind_range(k, b),
        checked_result(ArithOp::Add, k, a, b) == Some(sum),
    ensures
        checked_result(ArithOp::Sub, k, sum, b) == Some(a),
{
}

/// Casting a value to its own type gives the value back.
pub proof fn law_cast_to_own_type(v: ValueView, out: Result<ValueView, Seq<char>>)
    ensures
        cast_outcome_ok(v, view_type(v), out) <==> out == Ok::<ValueView, Seq<char>>(v),
{
}

/// Casting an integer to `f64` gives a double with the integer's sign that is zero only for
/// zero, and that denotes the integer exactly when it has at most 53 binary digits.
pub proof fn law_integer_to_double(v: ValueView, out: Result<ValueView, Seq<char>>)
    requires
        int_parts(v) is Some,
        cast_outcome_ok(v, Type::F64, out),
    ensures
        out matches Ok(ValueView::F64(b))
            && (b >= 0x8000_0000_0000_0000 <==> int_parts(v).unwrap().1 < 0)
            && (b == 0 <==> int_parts(v).unwrap().1 == 0)
            && (-0x20_0000_0000_0000 <= int_parts(v).unwrap().1 <= 0x20_0000_0000_0000
                ==> double_denotes_integer(b, int_parts(v).unwrap().1)),
{
    let x = int_parts(v).unwrap().1;
    let b = out->Ok_0->F64_0;
    if x != 0 {
        assert(b != 0) by {
            if b == 0 {
                assert(double_exponent(b) == 0);
            }
        }
    }
    if -0x20_0000_0000_0000 <= x <= 0x20_0000_0000_0000 {
        lemma_nearest_is_exact(b, x);
    }
}

/// On two doubles, a product that is a double has the sign bit of the first operand
/// exclusive-or that of the second; multiplying by one gives the other operand back; a zero
/// times a finite double, or a finite double times a zero, is a zero.
pub proof fn law_double_product(a: u64, b: u64, out: Result<ValueView, Seq<char>>)
    requires
        arith_outcome_ok(ArithOp::Mul, ValueView::F64(a), ValueView::F64(b), out),
    ensures
        out matches Ok(ValueView::F64(r)) ==> (
            (r >= 0x8000_0000_0000_0000) == ((a >= 0x8000_0000_0000_0000) != (b >= 0x8000_0000_0000_0000))
            && (b == 0x3ff0_0000_0000_0000 ==> r == a)
            && (a == 0x3ff0_0000_0000_0000 ==> r == b)
            && ((float_magnitude(a) == 0 && float_is_finite(b)) || (float_magnitude(b) == 0 && float_is_finite(a))
                ==> float_magnitude(r) == 0)),
{
}

/// On two doubles, a quotient that is a double has the sign bit of the dividend
/// exclusive-or that of the divisor; dividing by one gives the dividend back; a zero over a
/// finite non-zero double is a zero.
pub proof fn law_double_quotient(a: u64, b: u64, out: Result<ValueView, Seq<char>>)
    requires
        arith_outcome_ok(ArithOp::Div, ValueView::F64(a), ValueView::F64(b), out),
    ensures
        out matches Ok(ValueView::F64(r)) ==> (
            (r >= 0x8000_0000_0000_0000) == ((a >= 0x8000_0000_0000_0000) != (b >= 0x8000_0000_0000_0000))
            && (b == 0x3ff0_0000_0000_0000 ==> r == a)
            && (float_magnitude(a) == 0 && float_is_finite(b) && float_magnitude(b) != 0 ==> float_magnitude(r) == 0)),
{
}

/// On two doubles, a sum that is a double of operands of one sign has that sign, and
/// adding a negative zero, on either side, gives the other operand back.
pub proof fn law_double_sum(a: u64, b: u64, out: Result<ValueView, Seq<char>>)
    requires
        arith_outcome_ok(ArithOp::Add, ValueView::F64(a), ValueView::F64(b), out),
    ensures
        out matches Ok(ValueView::F64(r)) ==> (
            ((a >= 0x8000_0000_0000_0000) == (b >= 0x8000_0000_0000_0000)
                ==> (r >= 0x8000_0000_0000_0000) == (a >= 0x8000_0000_0000_0000))
            && (b == 0x8000_0000_0000_0000 ==> r == a)
            && (a == 0x8000_0000_0000_0000 ==> r == b)),
{
}

/// On two doubles, a difference that is a double of operands of opposite signs has the
/// sign of the first, and subtracting a positive zero gives the first operand back.
pub proof fn law_double_difference(a: u64, b: u64, out: Result<ValueView, Seq<char>>)
    requires
        arith_outcome_ok(ArithOp::Sub, ValueView::F64(a), ValueView::F64(b), out),
    ensures
        out matches Ok(ValueView::F64(r)) ==> (
            ((a >= 0x8000_0000_0000_0000) != (b >= 0x8000_0000_0000_0000)
                ==> (r >= 0x8000_0000_0000_0000) == (a >= 0x8000_0000_0000_0000))
            && (b == 0 ==> r == a)),
{
}

/// An integer of at most 53 binary digits cast to `f64`, and that double cast back to the
/// integer's own kind, gives the integer again.
pub proof fn law_integer_double_round_trip(v: ValueView, b: u64, out: Result<ValueView, Seq<char>>)
    requires
        int_parts(v) is Some,
        -0x20_0000_0000_0000 <= int_parts(v).unwrap().1 <= 0x20_0000_0000_0000,
        cast_outcome_ok(v, Type::F64, Ok(ValueView::F64(b))),
        float_castable(int_parts(v).unwrap().0, b),
        cast_outcome_ok(ValueView::F64(b), kind_type(int_parts(v).unwrap().0), out),
    ensures
        out matches Ok(w) && int_parts(w) == int_parts(v),
{
    let x = int_parts(v).unwrap().1;
    lemma_nearest_is_exact(b, x);
    lemma_trunc_of_exact(b, x);
}

/// On two finite doubles, multiplication gives the double nearest to the exact product of
/// the numbers they denote (ties to an even significand), and is refused exactly when that
/// product reaches the least magnitude that rounds to infinity.
pub proof fn law_double_product_is_rounded(a: u64, b: u64, out: Result<ValueView, Seq<char>>)
    requires
        arith_outcome_ok(ArithOp::Mul, ValueView::F64(a), ValueView::F64(b), out),
        float_is_finite(a),
        float_is_finite(b),
    ensures
        out is Ok <==> double_units(a) * double_units(b) * scaled(double_unit_exponent(a) + double_unit_exponent(b))
            < overflow_threshold(),
        out matches Ok(ValueView::F64(r)) ==> nearest_scaled(r, double_units(a) * double_units(b),
            double_unit_exponent(a) + double_unit_exponent(b)),
{
}

/// Allocating new cells and lists changes the value of no expression: over a store that
/// only grew, every expression has the value it had, and that value refers to old lists.
pub proof fn law_value_survives_allocation(e: Expression, s: StackView, h1: HeapView, h2: HeapView)
    requires
        h1.wf(),
        s.len() > 0,
        crate::stack::stack::frames_cells_below(s, h1.cells.len()),
        h1.cells.len() <= h2.cells.len(),
        h1.vectors.len() <= h2.vectors.len(),
        forall|c: int| 0 <= c < h1.cells.len() ==> #[trigger] h2.cells[c] == h1.cells[c],
        forall|v: int| 0 <= v < h1.vectors.len() ==> #[trigger] h2.vectors[v] == h1.vectors[v],
    ensures
        value_of(e, s, h2) == value_of(e, s, h1),
{
    lemma_value_of_grown(e, s, h1, h2);
}

} // verus!
