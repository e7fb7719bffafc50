use vstd::prelude::*;
use crate::alu::FloatUnit;
use crate::ast::{Node, VariableDeclarationKind};
use crate::errors::{ErrorSeverity, InterpreterError};
use crate::heap::HeapView;
use crate::interpreter::{same_but_innermost, Host, Interpreter, StackView};
use crate::interpreter::expressions::{evaluable, pure_expr, value_of};
use crate::interpreter::statements::{lemma_declare_cells_below, lemma_declare_same_but_innermost};
use crate::span::Span;
use crate::stack::scope_manager::{lemma_scopes_binding, scopes_binding};
use crate::stack::stack::top_scopes;
use crate::text::{append_str, string_of};
use crate::types::Type;
use crate::value::{default_for, refs_within, view_type, Value, ValueView};
use crate::stack::scope::redeclare_message;

verus! {

/// The elements of vector `values` of the store all have type `t`.
pub open spec fn elements_of_type(h: HeapView, values: usize, t: Type) -> bool {
    forall|j: int| 0 <= j < h.vectors[values as int].len()
        ==> view_type(h.cells[#[trigger] h.vectors[values as int][j] as int]) == t
}

/// What a declaration with a declared type binds for the value `v`: `v` when it has that
/// type (a vector: when every element has the declared element type, an empty one taking
/// the declared type), or nothing when `v` is refused.
pub open spec fn typed_declaration_value(t: Type, v: ValueView, h: HeapView) -> Option<ValueView> {
    match t {
        Type::Vector(inner) => match v {
            ValueView::Vector { values, .. } => if elements_of_type(h, values, *inner) {
                if h.vectors[values as int].len() == 0 {
                    Some(ValueView::Vector { kind: t, values })
                } else {
                    Some(v)
                }
            } else {
                None
            },
            _ => None,
        },
        _ => if !(v is Vector) && view_type(v) == t { Some(v) } else { None },
    }
}

/// What a `let` declaration binds for the value `v`: an empty vector takes the annotated
/// type, which must be a vector type (and must be given); the result must have the
/// annotated type when there is one.
pub open spec fn let_declaration_value(t: Option<Type>, v: ValueView, h: HeapView) -> Option<ValueView> {
    let w = match v {
        ValueView::Vector { values, .. } => if h.vectors[values as int].len() == 0 {
            match t {
                Some(ty) => if ty is Vector { Some(ValueView::Vector { kind: ty, values }) } else { None },
                None => None,
            }
        } else {
            Some(v)
        },
        _ => Some(v),
    };
    match w {
        Some(x) => match t {
            Some(ty) => if view_type(x) == ty { Some(x) } else { None },
            None => Some(x),
        },
        None => None,
    }
}

/// The declared type of a `let`, if it is annotated.
pub open spec fn annotation(t: Option<Node<Type>>) -> Option<Type> {
    match t {
        Some(n) => Some(n.value),
        None => None,
    }
}

/// A declaration binds a value that it accepts.
pub open spec fn declaration_accepts(kind: VariableDeclarationKind, v: ValueView, h: HeapView) -> bool {
    match kind {
        VariableDeclarationKind::TYPE { var_type, .. } => typed_declaration_value(var_type.value, v, h) == Some(v),
        VariableDeclarationKind::LET { var_type, .. } => let_declaration_value(annotation(var_type), v, h) == Some(v),
    }
}

/// The value of a declaration's initial expression, where it is pure and its value is
/// determined (see `value_of`).
pub open spec fn declared_value(kind: VariableDeclarationKind, s: StackView, h: HeapView) -> Option<ValueView> {
    match kind {
        VariableDeclarationKind::TYPE { value: Some(e), .. } => if pure_expr(e.value) { value_of(e.value, s, h) } else { None },
        VariableDeclarationKind::TYPE { value: None, .. } => None,
        VariableDeclarationKind::LET { value, .. } => if pure_expr(value.value) { value_of(value.value, s, h) } else { None },
    }
}

/// A declaration whose initial expression is evaluable within `fuel` steps and whose
/// value, not a vector, has the declared type (or any type, for a `let` without one), or
/// a typed declaration without a value of a scalar type that has a default.
pub open spec fn declaration_succeeds(kind: VariableDeclarationKind, s: StackView, h: HeapView, fuel: int) -> bool {
    match kind {
        VariableDeclarationKind::TYPE { var_type, value: Some(e) } => {
            &&& evaluable(e.value, s, h, fuel - 1)
            &&& !(var_type.value is Vector)
            &&& !(value_of(e.value, s, h).unwrap() is Vector)
            &&& view_type(value_of(e.value, s, h).unwrap()) == var_type.value
        },
        VariableDeclarationKind::TYPE { var_type, value: None } => !(var_type.value is Vector) && default_for(var_type.value, 0) is Some,
        VariableDeclarationKind::LET { var_type, value } => {
            &&& evaluable(value.value, s, h, fuel - 1)
            &&& !(value_of(value.value, s, h).unwrap() is Vector)
            &&& (annotation(var_type) matches Some(t) ==> view_type(value_of(value.value, s, h).unwrap()) == t)
        },
    }
}

/// A typed declaration of a scalar type whose initial expression is evaluable within
/// `fuel` steps but gives a value of another type (or a vector).
pub open spec fn declaration_mistyped(kind: VariableDeclarationKind, s: StackView, h: HeapView, fuel: int) -> bool {
    match kind {
        VariableDeclarationKind::TYPE { var_type, value: Some(e) } => {
            &&& evaluable(e.value, s, h, fuel - 1)
            &&& !(var_type.value is Vector)
            &&& (value_of(e.value, s, h).unwrap() is Vector || view_type(value_of(e.value, s, h).unwrap()) != var_type.value)
        },
        _ => false,
    }
}

/// A non-vector value `d` has the type the declaration names, where it names one.
pub open spec fn declared_type_matches(kind: VariableDeclarationKind, d: ValueView) -> bool {
    match kind {
        VariableDeclarationKind::TYPE { var_type, .. } => view_type(d) == var_type.value,
        VariableDeclarationKind::LET { var_type, .. } => annotation(var_type) matches Some(t) ==> view_type(d) == t,
    }
}

/// `prefix`, the variable's name, then `suffix`.
fn named_message(prefix: &str, name: &str, suffix: &str) -> (m: String)
    ensures
        m@ == prefix@ + name@ + suffix@,
{
    let mut m = string_of(prefix);
    append_str(&mut m, name);
    append_str(&mut m, suffix);
    m
}

impl<'a, R: FloatUnit + Host> Interpreter<'a, R> {
    /// The first element of vector `values` whose type is not `t`, if any.
    pub fn first_element_not_of_type(&self, values: usize, t: &Type) -> (r: Option<usize>)
        requires
            self.inv(),
            values < self.heap@.vectors.len(),
        ensures
            match r {
                None => elements_of_type(self.heap@, values, *t),
                Some(j) => j < self.heap@.vectors[values as int].len()
                    && view_type(self.heap@.cells[self.heap@.vectors[values as int][j as int] as int]) != *t,
            },
    {
        let n = self.heap.vector_len(values);
        let mut i: usize = 0;
        while i < n
            invariant
                self.inv(),
                values < self.heap@.vectors.len(),
                0 <= i <= n,
                n == self.heap@.vectors[values as int].len(),
                forall|j: int| 0 <= j < i
                    ==> view_type(self.heap@.cells[#[trigger] self.heap@.vectors[values as int][j] as int]) == *t,
            decreases n - i,
        {
            let c = self.heap.vector_cell(values, i);
            assert(c < self.heap@.cells.len());
            if !self.heap.read(c).to_type().same_as(t) {
                return Some(i);
            }
            i = i + 1;
        }
        None
    }

    /// Binds an existing cell to `name` in the innermost scope.
    pub fn declare_cell(&mut self, name: &str, c: usize, span: Span) -> (r: Result<(), InterpreterError>)
        requires
            old(self).inv(),
            c < old(self).heap@.cells.len(),
        ensures
            final(self).inv(),
            final(self).heap@ == old(self).heap@,
            final(self).program == old(self).program,
            final(self).last_result == old(self).last_result,
            final(self).abort_state == old(self).abort_state,
            final(self).last_arguments@ == old(self).last_arguments@,
            r is Ok ==> same_but_innermost(old(self).stack@, final(self).stack@),
            r is Ok ==> scopes_binding(top_scopes(final(self).stack@), name@) == Some(c),
            r is Ok ==> final(self).stack@ == crate::stack::stack::declared(old(self).stack@, name@, c),
            r is Err ==> final(self).stack@ == old(self).stack@,
            scopes_binding(top_scopes(old(self).stack@), name@) is Some ==> (r matches Err(e) && e.message@ == redeclare_message(name@)),
            scopes_binding(top_scopes(old(self).stack@), name@) is None && old(self).stack@.last().len() > 0 ==> r is Ok,
    {
        let ghost s = self.stack@;
        match self.stack.declare_variable(name, c, span) {
            Ok(()) => {
                proof {
                    old(self).stack.lemma_wf();
                    self.stack.lemma_wf();
                    let new = self.stack@;
                    lemma_declare_same_but_innermost(s, name@, c);
                    lemma_declare_cells_below(s, name@, c, self.heap@.cells.len());
                    assert(new.last() == new[new.len() - 1]);
                    lemma_scopes_binding(new.last(), name@);
                    assert(new.last()[new.last().len() - 1].dom().contains(name@));
                }
                Ok(())
            },
            Err(e) => Err(InterpreterError::at(ErrorSeverity::HIGH, e.message, span)),
        }
    }

    /// Binds a new cell holding `value` to `name` in the innermost scope.
    pub fn declare_new(&mut self, name: &str, value: Value, span: Span) -> (r: Result<(), InterpreterError>)
        requires
            old(self).inv(),
            refs_within(value@, old(self).heap@.vectors.len()),
        ensures
            final(self).kept(*old(self)),
            final(self).heap@ == old(self).heap@.with_cell(value@),
            final(self).abort_state == old(self).abort_state,
            final(self).last_result == old(self).last_result,
            r is Err ==> final(self).stack@ == old(self).stack@,
            r is Ok ==> final(self).stack@ == crate::stack::stack::declared(old(self).stack@, name@, old(self).heap@.cells.len() as usize),
            r is Ok ==> same_but_innermost(old(self).stack@, final(self).stack@),
            r is Ok ==> (scopes_binding(top_scopes(final(self).stack@), name@) matches Some(c) && c == old(self).heap@.cells.len()),
            scopes_binding(top_scopes(old(self).stack@), name@) is Some ==> (r matches Err(e) && e.message@ == redeclare_message(name@)),
            scopes_binding(top_scopes(old(self).stack@), name@) is None && old(self).stack@.last().len() > 0 ==> r is Ok,
    {
        let c = self.heap.alloc_cell(value);
        assert(c == old(self).heap@.cells.len() as usize);
        assert(forall|i: int| 0 <= i < self.last_arguments@.len() ==> #[trigger] self.last_arguments@[i] < self.heap@.cells.len());
        proof {
            let s = self.stack@;
            assert forall|f: int| 0 <= f < s.len() implies crate::stack::scope_manager::cells_below(#[trigger] s[f], self.heap@.cells.len()) by {
                assert(crate::stack::scope_manager::cells_below(s[f], old(self).heap@.cells.len()));
            }
        }
        self.declare_cell(name, c, span)
    }

    /// Runs a variable declaration: evaluates the initial value (or takes the type's
    /// default), checks it against the declared type and binds it in the innermost scope.
    pub fn exec_declaration(&mut self, identifier: &Node<String>, kind: &VariableDeclarationKind, span: Span, fuel: u64) -> (r: Result<(), InterpreterError>)
        requires
            old(self).inv(),
        ensures
            final(self).kept(*old(self)),
            r is Ok ==> same_but_innermost(old(self).stack@, final(self).stack@),
            r is Ok ==> (scopes_binding(top_scopes(final(self).stack@), identifier.value@) matches Some(c)
                && c < final(self).heap@.cells.len()
                && declaration_accepts(*kind, final(self).heap@.cells[c as int], final(self).heap@)),
            scopes_binding(top_scopes(old(self).stack@), identifier.value@) is Some ==> r is Err,
            r is Ok ==> (declared_value(*kind, old(self).stack@, old(self).heap@) matches Some(d) ==> (!(d is Vector)
                ==> (scopes_binding(top_scopes(final(self).stack@), identifier.value@) matches Some(c)
                    && final(self).heap@.cells[c as int] == d))),
            r is Ok && old(self).abort_state is None ==> final(self).abort_state is None,
            r is Err && declared_value(*kind, old(self).stack@, old(self).heap@) is Some ==> final(self).stack@ == old(self).stack@,
            r is Ok && declared_value(*kind, old(self).stack@, old(self).heap@) is Some ==> final(self).stack@
                == crate::stack::stack::declared(old(self).stack@, identifier.value@, old(self).heap@.cells.len() as usize),
            fuel > 0 && declaration_succeeds(*kind, old(self).stack@, old(self).heap@, fuel as int)
                && scopes_binding(top_scopes(old(self).stack@), identifier.value@) is None
                && old(self).stack@.last().len() > 0 ==> r is Ok
                    && final(self).stack@ == crate::stack::stack::declared(old(self).stack@, identifier.value@, old(self).heap@.cells.len() as usize)
                    && final(self).heap@ == old(self).heap@.with_cell(crate::interpreter::semantics::bound_value(*kind, old(self).stack@, old(self).heap@))
                    && crate::interpreter::semantics::result_view(final(self).last_result)
                        == crate::interpreter::semantics::declaration_result(*kind, crate::interpreter::semantics::result_view(old(self).last_result))
                    && (old(self).abort_state is None ==> final(self).abort_state is None),
            fuel > 0 && declaration_succeeds(*kind, old(self).stack@, old(self).heap@, fuel as int)
                && scopes_binding(top_scopes(old(self).stack@), identifier.value@) is Some
                ==> (r matches Err(e) && e.message@ == redeclare_message(identifier.value@))
                    && final(self).stack@ == old(self).stack@
                    && final(self).heap@ == old(self).heap@.with_cell(crate::interpreter::semantics::bound_value(*kind, old(self).stack@, old(self).heap@)),
            fuel > 0 && declaration_mistyped(*kind, old(self).stack@, old(self).heap@, fuel as int)
                ==> (r matches Err(e) && e.message@ == "Cannot assign value to variable '"@ + identifier.value@ + "'."@)
                    && final(self).stack@ == old(self).stack@ && final(self).heap@ == old(self).heap@,
            r is Ok ==> (declared_value(*kind, old(self).stack@, old(self).heap@) matches Some(d)
                ==> (!(d is Vector) ==> declared_type_matches(*kind, d))),
            r is Ok ==> (*kind matches VariableDeclarationKind::TYPE { var_type, value: None } ==> (!(var_type.value is Vector)
                ==> (scopes_binding(top_scopes(final(self).stack@), identifier.value@) matches Some(c)
                    && Some(final(self).heap@.cells[c as int]) == default_for(var_type.value, 0)))),
        decreases fuel, 0nat,
    {
        if fuel == 0 {
            return Err(Self::step_limit(span));
        }
        let name = identifier.value.as_str();
        match kind {
            VariableDeclarationKind::TYPE { var_type, value } => {
                let computed = match value {
                    Some(val) => {
                        self.eval_expression(val, fuel - 1)?;
                        match self.read_last_result() {
                            Ok(v) => v,
                            Err(_) => {
                                return Err(InterpreterError::at(
                                    ErrorSeverity::HIGH,
                                    named_message("Cannot declare variable '", name, "' with no value."),
                                    span,
                                ));
                            },
                        }
                    },
                    None => match Value::default_value(&var_type.value, span, &mut self.heap) {
                        Ok(v) => v,
                        Err(e) => return Err(InterpreterError::at(ErrorSeverity::HIGH, e.message, span)),
                    },
                };
                let bound = match &var_type.value {
                    Type::Vector(inner) => match computed {
                        Value::Vector { kind, values } => {
                            match self.first_element_not_of_type(values, inner) {
                                Some(j) => {
                                    let c = self.heap.vector_cell(values, j);
                                    let found = self.heap.read(c).to_type().label();
                                    return Err(InterpreterError::expected_found(
                                        ErrorSeverity::HIGH,
                                        named_message("Cannot assign value to vector '", name, "'."),
                                        inner.label(),
                                        found,
                                        span,
                                    ));
                                },
                                None => {},
                            }
                            if self.heap.vector_len(values) == 0 {
                                Value::Vector { kind: Box::new(var_type.value.duplicate()), values }
                            } else {
                                Value::Vector { kind, values }
                            }
                        },
                        other => {
                            return Err(InterpreterError::expected_found(
                                ErrorSeverity::HIGH,
                                named_message("Cannot assign value to variable '", name, "'."),
                                var_type.value.label(),
                                other.to_type().label(),
                                span,
                            ));
                        },
                    },
                    declared => {
                        let is_vector = match computed {
                            Value::Vector { .. } => true,
                            _ => false,
                        };
                        if is_vector || !computed.to_type().same_as(declared) {
                            return Err(InterpreterError::expected_found(
                                ErrorSeverity::HIGH,
                                named_message("Cannot assign value to variable '", name, "'."),
                                declared.label(),
                                computed.to_type().label(),
                                span,
                            ));
                        }
                        computed
                    },
                };
                let ghost h = self.heap@;
                let ghost bv = bound@;
                assert(typed_declaration_value(var_type.value, bv, h) == Some(bv));
                let r = self.declare_new(name, bound, span);
                proof {
                    match bv {
                        ValueView::Vector { values, .. } => {
                            assert(self.heap@.vectors == h.vectors);
                            assert forall|j: int| 0 <= j < self.heap@.vectors[values as int].len() implies
                                self.heap@.cells[#[trigger] self.heap@.vectors[values as int][j] as int] == h.cells[h.vectors[values as int][j] as int] by {
                                assert(h.vectors[values as int][j] < h.cells.len());
                            }
                        },
                        _ => {},
                    }
                    assert(self.heap@.cells[h.cells.len() as int] == bv);
                    assert(typed_declaration_value(var_type.value, bv, self.heap@) == Some(bv));
                    assert(declaration_accepts(*kind, bv, self.heap@));
                }
                r
            },
            VariableDeclarationKind::LET { var_type, value } => {
                self.eval_expression(value, fuel - 1)?;
                let computed = match self.read_last_result() {
                    Ok(v) => v,
                    Err(_) => {
                        return Err(InterpreterError::at(
                            ErrorSeverity::HIGH,
                            named_message("Cannot declare variable '", name, "' with no value."),
                            span,
                        ));
                    },
                };
                let computed = match computed {
                    Value::Vector { kind, values } => {
                        if self.heap.vector_len(values) == 0 {
                            match var_type {
                                Some(t) => match &t.value {
                                    Type::Vector(_) => Value::Vector { kind: Box::new(t.value.duplicate()), values },
                                    _ => {
                                        return Err(InterpreterError::expected_found(
                                            ErrorSeverity::HIGH,
                                            named_message("Cannot assign value to variable '", name, "'."),
                                            t.value.label(),
                                            string_of("empty vector"),
                                            span,
                                        ));
                                    },
                                },
                                None => {
                                    let mut m = string_of("Cannot infer type of empty vector. Consider adding a type annotation, e.g. `let ");
                                    append_str(&mut m, name);
                                    append_str(&mut m, ": i64[] = [];`.");
                                    return Err(InterpreterError::at(ErrorSeverity::HIGH, m, span));
                                },
                            }
                        } else {
                            Value::Vector { kind, values }
                        }
                    },
                    other => other,
                };
                match var_type {
                    Some(t) => {
                        if !computed.to_type().same_as(&t.value) {
                            return Err(InterpreterError::expected_found(
                                ErrorSeverity::HIGH,
                                named_message("Cannot assign value to variable '", name, "'."),
                                t.value.label(),
                                computed.to_type().label(),
                                span,
                            ));
                        }
                    },
                    None => {},
                }
                let ghost h = self.heap@;
                let ghost bv = computed@;
                assert(let_declaration_value(annotation(*var_type), bv, h) == Some(bv));
                let r = self.declare_new(name, computed, span);
                proof {
                    assert(self.heap@.vectors == h.vectors);
                    assert(self.heap@.cells[h.cells.len() as int] == bv);
                    assert(let_declaration_value(annotation(*var_type), bv, self.heap@) == Some(bv));
                    assert(declaration_accepts(*kind, bv, self.heap@));
                }
                r
            },
        }
    }
}

} // verus!
