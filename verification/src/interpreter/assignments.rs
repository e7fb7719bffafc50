use vstd::prelude::*;
use crate::alu::FloatUnit;
use crate::ast::{Accessor, Expression, Node};
use crate::errors::{ErrorSeverity, InterpreterError};
use crate::heap::HeapView;
use crate::interpreter::{Host, Interpreter, StackView};
use crate::interpreter::expressions::{expr_height, out_of_bounds_message, pure_expr, value_of};
use crate::interpreter::expressions::out_of_bounds;
use crate::span::Span;
use crate::stack::scope_manager::{cells_below, lemma_scopes_binding, scopes_binding};
use crate::stack::stack::top_scopes;
use crate::interpreter::structs::{find_name, first_index_of, lemma_first_index_absent, lemma_first_index_of, name_views};
use crate::text::{append_str, string_from_utf8, string_of, utf8_bytes};
use crate::types::Type;
use crate::value::{refs_within, Value, ValueView};

verus! {

/// The string that assigning character `c` at byte `idx` of `s` gives: the byte becomes the
/// low eight bits of `c`, and the result must still be valid UTF-8.
pub open spec fn string_byte_assigned(s: Seq<char>, idx: int, c: char) -> Option<Seq<char>> {
    let b = vstd::utf8::encode_utf8(s);
    let nb = b.update(idx, ((c as u32) % 256) as u8);
    if 0 <= idx < b.len() && vstd::utf8::valid_utf8(nb) {
        Some(vstd::utf8::decode_utf8(nb))
    } else {
        None
    }
}

/// The cell that accessor `a` leads to from cell `c`: for a pure index with a determined
/// `i64` value within bounds, that element of the vector `c` holds; for a field, the first
/// field of that name of the struct `c` holds.
pub open spec fn accessor_step(c: usize, a: Accessor, s: StackView, h: HeapView) -> Option<usize> {
    match a {
        Accessor::Index(ie) => if pure_expr(ie.value) {
            match (value_of(ie.value, s, h), h.cells[c as int]) {
                (Some(ValueView::I64(i)), ValueView::Vector { values, .. }) => if 0 <= i < h.vectors[values as int].len() {
                    Some(h.vectors[values as int][i as int])
                } else {
                    None
                },
                _ => None,
            }
        } else {
            None
        },
        Accessor::Field(f) => match h.cells[c as int] {
            ValueView::Struct { names, fields, .. } => if 0 <= first_index_of(names, f.value@) < h.vectors[fields as int].len() {
                Some(h.vectors[fields as int][first_index_of(names, f.value@)])
            } else {
                None
            },
            _ => None,
        },
    }
}

/// The cell reached from `c` by the first `k` accessors, when each step is determined.
pub open spec fn follow_path(c: usize, acc: Seq<Node<Accessor>>, k: nat, s: StackView, h: HeapView) -> Option<usize>
    decreases k,
{
    if k == 0 {
        Some(c)
    } else {
        match follow_path(c, acc, (k - 1) as nat, s, h) {
            Some(d) => accessor_step(d, acc[k - 1].value, s, h),
            None => None,
        }
    }
}

/// A path that reaches a cell reaches one on each shorter prefix.
pub proof fn lemma_follow_prefix(c: usize, acc: Seq<Node<Accessor>>, j: nat, k: nat, s: StackView, h: HeapView)
    requires
        j <= k,
        follow_path(c, acc, k, s, h) is Some,
    ensures
        follow_path(c, acc, j, s, h) is Some,
    decreases k,
{
    if j < k {
        lemma_follow_prefix(c, acc, j, (k - 1) as nat, s, h);
    }
}

/// For `x a1 .. an = e` where `e` is pure with a determined value `d`, the earlier
/// accessors lead from `x`'s cell to a cell, and the last one is a pure index with a
/// determined `i64` value `i` into the vector that cell holds, or a field of the struct it
/// holds: that vector, the place and `d`.
pub open spec fn element_write(
    identifier: Seq<char>,
    accessors: Seq<Node<Accessor>>,
    value: Expression,
    s: StackView,
    h: HeapView,
) -> Option<(usize, int, ValueView)> {
    if accessors.len() >= 1 && pure_expr(value) && value_of(value, s, h) is Some {
        match scopes_binding(top_scopes(s), identifier) {
            Some(c0) => match follow_path(c0, accessors, (accessors.len() - 1) as nat, s, h) {
                Some(c) => match accessors[accessors.len() - 1].value {
                    Accessor::Index(ie) => if pure_expr(ie.value) {
                        match (value_of(ie.value, s, h), h.cells[c as int]) {
                            (Some(ValueView::I64(i)), ValueView::Vector { values, .. }) => Some((values, i as int, value_of(value, s, h).unwrap())),
                            _ => None,
                        }
                    } else {
                        None
                    },
                    Accessor::Field(f) => match h.cells[c as int] {
                        ValueView::Struct { names, fields, .. } => Some((fields, first_index_of(names, f.value@), value_of(value, s, h).unwrap())),
                        _ => None,
                    },
                },
                None => None,
            },
            None => None,
        }
    } else {
        None
    }
}

/// Every index expression of the accessors and the written value evaluate within `fuel`
/// steps.
pub open spec fn path_fits(accessors: Seq<Node<Accessor>>, value: Expression, fuel: int) -> bool {
    &&& forall|j: int| 0 <= j < accessors.len() ==> ((#[trigger] accessors[j]).value matches Accessor::Index(ie)
        ==> 3 * expr_height(ie.value) < fuel)
    &&& 3 * expr_height(value) < fuel
}

/// For `x[i] = e` where `x` holds a string and `i` and `e` are pure with determined values,
/// `e`'s being a character: the cell of `x`, the place `i`, the string and the character.
pub open spec fn string_write(
    identifier: Seq<char>,
    accessors: Seq<Node<Accessor>>,
    value: Expression,
    s: StackView,
    h: HeapView,
) -> Option<(usize, int, Seq<char>, char)> {
    if accessors.len() == 1 && pure_expr(value) {
        match accessors[0].value {
            Accessor::Index(ie) => if pure_expr(ie.value) {
                match (scopes_binding(top_scopes(s), identifier), value_of(ie.value, s, h), value_of(value, s, h)) {
                    (Some(c), Some(ValueView::I64(i)), Some(ValueView::Char(ch))) => match h.cells[c as int] {
                        ValueView::Str(t) => Some((c, i as int, t, ch)),
                        _ => None,
                    },
                    _ => None,
                }
            } else {
                None
            },
            _ => None,
        }
    } else {
        None
    }
}

/// The cell an argument passed by reference names, where it is determined: a variable's
/// cell, or the element that a pure index with a determined value selects, within bounds,
/// of the vector held by the cell its collection names.
pub open spec fn reference_cell(e: Expression, s: StackView, h: HeapView) -> Option<usize>
    decreases e,
{
    match e {
        Expression::Variable(name) => scopes_binding(top_scopes(s), name@),
        Expression::Index { collection, index } => match reference_cell(collection.value, s, h) {
            Some(c) => accessor_step(c, Accessor::Index(*index), s, h),
            None => None,
        },
        _ => None,
    }
}

/// Resolving the reference `e` fits in `fuel` steps.
pub open spec fn reference_fits(e: Expression, fuel: int) -> bool
    decreases e,
{
    match e {
        Expression::Index { collection, index } => fuel > 0 && reference_fits(collection.value, fuel - 1)
            && 3 * expr_height(index.value) < fuel - 1,
        _ => true,
    }
}

/// For `x[i] = e` where `x` holds a string, `i` is pure with a determined `i64` value and
/// `e` is pure with a determined value: the cell of `x`, the place, the string and `e`'s
/// value.
pub open spec fn string_target(
    identifier: Seq<char>,
    accessors: Seq<Node<Accessor>>,
    value: Expression,
    s: StackView,
    h: HeapView,
) -> Option<(usize, int, Seq<char>, ValueView)> {
    if accessors.len() == 1 && pure_expr(value) {
        match accessors[0].value {
            Accessor::Index(ie) => if pure_expr(ie.value) {
                match (scopes_binding(top_scopes(s), identifier), value_of(ie.value, s, h), value_of(value, s, h)) {
                    (Some(c), Some(ValueView::I64(i)), Some(d)) => match h.cells[c as int] {
                        ValueView::Str(t) => Some((c, i as int, t, d)),
                        _ => None,
                    },
                    _ => None,
                }
            } else {
                None
            },
            _ => None,
        }
    } else {
        None
    }
}

/// What an indexed assignment finds in the cell it writes into.
enum Target {
    Vector(usize),
    Bytes(Vec<u8>),
    Other(Type),
}

/// Replaces byte `idx` of the UTF-8 encoding of a string by the low eight bits of `c`.
/// `Err(true)`: `idx` is past the end; `Err(false)`: the result is not valid UTF-8.
pub fn assign_string_byte(bytes: Vec<u8>, idx: usize, c: char) -> (r: Result<String, bool>)
    ensures
        match r {
            Ok(t) => idx < bytes@.len() && vstd::utf8::valid_utf8(bytes@.update(idx as int, ((c as u32) % 256) as u8))
                && t@ == vstd::utf8::decode_utf8(bytes@.update(idx as int, ((c as u32) % 256) as u8)),
            Err(past_end) => past_end == (idx >= bytes@.len())
                && (!past_end ==> !vstd::utf8::valid_utf8(bytes@.update(idx as int, ((c as u32) % 256) as u8))),
        },
{
    if idx >= bytes.len() {
        return Err(true);
    }
    let mut nb = bytes;
    let code: u32 = c as u32;
    nb.set(idx, (code % 256) as u8);
    match string_from_utf8(nb) {
        Some(t) => Ok(t),
        None => Err(false),
    }
}

impl<'a, R: FloatUnit + Host> Interpreter<'a, R> {
    /// Runs an assignment through accessors (`x[i].f[j] = value`): follows the earlier
    /// accessors from the variable's cell, evaluates `value`, then the last accessor, and
    /// stores. A vector element or a struct field gets a new cell holding the value; a
    /// string gets the byte at that index replaced by the character's low eight bits (a
    /// string whose index is past its end, or that would stop being valid UTF-8, is left
    /// empty).
    #[verifier::rlimit(60)]
    pub fn exec_index_assignment(&mut self, identifier: &Node<String>, accessors: &Vec<Node<Accessor>>, value: &Node<Expression>, fuel: u64) -> (r: Result<(), InterpreterError>)
        requires
            old(self).inv(),
            accessors@.len() > 0,
        ensures
            final(self).kept(*old(self)),
            r is Ok ==> final(self).stack@ == old(self).stack@,
            r is Ok && old(self).abort_state is None ==> final(self).abort_state is None,
            scopes_binding(top_scopes(old(self).stack@), identifier.value@) is None ==> r is Err,
            r is Ok ==> (element_write(identifier.value@, accessors@, value.value, old(self).stack@, old(self).heap@)
                matches Some((vec, i, d)) ==> 0 <= i < old(self).heap@.vectors[vec as int].len()
                    && final(self).heap@ == old(self).heap@.with_cell(d).set_vector(
                        vec as int,
                        old(self).heap@.vectors[vec as int].update(i, old(self).heap@.cells.len() as usize),
                    )),
            r is Err && element_write(identifier.value@, accessors@, value.value, old(self).stack@, old(self).heap@) is Some
                ==> final(self).heap@ == old(self).heap@,
            fuel > 0 && path_fits(accessors@, value.value, fuel - 1)
                && (element_write(identifier.value@, accessors@, value.value, old(self).stack@, old(self).heap@)
                    matches Some((vec, i, d)) && 0 <= i < old(self).heap@.vectors[vec as int].len()) ==> r is Ok,
            fuel > 0 && path_fits(accessors@, value.value, fuel - 1) && accessors@.last().value is Index
                && (element_write(identifier.value@, accessors@, value.value, old(self).stack@, old(self).heap@)
                    matches Some((vec, i, d)) && old(self).heap@.vectors[vec as int].len() <= i <= usize::MAX)
                ==> (r matches Err(e) && e.message@ == out_of_bounds_message(
                    element_write(identifier.value@, accessors@, value.value, old(self).stack@, old(self).heap@).unwrap().1)),
            r is Ok ==> (string_write(identifier.value@, accessors@, value.value, old(self).stack@, old(self).heap@)
                matches Some((c, i, t, ch)) ==> (string_byte_assigned(t, i, ch) matches Some(u)
                    && final(self).heap@.cells[c as int] == ValueView::Str(u))),
            fuel > 0 && path_fits(accessors@, value.value, fuel - 1)
                && (string_write(identifier.value@, accessors@, value.value, old(self).stack@, old(self).heap@)
                    matches Some((c, i, t, ch)) && i <= usize::MAX && string_byte_assigned(t, i, ch) is Some) ==> r is Ok,
            fuel > 0 && path_fits(accessors@, value.value, fuel - 1)
                && (string_target(identifier.value@, accessors@, value.value, old(self).stack@, old(self).heap@)
                    matches Some((c, i, t, d)) && 0 <= i <= usize::MAX && !(d is Char))
                ==> (r matches Err(e) && e.message@ == "Can only assign a `char` into a string index."@)
                    && final(self).heap@ == old(self).heap@,
            fuel > 0 && path_fits(accessors@, value.value, fuel - 1)
                && (string_write(identifier.value@, accessors@, value.value, old(self).stack@, old(self).heap@)
                    matches Some((c, i, t, ch)) && 0 <= i <= usize::MAX && string_byte_assigned(t, i, ch) is None)
                ==> r is Err && final(self).heap@ == old(self).heap@.set_cell(
                    string_write(identifier.value@, accessors@, value.value, old(self).stack@, old(self).heap@).unwrap().0 as int,
                    ValueView::Str(Seq::empty())),
        decreases fuel, 0nat,
    {
        if fuel == 0 {
            return Err(Self::step_limit(value.span));
        }
        let var_span = Span::new(identifier.span.start(), value.span.end());
        let mut current = match self.stack.get_variable(identifier.value.as_str(), var_span) {
            Ok(c) => c,
            Err(e) => return Err(InterpreterError::at(ErrorSeverity::HIGH, e.message, identifier.span)),
        };
        proof {
            self.stack.lemma_wf();
            let s = self.stack@;
            lemma_scopes_binding(s.last(), identifier.value@);
            assert(cells_below(s[s.len() - 1], self.heap@.cells.len()));
        }
        let ghost c0 = current;
        let ghost s0 = old(self).stack@;
        let ghost h0 = old(self).heap@;
        let ghost pw = element_write(identifier.value@, accessors@, value.value, s0, h0) is Some;
        let n = accessors.len();
        proof {
            if pw {
                assert(follow_path(c0, accessors@, (n - 1) as nat, s0, h0) is Some);
            }
        }
        let mut i: usize = 0;
        while i + 1 < n
            invariant
                i == 0 ==> current == c0 && self.heap@ == old(self).heap@ && self.last_result == old(self).last_result,
                old(self).abort_state is None ==> self.abort_state is None,
                self.kept(*old(self)),
                self.stack@ == old(self).stack@,
                current < self.heap@.cells.len(),
                n == accessors@.len(),
                n > 0,
                i < n,
                fuel > 0,
                s0 == old(self).stack@,
                h0 == old(self).heap@,
                pw == (element_write(identifier.value@, accessors@, value.value, s0, h0) is Some),
                pw ==> follow_path(c0, accessors@, (n - 1) as nat, s0, h0) is Some,
                pw ==> self.heap@ == h0 && follow_path(c0, accessors@, i as nat, s0, h0) == Some(current),
            decreases n - i,
        {
            proof {
                if pw {
                    lemma_follow_prefix(c0, accessors@, (i + 1) as nat, (n - 1) as nat, s0, h0);
                    assert(follow_path(c0, accessors@, (i + 1) as nat, s0, h0)
                        == accessor_step(current, accessors@[i as int].value, s0, h0));
                }
            }
            match &accessors[i].value {
                Accessor::Index(index_expr) => {
                    self.eval_expression(index_expr, fuel - 1)?;
                    proof {
                        if pw {
                            assert(refs_within(self.heap@.cells[current as int], self.heap@.vectors.len()));
                            match self.heap@.cells[current as int] {
                                ValueView::Vector { values, .. } => self.heap.lemma_vector_len_fits(values as int),
                                _ => {},
                            }
                        }
                    }
                    let idx = self.expect_index()?;
                    let values = match self.heap.read(current) {
                        Value::Vector { values, .. } => *values,
                        other => {
                            return Err(InterpreterError::expected_found(
                                ErrorSeverity::HIGH,
                                string_of("Cannot index into this value."),
                                string_of("Vector"),
                                other.to_type().label(),
                                index_expr.span,
                            ));
                        },
                    };
                    assert(refs_within(self.heap@.cells[current as int], self.heap@.vectors.len()));
                    if idx < self.heap.vector_len(values) {
                        current = self.heap.vector_cell(values, idx);
                    } else {
                        return Err(out_of_bounds(idx, index_expr.span));
                    }
                },
                Accessor::Field(field) => {
                    let (j, fields) = self.find_field_cell(current, field)?;
                    current = self.heap.vector_cell(fields, j);
                },
            }
            i = i + 1;
        }
        proof {
            if pw {
                let vals = element_write(identifier.value@, accessors@, value.value, s0, h0).unwrap().0;
                assert(refs_within(self.heap@.cells[current as int], self.heap@.vectors.len()));
                self.heap.lemma_vector_len_fits(vals as int);
            }
        }
        self.eval_expression(value, fuel - 1)?;
        let new_value = self.read_last_result()?;
        match &accessors[n - 1].value {
            Accessor::Index(index_expr) => {
                self.eval_expression(index_expr, fuel - 1)?;
                let idx = self.expect_index()?;
                let target = match self.heap.read(current) {
                    Value::Vector { values, .. } => Target::Vector(*values),
                    Value::String(s) => Target::Bytes(utf8_bytes(s)),
                    other => Target::Other(other.to_type()),
                };
                assert(refs_within(self.heap@.cells[current as int], self.heap@.vectors.len()));
                match target {
                    Target::Vector(values) => {
                        if idx < self.heap.vector_len(values) {
                            let ghost nv = new_value@;
                            let c = self.heap.alloc_cell(new_value);
                            self.heap.vector_set(values, idx, c);
                            proof {
                                match element_write(identifier.value@, accessors@, value.value, s0, h0) {
                                    Some((vals, ii, d)) => {
                                        assert(vals == values);
                                        assert(nv == d);
                                        assert(idx as int == ii);
                                    },
                                    None => {},
                                }
                            }
                            Ok(())
                        } else {
                            Err(out_of_bounds(idx, index_expr.span))
                        }
                    },
                    Target::Bytes(bytes) => {
                        let ch = match new_value {
                            Value::Char(c) => c,
                            other => {
                                return Err(InterpreterError::expected_found(
                                    ErrorSeverity::HIGH,
                                    string_of("Can only assign a `char` into a string index."),
                                    string_of("char"),
                                    other.to_type().label(),
                                    value.span,
                                ));
                            },
                        };
                        let ghost old_bytes = bytes@;
                        self.heap.write(current, Value::String(String::new()));
                        match assign_string_byte(bytes, idx, ch) {
                            Ok(t) => {
                                self.heap.write(current, Value::String(t));
                                proof {
                                    match string_write(identifier.value@, accessors@, value.value, old(self).stack@, old(self).heap@) {
                                        Some((cc, ii, tt, cch)) => {
                                            assert(n == 1);
                                            assert(current == c0);
                                            assert(cc == current);
                                            assert(idx as int == ii);
                                            assert(cch == ch);
                                            assert(old_bytes == vstd::utf8::encode_utf8(tt));
                                        },
                                        None => {},
                                    }
                                }
                                Ok(())
                            },
                            Err(beyond) => {
                                proof {
                                    match string_write(identifier.value@, accessors@, value.value, old(self).stack@, old(self).heap@) {
                                        Some((cc, ii, tt, cch)) => {
                                            assert(n == 1);
                                            assert(current == c0);
                                            assert(cc == current);
                                            assert(idx as int == ii);
                                            assert(cch == ch);
                                            assert(old_bytes == vstd::utf8::encode_utf8(tt));
                                        },
                                        None => {},
                                    }
                                }
                                if beyond {
                                    Err(out_of_bounds(idx, index_expr.span))
                                } else {
                                    Err(InterpreterError::at(
                                        ErrorSeverity::HIGH,
                                        string_of("String index assignment produced invalid UTF-8."),
                                        index_expr.span,
                                    ))
                                }
                            },
                        }
                    },
                    Target::Other(t) => Err(InterpreterError::expected_found(
                        ErrorSeverity::HIGH,
                        string_of("Cannot index into this value."),
                        string_of("Vector or Str"),
                        t.label(),
                        index_expr.span,
                    )),
                }
            },
            Accessor::Field(field) => {
                let (j, fields) = self.find_field_cell(current, field)?;
                let c = self.heap.alloc_cell(new_value);
                self.heap.vector_set(fields, j, c);
                Ok(())
            },
        }
    }

    /// The place of field `field` in the struct held by `cell`, and the vector of its
    /// field cells; refused when `cell` holds no struct or the struct has no such field.
    pub fn find_field_cell(&self, cell: usize, field: &Node<String>) -> (r: Result<(usize, usize), InterpreterError>)
        requires
            self.inv(),
            cell < self.heap@.cells.len(),
        ensures
            r matches Ok((j, fields)) ==> (self.heap@.cells[cell as int] matches ValueView::Struct { fields: f, .. }
                && f == fields && fields < self.heap@.vectors.len() && j < self.heap@.vectors[fields as int].len()),
            !(self.heap@.cells[cell as int] is Struct) ==> r is Err,
            match self.heap@.cells[cell as int] {
                ValueView::Struct { names, fields, .. } => if 0 <= first_index_of(names, field.value@) < self.heap@.vectors[fields as int].len() {
                    r matches Ok((j, f)) && j == first_index_of(names, field.value@) && f == fields
                } else {
                    r is Err
                },
                _ => r is Err,
            },
    {
        let field_name = field.value.as_str();
        let found = match self.heap.read(cell) {
            Value::Struct { names, fields, .. } => {
                let found = find_name(names, field_name);
                proof {
                    match found {
                        Some(j) => lemma_first_index_of(name_views(names@), field_name@, j as int),
                        None => lemma_first_index_absent(name_views(names@), field_name@),
                    }
                }
                Ok((found, *fields))
            },
            other => Err(other.to_type()),
        };
        match found {
            Ok((Some(j), fields)) => {
                assert(refs_within(self.heap@.cells[cell as int], self.heap@.vectors.len()));
                if j < self.heap.vector_len(fields) {
                    return Ok((j, fields));
                }
                let mut m = string_of("Struct has no field `");
                append_str(&mut m, field_name);
                append_str(&mut m, "`.");
                Err(InterpreterError::at(ErrorSeverity::HIGH, m, field.span))
            },
            Ok((None, _)) => {
                let mut m = string_of("Struct has no field `");
                append_str(&mut m, field_name);
                append_str(&mut m, "`.");
                Err(InterpreterError::at(ErrorSeverity::HIGH, m, field.span))
            },
            Err(t) => Err(InterpreterError::expected_found(
                ErrorSeverity::HIGH,
                string_of("Cannot access a field on this value."),
                string_of("Struct"),
                t.label(),
                field.span,
            )),
        }
    }

    /// The cell an argument passed by reference names: that of a variable, or an element
    /// of a vector reached by indexing.
    pub fn resolve_reference(&mut self, expression: &Node<Expression>, fuel: u64) -> (r: Result<usize, InterpreterError>)
        requires
            old(self).inv(),
        ensures
            r is Ok && old(self).abort_state is None ==> final(self).abort_state is None,
            final(self).kept(*old(self)),
            r is Ok ==> final(self).stack@ == old(self).stack@,
            r matches Ok(c) ==> c < final(self).heap@.cells.len(),
            expression.value matches Expression::Variable(name) ==> match scopes_binding(top_scopes(old(self).stack@), name@) {
                Some(c) => r == Ok::<usize, InterpreterError>(c) && final(self).heap@ == old(self).heap@,
                None => r is Err,
            },
            reference_cell(expression.value, old(self).stack@, old(self).heap@) is Some ==> final(self).heap@ == old(self).heap@
                && (r matches Ok(c) ==> Some(c) == reference_cell(expression.value, old(self).stack@, old(self).heap@)),
            reference_cell(expression.value, old(self).stack@, old(self).heap@) is Some
                && reference_fits(expression.value, fuel as int) ==> r is Ok,
            !(expression.value is Variable) && !(expression.value is Index) ==> (r matches Err(e)
                && e.message@ == "Cannot pass this kind of expression by reference \u{2014} expected a variable or indexed value."@),
        decreases fuel, 0nat,
    {
        match &expression.value {
            Expression::Variable(var_name) => match self.stack.get_variable(var_name.as_str(), expression.span) {
                Ok(c) => {
                    proof {
                        self.stack.lemma_wf();
                        let s = self.stack@;
                        lemma_scopes_binding(s.last(), var_name@);
                        assert(cells_below(s[s.len() - 1], self.heap@.cells.len()));
                    }
                    Ok(c)
                },
                Err(e) => Err(InterpreterError::at(ErrorSeverity::HIGH, e.message, expression.span)),
            },
            Expression::Index { collection, index } => {
                if fuel == 0 {
                    return Err(Self::step_limit(expression.span));
                }
                let collection_cell = self.resolve_reference(collection, fuel - 1)?;
                self.eval_expression(index, fuel - 1)?;
                proof {
                    if reference_cell(expression.value, old(self).stack@, old(self).heap@) is Some {
                        assert(refs_within(self.heap@.cells[collection_cell as int], self.heap@.vectors.len()));
                        match self.heap@.cells[collection_cell as int] {
                            ValueView::Vector { values, .. } => self.heap.lemma_vector_len_fits(values as int),
                            _ => {},
                        }
                    }
                }
                let idx = self.expect_index()?;
                let values = match self.heap.read(collection_cell) {
                    Value::Vector { values, .. } => *values,
                    other => {
                        return Err(InterpreterError::expected_found(
                            ErrorSeverity::HIGH,
                            string_of("Cannot index into this value."),
                            string_of("Vector"),
                            other.to_type().label(),
                            collection.span,
                        ));
                    },
                };
                assert(refs_within(self.heap@.cells[collection_cell as int], self.heap@.vectors.len()));
                if idx < self.heap.vector_len(values) {
                    Ok(self.heap.vector_cell(values, idx))
                } else {
                    Err(out_of_bounds(idx, index.span))
                }
            },
            _ => Err(InterpreterError::at(
                ErrorSeverity::HIGH,
                string_of("Cannot pass this kind of expression by reference \u{2014} expected a variable or indexed value."),
                expression.span,
            )),
        }
    }
}

} // verus!
