use vstd::prelude::*;
use crate::alu::FloatUnit;
use crate::ast::{Expression, Node, Program, StructDeclaration, StructLiteralField};
use crate::errors::{ErrorSeverity, InterpreterError};
use crate::interpreter::{Host, Interpreter};
use crate::interpreter::expressions::{access_value, constant_expr, evaluable, expr_height, lemma_constant_value, lemma_value_of_grown, pure_expr, value_of};
use crate::interpreter::StackView;
use crate::heap::HeapView;
use crate::span::Span;
use crate::text::{append_str, string_of};
use crate::types::Type;
use crate::value::{refs_within, Value, ValueView};

verus! {

/// The names, as character sequences.
pub open spec fn name_views(names: Seq<String>) -> Seq<Seq<char>> {
    names.map_values(|n: String| n@)
}

/// `i` is the first place of `name` in `names`.
pub open spec fn is_first_name(names: Seq<Seq<char>>, name: Seq<char>, i: int) -> bool {
    &&& 0 <= i < names.len()
    &&& names[i] == name
    &&& forall|j: int| 0 <= j < i ==> names[j] != name
}

/// The first place of `name` in `names`, or -1.
pub open spec fn first_index_of(names: Seq<Seq<char>>, name: Seq<char>) -> int
    decreases names.len(),
{
    if names.len() == 0 {
        -1
    } else if names[0] == name {
        0
    } else {
        let k = first_index_of(names.drop_first(), name);
        if k < 0 { -1 } else { k + 1 }
    }
}

pub proof fn lemma_first_index_of(names: Seq<Seq<char>>, name: Seq<char>, i: int)
    requires
        is_first_name(names, name, i),
    ensures
        first_index_of(names, name) == i,
    decreases names.len(),
{
    if i > 0 {
        let d = names.drop_first();
        assert(is_first_name(d, name, i - 1)) by {
            assert forall|j: int| 0 <= j < i - 1 implies d[j] != name by {
                assert(d[j] == names[j + 1]);
            }
        }
        lemma_first_index_of(d, name, i - 1);
    }
}

/// A name that does not occur has no first place.
pub proof fn lemma_first_index_absent(names: Seq<Seq<char>>, name: Seq<char>)
    requires
        !has_name(names, name),
    ensures
        first_index_of(names, name) == -1,
    decreases names.len(),
{
    if names.len() > 0 {
        let d = names.drop_first();
        assert(!has_name(d, name)) by {
            if has_name(d, name) {
                let i = choose|i: int| 0 <= i < d.len() && d[i] == name;
                assert(names[i + 1] == name);
            }
        }
        assert(names[0] != name);
        lemma_first_index_absent(d, name);
    }
}

/// `name` occurs in `names`.
pub open spec fn has_name(names: Seq<Seq<char>>, name: Seq<char>) -> bool {
    exists|i: int| 0 <= i < names.len() && names[i] == name
}

/// `i` is the first struct type of `p` named `name`.
pub open spec fn is_first_struct(p: Program, name: Seq<char>, i: int) -> bool {
    &&& 0 <= i < p.types@.len()
    &&& p.types@[i].name@ == name
    &&& forall|j: int| 0 <= j < i ==> (#[trigger] p.types@[j]).name@ != name
}

/// `p` declares a struct type named `name`.
pub open spec fn has_struct(p: Program, name: Seq<char>) -> bool {
    exists|i: int| 0 <= i < p.types@.len() && (#[trigger] p.types@[i]).name@ == name
}

/// The struct type `d` declares a field named `name`.
pub open spec fn declares_field(d: StructDeclaration, name: Seq<char>) -> bool {
    exists|i: int| 0 <= i < d.fields@.len() && (#[trigger] d.fields@[i]).0@ == name
}

/// The first place of `name` in `names`, if any.
pub fn find_name(names: &Vec<String>, name: &str) -> (r: Option<usize>)
    ensures
        match r {
            Some(i) => is_first_name(name_views(names@), name@, i as int),
            None => !has_name(name_views(names@), name@),
        },
{
    let key = string_of(name);
    let n = names.len();
    let mut i: usize = 0;
    while i < n
        invariant
            0 <= i <= n,
            n == names@.len(),
            key@ == name@,
            forall|j: int| 0 <= j < i ==> name_views(names@)[j] != name@,
        decreases n - i,
    {
        if names[i] == key {
            return Some(i);
        }
        i = i + 1;
    }
    None
}

/// The first struct type of `program` named `name`, if any.
pub fn find_struct_type(program: &Program, name: &str) -> (r: Option<usize>)
    ensures
        match r {
            Some(i) => is_first_struct(*program, name@, i as int),
            None => !has_struct(*program, name@),
        },
{
    let key = string_of(name);
    let n = program.types.len();
    let mut i: usize = 0;
    while i < n
        invariant
            0 <= i <= n,
            n == program.types@.len(),
            key@ == name@,
            forall|j: int| 0 <= j < i ==> (#[trigger] program.types@[j]).name@ != name@,
        decreases n - i,
    {
        if program.types[i].name == key {
            return Some(i);
        }
        i = i + 1;
    }
    None
}

/// The place of the first field of `declaration` named `name`, if any.
pub fn find_field(declaration: &StructDeclaration, name: &str) -> (r: Option<usize>)
    ensures
        match r {
            Some(i) => i < declaration.fields@.len() && declaration.fields@[i as int].0@ == name@,
            None => !declares_field(*declaration, name@),
        },
{
    let key = string_of(name);
    let n = declaration.fields.len();
    let mut i: usize = 0;
    while i < n
        invariant
            0 <= i <= n,
            n == declaration.fields@.len(),
            key@ == name@,
            forall|j: int| 0 <= j < i ==> (#[trigger] declaration.fields@[j]).0@ != name@,
        decreases n - i,
    {
        if declaration.fields[i].0 == key {
            return Some(i);
        }
        i = i + 1;
    }
    None
}

/// A struct literal of a declared type whose fields that type all declares, each given by
/// a constant expression with a determined value that evaluates within `fuel` steps.
pub open spec fn struct_literal_succeeds(
    p: Program,
    name: Seq<char>,
    fields: Seq<Node<StructLiteralField>>,
    s: StackView,
    h: HeapView,
    fuel: int,
) -> bool {
    &&& has_struct(p, name)
    &&& forall|k: int, j: int| #![trigger is_first_struct(p, name, k), fields[j]]
        is_first_struct(p, name, k) && 0 <= j < fields.len()
            ==> declares_field(p.types@[k], fields[j].value.identifier.value@)
    &&& forall|j: int| 0 <= j < fields.len() ==> constant_expr(#[trigger] fields[j].value.value.value)
        && value_of(fields[j].value.value.value, s, h) is Some && 3 * expr_height(fields[j].value.value.value) < fuel
}

/// No two fields of a struct literal share a name, and no field's value is a vector.
pub open spec fn plain_distinct_fields(fields: Seq<Node<StructLiteralField>>, s: StackView, h: HeapView) -> bool {
    &&& forall|a: int, b: int| 0 <= a < b < fields.len()
        ==> (#[trigger] fields[a]).value.identifier.value@ != (#[trigger] fields[b]).value.identifier.value@
    &&& forall|j: int| 0 <= j < fields.len() ==> !(value_of((#[trigger] fields[j]).value.value.value, s, h).unwrap() is Vector)
}

/// `prefix`, `a`, `middle`, `b`, `suffix`.
fn message_with_two(prefix: &str, a: &str, middle: &str, b: &str, suffix: &str) -> (m: String)
    ensures
        m@ == prefix@ + a@ + middle@ + b@ + suffix@,
{
    let mut m = string_of(prefix);
    append_str(&mut m, a);
    append_str(&mut m, middle);
    append_str(&mut m, b);
    append_str(&mut m, suffix);
    m
}

impl<'a, R: FloatUnit + Host> Interpreter<'a, R> {
    /// Evaluates a struct literal: each field's value goes into a new cell (an empty vector
    /// literal takes the field's declared vector type; a field given twice keeps the later
    /// value), and the struct value names its type, its field names and the vector of
    /// those cells. Refused for an unknown type name or a field the type does not declare.
    pub fn eval_struct_literal(&mut self, identifier: &Node<String>, fields: &Vec<Node<StructLiteralField>>, span: Span, fuel: u64) -> (r: Result<(), InterpreterError>)
        requires
            old(self).inv(),
        ensures
            r is Ok && old(self).abort_state is None ==> final(self).abort_state is None,
            final(self).kept(*old(self)),
            r is Ok ==> final(self).stack@ == old(self).stack@,
            r is Ok ==> (final(self).last_result matches Some(w) && w@ matches ValueView::Struct { type_id, names, fields: f }
                && is_first_struct(*old(self).program, identifier.value@, type_id as int)
                && final(self).heap@.vectors[f as int].len() == names.len()
                && forall|j: int| 0 <= j < names.len()
                    ==> declares_field(old(self).program.types@[type_id as int], #[trigger] names[j])),
            fuel > 0 && !has_struct(*old(self).program, identifier.value@) ==> (r matches Err(e)
                && e.message@ == "Unknown type '"@ + identifier.value@ + "'."@),
            !has_struct(*old(self).program, identifier.value@) ==> r is Err,
            forall|k: int, j: int| #![trigger is_first_struct(*old(self).program, identifier.value@, k), fields@[j]]
                is_first_struct(*old(self).program, identifier.value@, k) && 0 <= j < fields@.len()
                && !declares_field(old(self).program.types@[k], fields@[j].value.identifier.value@) ==> r is Err,
            fuel > 0 && struct_literal_succeeds(*old(self).program, identifier.value@, fields@, old(self).stack@, old(self).heap@, fuel - 1)
                && plain_distinct_fields(fields@, old(self).stack@, old(self).heap@) ==> (final(self).last_result matches Some(w)
                    && w@ matches ValueView::Struct { names, fields: f, .. }
                    && names.len() == fields@.len()
                    && final(self).heap@.vectors[f as int].len() == fields@.len()
                    && forall|j: int| 0 <= j < fields@.len() ==> names[j] == fields@[j].value.identifier.value@
                        && Some(final(self).heap@.cells[#[trigger] final(self).heap@.vectors[f as int][j] as int])
                            == value_of(fields@[j].value.value.value, old(self).stack@, old(self).heap@)),
            fuel > 0 && struct_literal_succeeds(*old(self).program, identifier.value@, fields@, old(self).stack@, old(self).heap@, fuel - 1)
                ==> r is Ok,
            forall|k: int| #[trigger] is_first_struct(*old(self).program, identifier.value@, k) && fuel > 0 && fields@.len() > 0
                && !declares_field(old(self).program.types@[k], fields@[0].value.identifier.value@)
                ==> (r matches Err(e) && e.message@ == "Struct `"@ + identifier.value@ + "` has no field `"@
                    + fields@[0].value.identifier.value@ + "`."@),
            r is Ok ==> (final(self).last_result matches Some(w) && w@ matches ValueView::Struct { fields: f, .. }
                && old(self).heap@.vectors.len() <= f
                && (forall|j: int| 0 <= j < final(self).heap@.vectors[f as int].len()
                    ==> old(self).heap@.cells.len() <= #[trigger] final(self).heap@.vectors[f as int][j] < final(self).heap@.cells.len())
                && (forall|j: int, k: int| 0 <= j < k < final(self).heap@.vectors[f as int].len()
                    ==> #[trigger] final(self).heap@.vectors[f as int][j] != #[trigger] final(self).heap@.vectors[f as int][k])),
            r is Ok && (forall|j: int| 0 <= j < fields@.len() ==> pure_expr(#[trigger] fields@[j].value.value.value))
                && plain_distinct_fields(fields@, old(self).stack@, old(self).heap@)
                ==> (final(self).last_result matches Some(w) && w@ matches ValueView::Struct { names, fields: f, .. }
                    && names.len() == fields@.len()
                    && final(self).heap@.vectors[f as int].len() == fields@.len()
                    && forall|j: int| 0 <= j < fields@.len() ==> names[j] == fields@[j].value.identifier.value@
                        && (value_of(fields@[j].value.value.value, old(self).stack@, old(self).heap@) is Some
                            ==> Some(final(self).heap@.cells[#[trigger] final(self).heap@.vectors[f as int][j] as int])
                                == value_of(fields@[j].value.value.value, old(self).stack@, old(self).heap@))),
        decreases fuel, 0nat,
    {
        if fuel == 0 {
            return Err(Self::step_limit(span));
        }
        let ghost all_ok = struct_literal_succeeds(*old(self).program, identifier.value@, fields@, old(self).stack@, old(self).heap@, fuel - 1);
        let program: &'a Program = self.program;
        let struct_name = identifier.value.as_str();
        let k = match find_struct_type(program, struct_name) {
            Some(k) => k,
            None => {
                let mut m = string_of("Unknown type '");
                append_str(&mut m, struct_name);
                append_str(&mut m, "'.");
                return Err(InterpreterError::at(ErrorSeverity::HIGH, m, span));
            },
        };
        proof {
            assert forall|kk: int| #[trigger] is_first_struct(*program, identifier.value@, kk) implies kk == k as int by {
                if kk < k {
                    assert(program.types@[kk].name@ != identifier.value@);
                } else if kk > k {
                    assert(program.types@[k as int].name@ != identifier.value@);
                }
            }
        }
        let ghost plain = all_ok && plain_distinct_fields(fields@, old(self).stack@, old(self).heap@);
        let ghost pd = (forall|j: int| 0 <= j < fields@.len() ==> pure_expr(#[trigger] fields@[j].value.value.value))
            && plain_distinct_fields(fields@, old(self).stack@, old(self).heap@);
        let ghost s0 = old(self).stack@;
        let ghost h0 = old(self).heap@;
        let declaration = &program.types[k];
        let mut names: Vec<String> = Vec::new();
        let mut cells: Vec<usize> = Vec::new();
        let n = fields.len();
        let mut i: usize = 0;
        while i < n
            invariant
                old(self).abort_state is None ==> self.abort_state is None,
                0 <= i <= n,
                n == fields@.len(),
                self.kept(*old(self)),
                self.stack@ == old(self).stack@,
                program == old(self).program,
                k < program.types@.len(),
                *declaration == program.types@[k as int],
                is_first_struct(*program, identifier.value@, k as int),
                all_ok == struct_literal_succeeds(*old(self).program, identifier.value@, fields@, old(self).stack@, old(self).heap@, fuel - 1),
                names@.len() == cells@.len(),
                forall|j: int| 0 <= j < i ==> declares_field(*declaration, (#[trigger] fields@[j]).value.identifier.value@),
                plain == (all_ok && plain_distinct_fields(fields@, old(self).stack@, old(self).heap@)),
                plain ==> names@.len() == i && forall|j: int| 0 <= j < i ==> name_views(names@)[j] == (#[trigger] fields@[j]).value.identifier.value@
                    && Some(self.heap@.cells[cells@[j] as int]) == value_of(fields@[j].value.value.value, old(self).stack@, old(self).heap@),
                forall|j: int| 0 <= j < cells@.len() ==> #[trigger] cells@[j] < self.heap@.cells.len(),
                forall|j: int| 0 <= j < names@.len() ==> declares_field(*declaration, #[trigger] name_views(names@)[j]),
                fuel > 0,
                i == 0 ==> self.heap@ == old(self).heap@,
                forall|kk: int| #[trigger] is_first_struct(*program, identifier.value@, kk) ==> kk == k as int,
                struct_name@ == identifier.value@,
                s0 == old(self).stack@,
                h0 == old(self).heap@,
                h0.wf(),
                s0.len() > 0,
                crate::stack::stack::frames_cells_below(s0, h0.cells.len()),
                forall|j: int| 0 <= j < cells@.len() ==> h0.cells.len() <= #[trigger] cells@[j],
                forall|j: int, k: int| 0 <= j < k < cells@.len() ==> #[trigger] cells@[j] != #[trigger] cells@[k],
                pd == ((forall|j: int| 0 <= j < fields@.len() ==> pure_expr(#[trigger] fields@[j].value.value.value))
                    && plain_distinct_fields(fields@, old(self).stack@, old(self).heap@)),
                pd ==> self.heap@.vectors == h0.vectors
                    && (forall|c: int| 0 <= c < h0.cells.len() ==> #[trigger] self.heap@.cells[c] == h0.cells[c])
                    && names@.len() == i
                    && (forall|j: int| 0 <= j < i ==> name_views(names@)[j] == (#[trigger] fields@[j]).value.identifier.value@
                        && (value_of(fields@[j].value.value.value, s0, h0) is Some
                            ==> Some(self.heap@.cells[cells@[j] as int]) == value_of(fields@[j].value.value.value, s0, h0))),
            decreases n - i,
        {
            let field = &fields[i];
            let field_name = field.value.identifier.value.as_str();
            proof {
                if all_ok {
                    assert(declares_field(program.types@[k as int], fields@[i as int].value.identifier.value@));
                    lemma_constant_value(fields@[i as int].value.value.value, old(self).stack@, old(self).heap@, self.stack@, self.heap@);
                }
                if pd {
                    assert(pure_expr(fields@[i as int].value.value.value));
                    lemma_value_of_grown(fields@[i as int].value.value.value, s0, h0, self.heap@);
                }
            }
            let t = match find_field(declaration, field_name) {
                Some(t) => t,
                None => {
                    return Err(InterpreterError::at(
                        ErrorSeverity::HIGH,
                        message_with_two("Struct `", struct_name, "` has no field `", field_name, "`."),
                        field.value.identifier.span,
                    ));
                },
            };
            self.eval_expression(&field.value.value, fuel - 1)?;
            let value = self.read_last_result()?;
            let declared = &declaration.fields[t].1;
            let value = match value {
                Value::Vector { kind, values } => {
                    let is_void = match *kind {
                        Type::Void => true,
                        _ => false,
                    };
                    let expects_vector = match declared {
                        Type::Vector(_) => true,
                        _ => false,
                    };
                    if is_void && expects_vector {
                        Value::Vector { kind: Box::new(declared.duplicate()), values }
                    } else {
                        Value::Vector { kind, values }
                    }
                },
                other => other,
            };
            let ghost hb = self.heap@;
            let ghost vv = value@;
            let c = self.heap.alloc_cell(value);
            let ghost before = names@;
            let ghost cells_before = cells@;
            assert(declaration.fields@[t as int].0@ == field_name@);
            assert(declares_field(*declaration, field_name@));
            match find_name(&names, field_name) {
                Some(j) => {
                    proof {
                        if plain || pd {
                            assert(fields@[j as int].value.identifier.value@ != fields@[i as int].value.identifier.value@);
                        }
                    }
                    cells.set(j, c);
                },
                None => {
                    names.push(string_of(field_name));
                    cells.push(c);
                    assert forall|j: int| 0 <= j < names@.len() implies declares_field(*declaration, #[trigger] name_views(names@)[j]) by {
                        if j < before.len() {
                            assert(name_views(names@)[j] == name_views(before)[j]);
                        } else {
                            assert(name_views(names@)[j] == field_name@);
                        }
                    }
                },
            }
            proof {
                assert forall|j: int| 0 <= j < cells@.len() implies h0.cells.len() <= #[trigger] cells@[j] by {
                    if cells@[j] != c {
                        assert(exists|k: int| 0 <= k < cells_before.len() && cells_before[k] == cells@[j]);
                    }
                }
                assert forall|j: int, k: int| 0 <= j < k < cells@.len() implies #[trigger] cells@[j] != #[trigger] cells@[k] by {
                    if cells@[j] != c && cells@[k] != c {
                        assert(exists|a: int| 0 <= a < cells_before.len() && cells_before[a] == cells@[j]);
                    }
                }
                if pd {
                    assert forall|cc: int| 0 <= cc < h0.cells.len() implies #[trigger] self.heap@.cells[cc] == h0.cells[cc] by {
                        assert(self.heap@.cells[cc] == hb.cells[cc]);
                    }
                    assert forall|j: int| 0 <= j < i + 1 implies name_views(names@)[j] == (#[trigger] fields@[j]).value.identifier.value@
                        && (value_of(fields@[j].value.value.value, s0, h0) is Some
                            ==> Some(self.heap@.cells[cells@[j] as int]) == value_of(fields@[j].value.value.value, s0, h0)) by {
                        if j < i {
                            assert(cells@[j] == cells_before[j]);
                            assert(cells_before[j] < hb.cells.len());
                            assert(name_views(names@)[j] == name_views(before)[j]);
                        } else {
                            assert(vv == self.heap@.cells[c as int]);
                        }
                    }
                }
                if plain {
                    assert forall|j: int| 0 <= j < i + 1 implies name_views(names@)[j] == (#[trigger] fields@[j]).value.identifier.value@
                        && Some(self.heap@.cells[cells@[j] as int]) == value_of(fields@[j].value.value.value, old(self).stack@, old(self).heap@) by {
                        if j < i {
                            assert(cells@[j] == cells_before[j]);
                            assert(cells_before[j] < hb.cells.len());
                            assert(name_views(names@)[j] == name_views(before)[j]);
                        } else {
                            assert(vv == self.heap@.cells[c as int]);
                        }
                    }
                }
            }
            i = i + 1;
        }
        let id = self.heap.alloc_vector(cells);
        let ghost nv = name_views(names@);
        self.last_result = Some(Value::Struct { type_id: k, names, fields: id });
        assert(forall|j: int| 0 <= j < nv.len() ==> declares_field(program.types@[k as int], #[trigger] nv[j]));
        Ok(())
    }

    /// Evaluates `instance.field`: the value held by that field of a struct.
    pub fn eval_field_access(&mut self, instance: &Node<Expression>, field: &Node<String>, fuel: u64) -> (r: Result<(), InterpreterError>)
        requires
            old(self).inv(),
        ensures
            pure_expr(instance.value) ==> final(self).heap@ == old(self).heap@ && final(self).stack@ == old(self).stack@,
            r is Ok && old(self).abort_state is None ==> final(self).abort_state is None,
            final(self).kept(*old(self)),
            r is Ok ==> final(self).stack@ == old(self).stack@,
            r is Ok ==> final(self).last_result is Some,
            r is Ok && pure_expr(instance.value) ==> final(self).heap@ == old(self).heap@
                && (access_value(value_of(instance.value, old(self).stack@, old(self).heap@), field.value@, old(self).heap@) is Some
                    ==> (final(self).last_result matches Some(w) && Some(w@) == access_value(
                        value_of(instance.value, old(self).stack@, old(self).heap@),
                        field.value@,
                        old(self).heap@,
                    ))),
            evaluable(instance.value, old(self).stack@, old(self).heap@, fuel - 1)
                && access_value(value_of(instance.value, old(self).stack@, old(self).heap@), field.value@, old(self).heap@) is Some
                ==> r is Ok,
        decreases fuel, 0nat,
    {
        if fuel == 0 {
            return Err(Self::step_limit(instance.span));
        }
        self.eval_expression(instance, fuel - 1)?;
        let value = self.read_last_result()?;
        let ghost iv = value@;
        let field_name = field.value.as_str();
        match value {
            Value::Struct { names, fields, .. } => {
                let found = find_name(&names, field_name);
                match found {
                    Some(j) => {
                        if j < self.heap.vector_len(fields) {
                            let c = self.heap.vector_cell(fields, j);
                            let v = self.heap.read(c).duplicate();
                            assert(refs_within(self.heap@.cells[c as int], self.heap@.vectors.len()));
                            self.last_result = Some(v);
                            proof {
                                if pure_expr(instance.value) {
                                    lemma_first_index_of(name_views(names@), field_name@, j as int);
                                }
                            }
                            return Ok(());
                        }
                        proof { lemma_first_index_of(name_views(names@), field_name@, j as int); }
                    },
                    None => {
                        proof { lemma_first_index_absent(name_views(names@), field_name@); }
                    },
                }
                let mut m = string_of("Struct has no field '");
                append_str(&mut m, field_name);
                append_str(&mut m, "'.");
                Err(InterpreterError::at(ErrorSeverity::HIGH, m, field.span))
            },
            other => {
                let mut m = string_of("Cannot access field '");
                append_str(&mut m, field_name);
                append_str(&mut m, "' on this value.");
                Err(InterpreterError::expected_found(ErrorSeverity::HIGH, m, string_of("struct"), other.to_type().label(), instance.span))
            },
        }
    }
}

} // verus!
