use vstd::prelude::*;
use crate::alu::FloatUnit;
use crate::ast::{Argument, FunctionDeclaration, Node, Parameter, PassedBy, Program, Statement};
use crate::interpreter::StackView;
use crate::interpreter::semantics::{body_run, result_view, state_of, RunState};
use crate::interpreter::expressions::{constant_expr, evaluable, expr_height, lemma_constant_value, lemma_value_of_grown, pure_expr, value_of};
use crate::stack::scope::type_accepts;
use crate::stack::stack::{max_frames, top_scopes};
use crate::stack::scope_manager::scopes_binding;
use crate::interpreter::assignments::{reference_cell, reference_fits};
use crate::interpreter::statements::stmt_succeeds;
use crate::errors::{ErrorSeverity, InterpreterError};
use crate::heap::HeapView;
use crate::interpreter::{lemma_frames_cells_below_drop_last, AbortState, Host, Interpreter};
use crate::span::Span;
use crate::stack::scope::type_accepts_value;
use crate::text::{append_str, decimal, format_unsigned, string_of};
use crate::value::{refs_within, Value, ValueView};

verus! {

/// Nothing that was in the store `h0` changed in `h1`; `h1` may hold more cells and
/// vectors.
pub open spec fn heap_only_grew(h0: HeapView, h1: HeapView) -> bool {
    &&& h0.cells.len() <= h1.cells.len()
    &&& h0.vectors.len() <= h1.vectors.len()
    &&& forall|i: int| 0 <= i < h0.cells.len() ==> #[trigger] h1.cells[i] == h0.cells[i]
    &&& forall|i: int| 0 <= i < h0.vectors.len() ==> #[trigger] h1.vectors[i] == h0.vectors[i]
}

/// How a value `v` of the store `h0` passed by value is held in `h1`: a vector as a new
/// list holding the same element cells, a struct as a new list of fields, any other value
/// as it is.
pub open spec fn passed_copy(h0: HeapView, h1: HeapView, v: ValueView, w: ValueView) -> bool {
    match v {
        ValueView::Vector { kind, values } => (w matches ValueView::Vector { kind: k2, values: v2 }
            && k2 == kind && h0.vectors.len() <= v2 < h1.vectors.len() && h1.vectors[v2 as int] == h0.vectors[values as int]),
        ValueView::Struct { type_id, names, .. } => (w matches ValueView::Struct { type_id: t2, names: n2, fields: f2 }
            && t2 == type_id && n2 == names && h0.vectors.len() <= f2 < h1.vectors.len()),
        _ => w == v,
    }
}

/// How a value passed by value is held stays so while the store only grows.
proof fn lemma_passed_copy_grown(h0: HeapView, h1: HeapView, h2: HeapView, v: ValueView, w: ValueView)
    requires
        passed_copy(h0, h1, v, w),
        heap_only_grew(h1, h2),
    ensures
        passed_copy(h0, h2, v, w),
{
    match v {
        ValueView::Vector { values, .. } => {
            let v2 = w->Vector_values;
            assert(h2.vectors[v2 as int] == h1.vectors[v2 as int]);
        },
        _ => {},
    }
}

/// Every argument is passed by value and is a pure expression.
pub open spec fn pure_value_args(arguments: Seq<Box<Node<Argument>>>) -> bool {
    forall|j: int| 0 <= j < arguments.len() ==> (#[trigger] arguments[j]).value.passed_by is Value
        && pure_expr(arguments[j].value.value.value)
}

/// How a struct field passed by value is copied: the cell `old_cell` of `h0` itself when
/// it holds a vector or a struct; otherwise a cell `new_cell` that is new in `h1` and holds
/// the same value.
pub open spec fn field_copied(h0: HeapView, h1: HeapView, old_cell: usize, new_cell: usize) -> bool {
    if h0.cells[old_cell as int] is Vector || h0.cells[old_cell as int] is Struct {
        new_cell == old_cell
    } else {
        h0.cells.len() <= new_cell < h1.cells.len() && h1.cells[new_cell as int] == h0.cells[old_cell as int]
    }
}

/// What a function leaves as its result fits its declared return type: nothing for
/// `void`, else a value that the type accepts.
pub open spec fn returns_declared_type(t: crate::types::Type, result: Option<Value>) -> bool {
    match result {
        None => t is Void,
        Some(v) => crate::stack::scope::type_accepts(t, v@),
    }
}

/// What the body of `decl` returns when it is a single `return` of a constant expression
/// with a determined value that evaluates within `fuel` steps.
pub open spec fn constant_return(decl: FunctionDeclaration, s: StackView, h: HeapView, fuel: int) -> Option<ValueView> {
    if decl.block.value.0@.len() == 1 {
        match decl.block.value.0@[0].value {
            Statement::Return(Some(e)) => if constant_expr(e.value) && 3 * expr_height(e.value) < fuel {
                value_of(e.value, s, h)
            } else {
                None
            },
            _ => None,
        }
    } else {
        None
    }
}

/// The scope a call opens: the first `k` parameters bound to the first `k` argument cells.
pub open spec fn param_scope(params: Seq<Node<Parameter>>, args: Seq<usize>, k: nat) -> Map<Seq<char>, usize>
    decreases k,
{
    if k == 0 {
        Map::empty()
    } else {
        param_scope(params, args, (k - 1) as nat).insert(params[k - 1].value.identifier.value@, args[k - 1])
    }
}

/// The variables a call of `decl` with argument cells `args` sees: a new frame whose one
/// scope binds each parameter to its argument's cell.
pub open spec fn call_stack(s: StackView, decl: FunctionDeclaration, args: Seq<usize>) -> StackView {
    s.push(seq![param_scope(decl.parameters@, args, args.len())])
}

/// The state a function body starts from: the caller's stack with the parameter frame on
/// top, the store as it is, nothing pending, and the pending result as it is.
pub open spec fn body_start(s: StackView, decl: FunctionDeclaration, args: Seq<usize>, h: HeapView, result: Option<ValueView>) -> RunState {
    RunState { stack: call_stack(s, decl, args), heap: h, abort: None, result }
}

/// A function's result fits its return type: a value the type accepts, or none for `void`.
pub open spec fn result_accepted(t: crate::types::Type, result: Option<ValueView>) -> bool {
    match result {
        Some(w) => type_accepts(t, w),
        None => t is Void,
    }
}

/// The argument cells fit the parameters: one per parameter, each holding a value the
/// parameter's type accepts, and no two parameters share a name.
pub open spec fn params_accept(decl: FunctionDeclaration, args: Seq<usize>, h: HeapView) -> bool {
    &&& args.len() == decl.parameters@.len()
    &&& forall|j: int| 0 <= j < args.len() ==> type_accepts(
        (#[trigger] decl.parameters@[j]).value.parameter_type.value,
        h.cells[args[j] as int],
    )
    &&& forall|a: int, b: int| 0 <= a < b < args.len()
        ==> (#[trigger] decl.parameters@[a]).value.identifier.value@ != (#[trigger] decl.parameters@[b]).value.identifier.value@
}

/// A name is bound in the parameter scope exactly when one of the first `k` parameters has it.
pub proof fn lemma_param_scope_dom(params: Seq<Node<Parameter>>, args: Seq<usize>, k: nat, n: Seq<char>)
    requires
        k <= params.len(),
        forall|j: int| 0 <= j < k ==> (#[trigger] params[j]).value.identifier.value@ != n,
    ensures
        !param_scope(params, args, k).dom().contains(n),
    decreases k,
{
    if k > 0 {
        lemma_param_scope_dom(params, args, (k - 1) as nat, n);
    }
}

/// The store after the plain assignment `st` runs from variables `s` over store `h`: the
/// assigned variable's cell holds the value.
pub open spec fn assigned_heap(st: Statement, s: StackView, h: HeapView) -> HeapView {
    match st {
        Statement::Assignment { identifier, value, .. } => h.set_cell(
            scopes_binding(top_scopes(s), identifier.value@).unwrap() as int,
            value_of(value.value, s, h).unwrap(),
        ),
        _ => h,
    }
}

/// Every argument is passed by reference and names a determined cell within `fuel` steps.
pub open spec fn by_reference_args(arguments: Seq<Box<Node<Argument>>>, s: StackView, h: HeapView, fuel: int) -> bool {
    forall|j: int| 0 <= j < arguments.len() ==> (#[trigger] arguments[j]).value.passed_by is Reference
        && reference_cell(arguments[j].value.value.value, s, h) is Some
        && reference_fits(arguments[j].value.value.value, fuel)
}

/// The cells that arguments passed by reference name.
pub open spec fn reference_args(arguments: Seq<Box<Node<Argument>>>, s: StackView, h: HeapView) -> Seq<usize> {
    Seq::new(arguments.len(), |j: int| reference_cell(arguments[j].value.value.value, s, h).unwrap())
}

/// Every argument is passed by value and is a constant expression with a determined value,
/// neither a vector nor a struct, that evaluates within `fuel` steps.
pub open spec fn constant_value_args(arguments: Seq<Box<Node<Argument>>>, s: StackView, h: HeapView, fuel: int) -> bool {
    forall|j: int| 0 <= j < arguments.len() ==> (#[trigger] arguments[j]).value.passed_by is Value
        && constant_expr(arguments[j].value.value.value)
        && value_of(arguments[j].value.value.value, s, h) is Some
        && !(value_of(arguments[j].value.value.value, s, h).unwrap() is Vector)
        && !(value_of(arguments[j].value.value.value, s, h).unwrap() is Struct)
        && 3 * expr_height(arguments[j].value.value.value) < fuel
}

/// The values of arguments passed by value.
pub open spec fn argument_values(arguments: Seq<Box<Node<Argument>>>, s: StackView, h: HeapView) -> Seq<ValueView> {
    Seq::new(arguments.len(), |j: int| value_of(arguments[j].value.value.value, s, h).unwrap())
}

/// The fresh cells that copies of arguments passed by value get: the next cells of `h`.
pub open spec fn value_args(n: nat, h: HeapView) -> Seq<usize> {
    Seq::new(n, |j: int| (h.cells.len() + j) as usize)
}

/// The store once copies of the arguments passed by value are in their fresh cells.
pub open spec fn value_args_heap(arguments: Seq<Box<Node<Argument>>>, s: StackView, h: HeapView) -> HeapView {
    HeapView { cells: h.cells + argument_values(arguments, s, h), vectors: h.vectors }
}

/// A cell the parameter scope binds is one of the argument cells, so it is at least `low`
/// when they all are.
pub proof fn lemma_param_scope_cells(params: Seq<Node<Parameter>>, args: Seq<usize>, k: nat, low: int, high: int, n: Seq<char>)
    requires
        k <= args.len(),
        forall|j: int| 0 <= j < k ==> low <= #[trigger] args[j] < high,
        param_scope(params, args, k).dom().contains(n),
    ensures
        low <= param_scope(params, args, k)[n] < high,
    decreases k,
{
    if k > 0 && params[k - 1].value.identifier.value@ != n {
        lemma_param_scope_cells(params, args, (k - 1) as nat, low, high, n);
    }
}

/// `i` is the first host function of `p` named `name`.
pub open spec fn is_first_std(p: Program, name: Seq<char>, i: int) -> bool {
    &&& 0 <= i < p.std_functions@.len()
    &&& p.std_functions@[i].name@ == name
    &&& forall|j: int| 0 <= j < i ==> (#[trigger] p.std_functions@[j]).name@ != name
}

/// `p` has a host function named `name`.
pub open spec fn has_std(p: Program, name: Seq<char>) -> bool {
    exists|i: int| 0 <= i < p.std_functions@.len() && (#[trigger] p.std_functions@[i]).name@ == name
}

/// `i` is the first function of `p` declared under `name`.
pub open spec fn is_first_function(p: Program, name: Seq<char>, i: int) -> bool {
    &&& 0 <= i < p.functions@.len()
    &&& p.functions@[i].value.identifier.value@ == name
    &&& forall|j: int| 0 <= j < i ==> (#[trigger] p.functions@[j]).value.identifier.value@ != name
}

/// `p` declares a function named `name`.
pub open spec fn has_function(p: Program, name: Seq<char>) -> bool {
    exists|i: int| 0 <= i < p.functions@.len() && (#[trigger] p.functions@[i]).value.identifier.value@ == name
}

/// `message` with the function's name between `prefix` and `suffix`.
fn function_message(prefix: &str, name: &str, suffix: &str) -> (m: String)
    ensures
        m@ == prefix@ + name@ + suffix@,
{
    let mut m = string_of(prefix);
    append_str(&mut m, name);
    append_str(&mut m, suffix);
    m
}

/// The host function of `program` named `name` that comes first, if any.
pub fn find_std_function(program: &Program, name: &str) -> (r: Option<usize>)
    ensures
        match r {
            Some(i) => is_first_std(*program, name@, i as int),
            None => !has_std(*program, name@),
        },
{
    let key = string_of(name);
    let n = program.std_functions.len();
    let mut i: usize = 0;
    while i < n
        invariant
            0 <= i <= n,
            n == program.std_functions@.len(),
            key@ == name@,
            forall|j: int| 0 <= j < i ==> (#[trigger] program.std_functions@[j]).name@ != name@,
        decreases n - i,
    {
        if program.std_functions[i].name == key {
            return Some(i);
        }
        i = i + 1;
    }
    None
}

/// The function of `program` declared under `name` that comes first, if any.
pub fn find_function(program: &Program, name: &str) -> (r: Option<usize>)
    ensures
        match r {
            Some(i) => is_first_function(*program, name@, i as int),
            None => !has_function(*program, name@),
        },
{
    let key = string_of(name);
    let n = program.functions.len();
    let mut i: usize = 0;
    while i < n
        invariant
            0 <= i <= n,
            n == program.functions@.len(),
            key@ == name@,
            forall|j: int| 0 <= j < i ==> (#[trigger] program.functions@[j]).value.identifier.value@ != name@,
        decreases n - i,
    {
        if program.functions[i].value.identifier.value == key {
            return Some(i);
        }
        i = i + 1;
    }
    None
}

impl<'a, R: FloatUnit + Host> Interpreter<'a, R> {
    /// A copy of the list of field cells `fields` for a struct passed by value: a field
    /// holding a vector or a struct keeps its cell (it stays shared); any other field gets
    /// a new cell holding a copy of its value.
    pub fn copy_fields(&mut self, fields: usize) -> (id: usize)
        requires
            old(self).inv(),
            fields < old(self).heap@.vectors.len(),
        ensures
            final(self).kept(*old(self)),
            final(self).stack@ == old(self).stack@,
            final(self).last_result == old(self).last_result,
            final(self).abort_state == old(self).abort_state,
            final(self).last_arguments@ == old(self).last_arguments@,
            id == final(self).heap@.vectors.len() - 1,
            final(self).heap@.vectors.len() == old(self).heap@.vectors.len() + 1,
            heap_only_grew(old(self).heap@, final(self).heap@),
            final(self).heap@.vectors[id as int].len() == old(self).heap@.vectors[fields as int].len(),
            forall|j: int| 0 <= j < old(self).heap@.vectors[fields as int].len() ==> field_copied(
                old(self).heap@,
                final(self).heap@,
                old(self).heap@.vectors[fields as int][j],
                #[trigger] final(self).heap@.vectors[id as int][j],
            ),
    {
        let n = self.heap.vector_len(fields);
        let mut cells: Vec<usize> = Vec::new();
        let mut i: usize = 0;
        while i < n
            invariant
                0 <= i <= n,
                old(self).inv(),
                fields < old(self).heap@.vectors.len(),
                n == old(self).heap@.vectors[fields as int].len(),
                self.kept(*old(self)),
                self.stack@ == old(self).stack@,
                self.last_result == old(self).last_result,
                self.abort_state == old(self).abort_state,
                self.last_arguments@ == old(self).last_arguments@,
                self.heap@.vectors == old(self).heap@.vectors,
                heap_only_grew(old(self).heap@, self.heap@),
                cells@.len() == i,
                forall|j: int| 0 <= j < i ==> #[trigger] cells@[j] < self.heap@.cells.len(),
                forall|j: int| 0 <= j < i ==> field_copied(old(self).heap@, self.heap@, old(self).heap@.vectors[fields as int][j], #[trigger] cells@[j]),
            decreases n - i,
        {
            let c = self.heap.vector_cell(fields, i);
            let ghost h = self.heap@;
            assert(old(self).heap@.vectors[fields as int][i as int] < old(self).heap@.cells.len());
            assert(self.heap@.cells[c as int] == old(self).heap@.cells[c as int]);
            let shared = match self.heap.read(c) {
                Value::Vector { .. } => true,
                Value::Struct { .. } => true,
                _ => false,
            };
            if shared {
                cells.push(c);
            } else {
                let v = self.heap.read(c).duplicate();
                assert(refs_within(self.heap@.cells[c as int], self.heap@.vectors.len()));
                let d = self.heap.alloc_cell(v);
                cells.push(d);
            }
            assert forall|j: int| 0 <= j < i + 1 implies field_copied(old(self).heap@, self.heap@, old(self).heap@.vectors[fields as int][j], #[trigger] cells@[j]) by {
                if j < i {
                    let oc = old(self).heap@.vectors[fields as int][j];
                    assert(field_copied(old(self).heap@, h, oc, cells@[j]));
                    if !(old(self).heap@.cells[oc as int] is Vector || old(self).heap@.cells[oc as int] is Struct) {
                        assert(self.heap@.cells[cells@[j] as int] == h.cells[cells@[j] as int]);
                    }
                } else {
                    assert(old(self).heap@.vectors[fields as int][j] == c);
                }
            }
            i = i + 1;
        }
        self.heap.alloc_vector(cells)
    }

    /// The cell an argument passed by value is given: a new cell holding the value. A
    /// vector is copied shallowly: the copy is a new list holding the same element cells,
    /// so elements can be replaced in it without the caller seeing it, while what the
    /// elements hold stays shared. A struct gets a new list of field cells (see
    /// `copy_fields`).
    pub fn pass_by_value(&mut self, value: Value) -> (c: usize)
        requires
            old(self).inv(),
            refs_within(value@, old(self).heap@.vectors.len()),
        ensures
            final(self).kept(*old(self)),
            final(self).stack@ == old(self).stack@,
            final(self).last_result == old(self).last_result,
            final(self).abort_state == old(self).abort_state,
            final(self).last_arguments@ == old(self).last_arguments@,
            c == final(self).heap@.cells.len() - 1,
            old(self).heap@.cells.len() <= c,
            match value@ {
                ValueView::Vector { kind, values } => final(self).heap@ == old(self).heap@
                    .with_vector(old(self).heap@.vectors[values as int])
                    .with_cell(ValueView::Vector { kind, values: old(self).heap@.vectors.len() as usize }),
                ValueView::Struct { type_id, names, fields } => heap_only_grew(old(self).heap@, final(self).heap@)
                    && old(self).heap@.vectors.len() < final(self).heap@.vectors.len()
                    && final(self).heap@.cells[c as int] == (ValueView::Struct {
                        type_id,
                        names,
                        fields: old(self).heap@.vectors.len() as usize,
                    })
                    && final(self).heap@.vectors[old(self).heap@.vectors.len() as int].len() == old(self).heap@.vectors[fields as int].len()
                    && forall|j: int| 0 <= j < old(self).heap@.vectors[fields as int].len() ==> field_copied(
                        old(self).heap@,
                        final(self).heap@,
                        old(self).heap@.vectors[fields as int][j],
                        #[trigger] final(self).heap@.vectors[old(self).heap@.vectors.len() as int][j],
                    ),
                _ => final(self).heap@ == old(self).heap@.with_cell(value@),
            },
    {
        let copied = match value {
            Value::Vector { kind, values } => {
                let cells = self.heap.vector_cells(values);
                let id = self.heap.alloc_vector(cells);
                Value::Vector { kind, values: id }
            },
            Value::Struct { type_id, names, fields } => {
                let id = self.copy_fields(fields);
                Value::Struct { type_id, names, fields: id }
            },
            other => other,
        };
        self.heap.alloc_cell(copied)
    }

    /// Evaluates the arguments of a call, in order: an argument passed by value gets a copy
    /// of its value in a fresh cell (see `pass_by_value`); one passed by reference gives the
    /// cell it names (see `resolve_reference`). The result is the cells, one per argument.
    #[verifier::rlimit(100)]
    #[verifier::spinoff_prover]
    pub fn eval_arguments(&mut self, arguments: &Vec<Box<Node<Argument>>>, fuel: u64) -> (r: Result<Vec<usize>, InterpreterError>)
        requires
            old(self).inv(),
        ensures
            r is Ok && old(self).abort_state is None ==> final(self).abort_state is None,
            final(self).kept(*old(self)),
            r is Ok ==> final(self).stack@ == old(self).stack@,
            final(self).program == old(self).program,
            r matches Ok(a) ==> a@.len() == arguments@.len()
                && forall|j: int| 0 <= j < a@.len() ==> #[trigger] a@[j] < final(self).heap@.cells.len(),
            fuel > 0 && by_reference_args(arguments@, old(self).stack@, old(self).heap@, fuel - 1)
                ==> (r matches Ok(a) && a@ == reference_args(arguments@, old(self).stack@, old(self).heap@))
                    && final(self).heap@ == old(self).heap@
                    && (old(self).abort_state is None ==> final(self).abort_state is None),
            fuel > 0 && constant_value_args(arguments@, old(self).stack@, old(self).heap@, fuel - 1)
                ==> (r matches Ok(a) && a@ == value_args(arguments@.len(), old(self).heap@)
                    && forall|j: int| 0 <= j < a@.len() ==> #[trigger] a@[j] as int == old(self).heap@.cells.len() + j)
                    && final(self).heap@ == value_args_heap(arguments@, old(self).stack@, old(self).heap@)
                    && (old(self).abort_state is None ==> final(self).abort_state is None),
            r matches Ok(a) ==> forall|j: int| 0 <= j < a@.len() && (#[trigger] arguments@[j]).value.passed_by is Value
                ==> old(self).heap@.cells.len() <= a@[j],
            r matches Ok(a) ==> forall|j: int, k: int| 0 <= j < k < a@.len()
                && (#[trigger] arguments@[j]).value.passed_by is Value
                && (#[trigger] arguments@[k]).value.passed_by is Value
                ==> a@[j] < a@[k],
            r matches Ok(a) ==> (pure_value_args(arguments@) ==> heap_only_grew(old(self).heap@, final(self).heap@)
                && forall|j: int| 0 <= j < a@.len() && value_of(arguments@[j].value.value.value, old(self).stack@, old(self).heap@) is Some
                    ==> passed_copy(old(self).heap@, final(self).heap@,
                        value_of(arguments@[j].value.value.value, old(self).stack@, old(self).heap@).unwrap(),
                        final(self).heap@.cells[#[trigger] a@[j] as int])),
        decreases fuel, 0nat,
    {
        if fuel == 0 {
            return Err(Self::step_limit(Span::default_span()));
        }
        let mut args: Vec<usize> = Vec::new();
        let n = arguments.len();
        let ghost s0 = old(self).stack@;
        let ghost h0 = old(self).heap@;
        let ghost all_ref = by_reference_args(arguments@, s0, h0, fuel - 1);
        let ghost all_val = constant_value_args(arguments@, s0, h0, fuel - 1);
        let ghost apv = pure_value_args(arguments@);
        let mut i: usize = 0;
        while i < n
            invariant
                s0 == old(self).stack@,
                h0 == old(self).heap@,
                args@.len() == i,
                all_ref == by_reference_args(arguments@, s0, h0, fuel - 1),
                all_val == constant_value_args(arguments@, s0, h0, fuel - 1),
                all_ref ==> self.heap@ == h0 && args@ == reference_args(arguments@, s0, h0).subrange(0, i as int),
                all_val ==> args@ == value_args(arguments@.len(), h0).subrange(0, i as int)
                    && (forall|j: int| 0 <= j < i ==> #[trigger] args@[j] as int == h0.cells.len() + j)
                    && self.heap@ == (HeapView { cells: h0.cells + argument_values(arguments@, s0, h0).subrange(0, i as int), vectors: h0.vectors }),
                old(self).abort_state is None ==> self.abort_state is None,
                0 <= i <= n,
                n == arguments@.len(),
                self.kept(*old(self)),
                self.stack@ == old(self).stack@,
                self.program == old(self).program,
                fuel > 0,
                forall|j: int| 0 <= j < args@.len() ==> #[trigger] args@[j] < self.heap@.cells.len(),
                i == 0 ==> self.heap@ == old(self).heap@ && self.abort_state == old(self).abort_state && args@.len() == 0,
                h0.wf(),
                s0.len() > 0,
                crate::stack::stack::frames_cells_below(s0, h0.cells.len()),
                forall|j: int| 0 <= j < i && (#[trigger] arguments@[j]).value.passed_by is Value
                    ==> h0.cells.len() <= args@[j],
                forall|j: int, k: int| 0 <= j < k < i
                    && (#[trigger] arguments@[j]).value.passed_by is Value
                    && (#[trigger] arguments@[k]).value.passed_by is Value
                    ==> args@[j] < args@[k],
                apv == pure_value_args(arguments@),
                apv ==> heap_only_grew(h0, self.heap@)
                    && forall|j: int| 0 <= j < i && value_of(arguments@[j].value.value.value, s0, h0) is Some
                        ==> passed_copy(h0, self.heap@, value_of(arguments@[j].value.value.value, s0, h0).unwrap(),
                            self.heap@.cells[#[trigger] args@[j] as int]),
            decreases n - i,
        {
            let arg = &arguments[i];
            let ghost hb = self.heap@;
            let ghost ab = args@;
            proof {
                if all_val {
                    lemma_constant_value(arguments@[i as int].value.value.value, s0, h0, self.stack@, self.heap@);
                }
            }
            match arg.value.passed_by {
                PassedBy::Value => {
                    proof {
                        if apv {
                            assert(pure_expr(arguments@[i as int].value.value.value));
                            lemma_value_of_grown(arguments@[i as int].value.value.value, s0, h0, self.heap@);
                        }
                    }
                    self.eval_expression(&arg.value.value, fuel - 1)?;
                    let value = self.read_last_result()?;
                    let ghost hp = self.heap@;
                    let ghost vv = value@;
                    let vector_count = self.heap.vector_count();
                    assert(hb.cells.len() <= hp.cells.len());
                    assert(forall|j: int| 0 <= j < args@.len() ==> #[trigger] args@[j] < hp.cells.len());
                    let c = self.pass_by_value(value);
                    proof {
                        assert(heap_only_grew(hp, self.heap@));
                        assert forall|j: int| 0 <= j < i && (#[trigger] arguments@[j]).value.passed_by is Value
                            implies h0.cells.len() <= args@.push(c)[j] by {
                            assert(args@.push(c)[j] == args@[j]);
                        }
                        assert forall|j: int, k: int| 0 <= j < k < i + 1
                            && (#[trigger] arguments@[j]).value.passed_by is Value
                            && (#[trigger] arguments@[k]).value.passed_by is Value
                            implies args@.push(c)[j] < args@.push(c)[k] by {
                            assert(args@.push(c)[j] == args@[j]);
                        }
                        if apv {
                            assert forall|j: int| 0 <= j < i + 1 && value_of(arguments@[j].value.value.value, s0, h0) is Some
                                implies passed_copy(h0, self.heap@, value_of(arguments@[j].value.value.value, s0, h0).unwrap(),
                                    self.heap@.cells[#[trigger] args@.push(c)[j] as int]) by {
                                if j < i {
                                    assert(hp == hb);
                                    assert(passed_copy(h0, hb, value_of(arguments@[j].value.value.value, s0, h0).unwrap(),
                                        hb.cells[args@[j] as int]));
                                    assert(args@.push(c)[j] == args@[j]);
                                    assert(args@[j] < hp.cells.len());
                                    assert(self.heap@.cells[args@[j] as int] == hp.cells[args@[j] as int]);
                                    lemma_passed_copy_grown(h0, hp, self.heap@, value_of(arguments@[j].value.value.value, s0, h0).unwrap(),
                                        hp.cells[args@[j] as int]);
                                } else {
                                    assert(args@.push(c)[j] == c);
                                    assert(vv == value_of(arguments@[j].value.value.value, s0, h0).unwrap());
                                    match vv {
                                        ValueView::Vector { kind, values } => {
                                            assert(values < h0.vectors.len());
                                            assert(hp.vectors[values as int] == h0.vectors[values as int]);
                                            assert(h0.vectors.len() <= hp.vectors.len());
                                            assert(self.heap@.cells[c as int] == ValueView::Vector { kind, values: hp.vectors.len() as usize });
                                            assert(self.heap@.vectors.len() == hp.vectors.len() + 1);
                                            assert(self.heap@.vectors[hp.vectors.len() as int] == hp.vectors[values as int]);
                                            assert(passed_copy(h0, self.heap@, vv, self.heap@.cells[c as int]));
                                        },
                                        ValueView::Struct { .. } => {
                                            assert(h0.vectors.len() <= hp.vectors.len());
                                            assert(passed_copy(h0, self.heap@, vv, self.heap@.cells[c as int]));
                                        },
                                        _ => {
                                            assert(passed_copy(h0, self.heap@, vv, self.heap@.cells[c as int]));
                                        },
                                    }
                                }
                            }
                        }
                    }
                    args.push(c);
                    proof {
                        if all_val {
                            assert(args@ =~= value_args(arguments@.len(), h0).subrange(0, i + 1));
                            assert(self.heap@.cells =~= h0.cells + argument_values(arguments@, s0, h0).subrange(0, i + 1));
                        }
                    }
                },
                PassedBy::Reference => {
                    proof {
                        if apv {
                            assert(arguments@[i as int].value.passed_by is Value);
                        }
                    }
                    let c = self.resolve_reference(&arg.value.value, fuel - 1)?;
                    args.push(c);
                    proof {
                        if all_ref {
                            assert(args@ =~= reference_args(arguments@, s0, h0).subrange(0, i + 1));
                        }
                    }
                },
            }
            i = i + 1;
        }
        proof {
            if all_ref {
                assert(args@ =~= reference_args(arguments@, s0, h0));
            }
            if all_val {
                assert(args@ =~= value_args(arguments@.len(), h0));
                assert(argument_values(arguments@, s0, h0).subrange(0, n as int) =~= argument_values(arguments@, s0, h0));
            }
        }
        Ok(args)
    }

    /// Calls a function: evaluates the arguments into cells (see `pass_by_value`; an
    /// argument passed by reference gives the cell it names), then runs the host function
    /// of that name, or else the declared one.
    /// Refused when no function has that name or when the number of arguments differs from
    /// the number of parameters.
    #[verifier::rlimit(100)]
    #[verifier::spinoff_prover]
    pub fn call_function(&mut self, identifier: &Node<String>, arguments: &Vec<Box<Node<Argument>>>, span: Span, fuel: u64) -> (r: Result<(), InterpreterError>)
        requires
            old(self).inv(),
        ensures
            r is Ok && old(self).abort_state is None ==> final(self).abort_state is None,
            final(self).kept(*old(self)),
            r is Ok ==> final(self).stack@ == old(self).stack@,
            r is Ok ==> final(self).last_arguments@.len() == 0,
            !has_std(*old(self).program, identifier.value@) && !has_function(*old(self).program, identifier.value@) ==> r is Err,
            forall|i: int| is_first_std(*old(self).program, identifier.value@, i)
                && old(self).program.std_functions@[i].param_count != arguments@.len() ==> r is Err,
            forall|i: int| !has_std(*old(self).program, identifier.value@)
                && is_first_function(*old(self).program, identifier.value@, i)
                && old(self).program.functions@[i].value.parameters@.len() != arguments@.len() ==> r is Err,
            forall|i: int| !has_std(*old(self).program, identifier.value@)
                && is_first_function(*old(self).program, identifier.value@, i) && r is Ok
                ==> returns_declared_type(old(self).program.functions@[i].value.return_type.value, final(self).last_result),
            forall|i: int| fuel > 3 && !has_std(*old(self).program, identifier.value@)
                && #[trigger] is_first_function(*old(self).program, identifier.value@, i)
                && old(self).stack@.len() < max_frames() && old(self).abort_state is None
                && by_reference_args(arguments@, old(self).stack@, old(self).heap@, fuel - 2)
                && params_accept(old(self).program.functions@[i].value, reference_args(arguments@, old(self).stack@, old(self).heap@), old(self).heap@)
                && old(self).program.functions@[i].value.return_type.value is Void
                && old(self).program.functions@[i].value.block.value.0@.len() == 1
                && old(self).program.functions@[i].value.block.value.0@[0].value is Assignment
                && stmt_succeeds(old(self).program.functions@[i].value.block.value.0@[0].value,
                    call_stack(old(self).stack@, old(self).program.functions@[i].value, reference_args(arguments@, old(self).stack@, old(self).heap@)),
                    old(self).heap@, fuel - 2)
                ==> r is Ok && final(self).abort_state is None && final(self).heap@ == assigned_heap(
                    old(self).program.functions@[i].value.block.value.0@[0].value,
                    call_stack(old(self).stack@, old(self).program.functions@[i].value, reference_args(arguments@, old(self).stack@, old(self).heap@)),
                    old(self).heap@,
                ),
            forall|i: int| fuel > 3 && !has_std(*old(self).program, identifier.value@)
                && #[trigger] is_first_function(*old(self).program, identifier.value@, i)
                && old(self).stack@.len() < max_frames() && old(self).abort_state is None
                && constant_value_args(arguments@, old(self).stack@, old(self).heap@, fuel - 2)
                && params_accept(old(self).program.functions@[i].value, value_args(arguments@.len(), old(self).heap@),
                    value_args_heap(arguments@, old(self).stack@, old(self).heap@))
                && old(self).program.functions@[i].value.block.value.0@.len() == 1
                && (old(self).program.functions@[i].value.block.value.0@[0].value matches Statement::Return(Some(e))
                    && evaluable(e.value, call_stack(old(self).stack@, old(self).program.functions@[i].value, value_args(arguments@.len(), old(self).heap@)),
                        value_args_heap(arguments@, old(self).stack@, old(self).heap@), fuel - 3)
                    && type_accepts(old(self).program.functions@[i].value.return_type.value,
                        value_of(e.value, call_stack(old(self).stack@, old(self).program.functions@[i].value, value_args(arguments@.len(), old(self).heap@)),
                            value_args_heap(arguments@, old(self).stack@, old(self).heap@)).unwrap()))
                ==> r is Ok && final(self).abort_state is None && (final(self).last_result matches Some(w) && Some(w@) == value_of(
                    old(self).program.functions@[i].value.block.value.0@[0].value->Return_0->Some_0.value,
                    call_stack(old(self).stack@, old(self).program.functions@[i].value, value_args(arguments@.len(), old(self).heap@)),
                    value_args_heap(arguments@, old(self).stack@, old(self).heap@),
                )),
            forall|i: int| fuel > 3 && !has_std(*old(self).program, identifier.value@)
                && #[trigger] is_first_function(*old(self).program, identifier.value@, i)
                && old(self).stack@.len() < max_frames() && old(self).abort_state is None
                && constant_value_args(arguments@, old(self).stack@, old(self).heap@, fuel - 2)
                && params_accept(old(self).program.functions@[i].value, value_args(arguments@.len(), old(self).heap@),
                    value_args_heap(arguments@, old(self).stack@, old(self).heap@))
                && old(self).program.functions@[i].value.return_type.value is Void
                && old(self).program.functions@[i].value.block.value.0@.len() == 1
                && old(self).program.functions@[i].value.block.value.0@[0].value is Assignment
                && stmt_succeeds(old(self).program.functions@[i].value.block.value.0@[0].value,
                    call_stack(old(self).stack@, old(self).program.functions@[i].value, value_args(arguments@.len(), old(self).heap@)),
                    value_args_heap(arguments@, old(self).stack@, old(self).heap@), fuel - 2)
                ==> r is Ok && forall|c: int| 0 <= c < old(self).heap@.cells.len() ==> #[trigger] final(self).heap@.cells[c] == old(self).heap@.cells[c],
            fuel > 2 && (constant_value_args(arguments@, old(self).stack@, old(self).heap@, fuel - 2)
                || by_reference_args(arguments@, old(self).stack@, old(self).heap@, fuel - 2))
                && !has_std(*old(self).program, identifier.value@) && !has_function(*old(self).program, identifier.value@)
                ==> (r matches Err(e) && e.message@ == "use of undeclared function `"@ + identifier.value@ + "`"@)
                    && final(self).last_arguments@.len() == 0
                    && final(self).stack@ == old(self).stack@
                    && final(self).heap@ == (if by_reference_args(arguments@, old(self).stack@, old(self).heap@, fuel - 2) { old(self).heap@ }
                        else { value_args_heap(arguments@, old(self).stack@, old(self).heap@) }),
            forall|i: int| fuel > 2 && (constant_value_args(arguments@, old(self).stack@, old(self).heap@, fuel - 2)
                || by_reference_args(arguments@, old(self).stack@, old(self).heap@, fuel - 2))
                && !has_std(*old(self).program, identifier.value@)
                && #[trigger] is_first_function(*old(self).program, identifier.value@, i)
                && old(self).program.functions@[i].value.parameters@.len() != arguments@.len()
                ==> (r matches Err(e) && e.message@ == "invalid number of arguments for function `"@ + identifier.value@ + "`"@
                        && (e.expected matches Some(x) && x@ == decimal(old(self).program.functions@[i].value.parameters@.len() as int))
                        && (e.found matches Some(y) && y@ == decimal(arguments@.len() as int)))
                    && final(self).last_arguments@.len() == 0
                    && final(self).stack@ == old(self).stack@
                    && final(self).heap@ == (if by_reference_args(arguments@, old(self).stack@, old(self).heap@, fuel - 2) { old(self).heap@ }
                        else { value_args_heap(arguments@, old(self).stack@, old(self).heap@) }),
        decreases fuel, 0nat,
    {
        if fuel == 0 {
            return Err(Self::step_limit(span));
        }
        let program: &'a Program = self.program;
        let name = identifier.value.as_str();
        let n = arguments.len();
        let ghost s0 = self.stack@;
        let ghost h0 = self.heap@;
        let args = self.eval_arguments(arguments, fuel - 1)?;
        self.last_arguments = args;
        match find_std_function(program, name) {
            Some(k) => {
                let expected = program.std_functions[k].param_count;
                if n != expected {
                    self.last_arguments = Vec::new();
                    return Err(InterpreterError::expected_found(
                        ErrorSeverity::HIGH,
                        function_message("invalid number of arguments for function `", name, "`"),
                        format_unsigned(expected as u128),
                        format_unsigned(n as u128),
                        span,
                    ));
                }
                let mut values: Vec<Value> = Vec::new();
                let m = self.last_arguments.len();
                let mut j: usize = 0;
                while j < m
                    invariant
                    old(self).abort_state is None ==> self.abort_state is None,
                        0 <= j <= m,
                        m == self.last_arguments@.len(),
                        self.inv(),
                    decreases m - j,
                {
                    let c = self.last_arguments[j];
                    values.push(self.heap.read(c).duplicate());
                    j = j + 1;
                }
                match self.runtime.call_std(name, values, &self.heap, span) {
                    Ok(Some(v)) => {
                        let fits = match &v {
                            Value::Vector { values, .. } => *values < self.heap.vector_count(),
                            Value::Struct { fields, .. } => *fields < self.heap.vector_count(),
                            _ => true,
                        };
                        if !fits {
                            return Err(InterpreterError::at(
                                ErrorSeverity::HIGH,
                                function_message("Function `", name, "` returned a value whose elements do not exist."),
                                span,
                            ));
                        }
                        self.last_result = Some(v);
                    },
                    Ok(None) => {},
                    Err(message) => {
                        return Err(InterpreterError::at(ErrorSeverity::HIGH, message, span));
                    },
                }
                self.last_arguments = Vec::new();
                Ok(())
            },
            None => match find_function(program, name) {
                Some(k) => {
                    let declaration = &program.functions[k].value;
                    let expected = declaration.parameters.len();
                    if n != expected {
                        self.last_arguments = Vec::new();
                        return Err(InterpreterError::expected_found(
                            ErrorSeverity::HIGH,
                            function_message("invalid number of arguments for function `", name, "`"),
                            format_unsigned(expected as u128),
                            format_unsigned(n as u128),
                            span,
                        ));
                    }
                    proof {
                        assert forall|i: int| is_first_function(*program, identifier.value@, i) implies i == k as int by {
                            if i < k {
                                assert(program.functions@[i].value.identifier.value@ != identifier.value@);
                            } else if i > k {
                                assert(program.functions@[k as int].value.identifier.value@ != identifier.value@);
                            }
                        }
                    }
                    let ghost vargs = value_args(arguments@.len(), h0);
                    proof {
                        if constant_value_args(arguments@, s0, h0, fuel - 2) {
                            assert forall|j: int| 0 <= j < vargs.len() implies h0.cells.len() <= #[trigger] vargs[j] < self.heap@.cells.len() by {
                                assert(args@[j] as int == h0.cells.len() + j);
                                assert(args@[j] < self.heap@.cells.len());
                            }
                        }
                        let st = declaration.block.value.0@[0].value;
                        if constant_value_args(arguments@, s0, h0, fuel - 2) && declaration.block.value.0@.len() == 1
                            && stmt_succeeds(st, call_stack(s0, *declaration, vargs), value_args_heap(arguments@, s0, h0), fuel - 2) {
                            match st {
                                Statement::Assignment { identifier: target, .. } => {
                                    let cs = call_stack(s0, *declaration, vargs);
                                    let ps = param_scope(declaration.parameters@, vargs, vargs.len());
                                    assert(top_scopes(cs) == seq![ps]);
                                    reveal_with_fuel(scopes_binding, 2);
                                    assert(seq![ps].drop_first() =~= Seq::<Map<Seq<char>, usize>>::empty());
                                    assert(ps.dom().contains(target.value@));
                                    lemma_param_scope_cells(declaration.parameters@, vargs, vargs.len(), h0.cells.len() as int, self.heap@.cells.len() as int, target.value@);
                                },
                                _ => {},
                            }
                        }
                    }
                    self.run_function(declaration, span, fuel - 1)?;
                    proof {
                        if constant_value_args(arguments@, s0, h0, fuel - 2) && declaration.block.value.0@.len() == 1
                            && declaration.block.value.0@[0].value is Assignment
                            && stmt_succeeds(declaration.block.value.0@[0].value, call_stack(s0, *declaration, vargs),
                                value_args_heap(arguments@, s0, h0), fuel - 2) {
                            let cs = call_stack(s0, *declaration, vargs);
                            let vh = value_args_heap(arguments@, s0, h0);
                            let target = declaration.block.value.0@[0].value->Assignment_identifier.value@;
                            let cell = scopes_binding(top_scopes(cs), target).unwrap();
                            assert(cell >= h0.cells.len());
                            assert(cell < vh.cells.len());
                            assert forall|c: int| 0 <= c < h0.cells.len() implies vh.set_cell(cell as int,
                                value_of(declaration.block.value.0@[0].value->Assignment_value.value, cs, vh).unwrap()).cells[c] == h0.cells[c] by {
                                assert(c != cell as int);
                                assert(vh.cells == h0.cells + argument_values(arguments@, s0, h0));
                                assert(c < vh.cells.len());
                                assert(vh.cells[c] == h0.cells[c]);
                            }
                        }
                    }
                    match self.abort_state {
                        Some(AbortState::Return) => {
                            self.abort_state = None;
                        },
                        _ => {},
                    }
                    self.last_arguments = Vec::new();
                    Ok(())
                },
                None => {
                    self.last_arguments = Vec::new();
                    Err(InterpreterError::at(
                        ErrorSeverity::HIGH,
                        function_message("use of undeclared function `", name, "`"),
                        span,
                    ))
                },
            },
        }
    }

    /// Runs a declared function with the pending arguments (see `run_function`).
    pub fn execute_function(&mut self, declaration: &FunctionDeclaration, span: Span) -> (r: Result<(), InterpreterError>)
        requires
            old(self).inv(),
        ensures
            final(self).kept(*old(self)),
            r is Ok ==> final(self).stack@ == old(self).stack@,
            old(self).stack@.len() == crate::stack::stack::max_frames() ==> (r matches Err(e)
                && e.message@ == crate::stack::stack::stack_overflow_message()) && final(self).stack@ == old(self).stack@,
            old(self).last_arguments@.len() > declaration.parameters@.len() ==> r is Err,
            old(self).stack@.len() < max_frames() && old(self).last_arguments@.len() > 0
                && declaration.parameters@.len() > 0
                && !type_accepts(declaration.parameters@[0].value.parameter_type.value, old(self).heap@.cells[old(self).last_arguments@[0] as int])
                ==> (r matches Err(e) && e.message@ == "Function '"@ + declaration.identifier.value@ + "' parameter '"@
                    + declaration.parameters@[0].value.identifier.value@ + "': wrong argument type."@)
                    && final(self).stack@ == old(self).stack@,
            r is Ok ==> returns_declared_type(declaration.return_type.value, final(self).last_result),
            old(self).stack@.len() < max_frames() && old(self).last_arguments@.len() == 0
                && old(self).abort_state is None
                && (constant_return(*declaration, old(self).stack@, old(self).heap@, u64::MAX - 2) matches Some(v)
                    && type_accepts(declaration.return_type.value, v))
                ==> r is Ok && final(self).abort_state == Some(AbortState::Return)
                    && (final(self).last_result matches Some(w)
                        && Some(w@) == constant_return(*declaration, old(self).stack@, old(self).heap@, u64::MAX - 2)),
            old(self).stack@.len() < max_frames() && old(self).abort_state is None
                && params_accept(*declaration, old(self).last_arguments@, old(self).heap@)
                && declaration.block.value.0@.len() == 1
                && (declaration.block.value.0@[0].value matches Statement::Return(Some(e))
                    && evaluable(e.value, call_stack(old(self).stack@, *declaration, old(self).last_arguments@), old(self).heap@, u64::MAX - 2)
                    && type_accepts(declaration.return_type.value,
                        value_of(e.value, call_stack(old(self).stack@, *declaration, old(self).last_arguments@), old(self).heap@).unwrap()))
                ==> r is Ok && final(self).abort_state == Some(AbortState::Return) && final(self).heap@ == old(self).heap@
                    && (final(self).last_result matches Some(w) && Some(w@) == value_of(
                        declaration.block.value.0@[0].value->Return_0->Some_0.value,
                        call_stack(old(self).stack@, *declaration, old(self).last_arguments@),
                        old(self).heap@,
                    )),
            old(self).stack@.len() < max_frames() && old(self).abort_state is None
                && params_accept(*declaration, old(self).last_arguments@, old(self).heap@)
                && declaration.return_type.value is Void
                && declaration.block.value.0@.len() == 1
                && declaration.block.value.0@[0].value is Assignment
                && stmt_succeeds(declaration.block.value.0@[0].value,
                    call_stack(old(self).stack@, *declaration, old(self).last_arguments@), old(self).heap@, u64::MAX - 1)
                ==> r is Ok && final(self).last_result is None && final(self).abort_state is None
                    && final(self).heap@ == assigned_heap(declaration.block.value.0@[0].value,
                        call_stack(old(self).stack@, *declaration, old(self).last_arguments@), old(self).heap@),
            old(self).stack@.len() < max_frames() && old(self).abort_state is None
                && params_accept(*declaration, old(self).last_arguments@, old(self).heap@)
                && declaration.block.value.0@.len() == 1
                && (declaration.block.value.0@[0].value matches Statement::Return(Some(e))
                    && evaluable(e.value, call_stack(old(self).stack@, *declaration, old(self).last_arguments@), old(self).heap@, u64::MAX - 2)
                    && !type_accepts(declaration.return_type.value,
                        value_of(e.value, call_stack(old(self).stack@, *declaration, old(self).last_arguments@), old(self).heap@).unwrap()))
                ==> (r matches Err(e) && e.message@ == "Bad return type from function '"@ + declaration.identifier.value@ + "'."@)
                    && final(self).stack@ == old(self).stack@,
            old(self).stack@.len() < max_frames() && old(self).abort_state is None
                && params_accept(*declaration, old(self).last_arguments@, old(self).heap@)
                && declaration.block.value.0@.len() > 0 && declaration.block.value.0@[0].value is Break
                ==> (r matches Err(e) && e.message@ == "Break called outside 'for' or 'switch'."@)
                    && final(self).stack@ == old(self).stack@,
            old(self).stack@.len() < max_frames() && old(self).abort_state is None
                && params_accept(*declaration, old(self).last_arguments@, old(self).heap@)
                && declaration.block.value.0@.len() > 0 && declaration.block.value.0@[0].value is Continue
                ==> (r matches Err(e) && e.message@ == "Continue called outside 'for' or 'while'."@)
                    && final(self).stack@ == old(self).stack@,
    {
        self.run_function(declaration, span, u64::MAX)
    }

    /// Runs a declared function with the pending arguments: opens a frame, binds each
    /// argument cell to its parameter (checking its type), runs the statements until one
    /// returns, checks the result against the return type and closes the frame.
    #[verifier::rlimit(100)]
    #[verifier::spinoff_prover]
    pub fn run_function(&mut self, declaration: &FunctionDeclaration, span: Span, fuel: u64) -> (r: Result<(), InterpreterError>)
        requires
            old(self).inv(),
        ensures
            final(self).kept(*old(self)),
            r is Ok ==> final(self).stack@ == old(self).stack@,
            fuel > 0 && old(self).stack@.len() == crate::stack::stack::max_frames() ==> (r matches Err(e)
                && e.message@ == crate::stack::stack::stack_overflow_message()) && final(self).stack@ == old(self).stack@,
            old(self).last_arguments@.len() > declaration.parameters@.len() ==> r is Err,
            fuel > 0 && old(self).stack@.len() < max_frames() && old(self).last_arguments@.len() > 0
                && declaration.parameters@.len() > 0
                && !type_accepts(declaration.parameters@[0].value.parameter_type.value, old(self).heap@.cells[old(self).last_arguments@[0] as int])
                ==> (r matches Err(e) && e.message@ == "Function '"@ + declaration.identifier.value@ + "' parameter '"@
                    + declaration.parameters@[0].value.identifier.value@ + "': wrong argument type."@)
                    && final(self).stack@ == old(self).stack@,
            r is Ok ==> returns_declared_type(declaration.return_type.value, final(self).last_result),
            r is Ok && old(self).abort_state is None ==> final(self).abort_state is None
                || final(self).abort_state == Some(AbortState::Return),
            fuel > 2 && old(self).stack@.len() < max_frames() && old(self).last_arguments@.len() == 0
                && old(self).abort_state is None
                && (constant_return(*declaration, old(self).stack@, old(self).heap@, fuel - 2) matches Some(v)
                    && type_accepts(declaration.return_type.value, v))
                ==> r is Ok && final(self).abort_state == Some(AbortState::Return)
                    && (final(self).last_result matches Some(w)
                        && Some(w@) == constant_return(*declaration, old(self).stack@, old(self).heap@, fuel - 2)),
            fuel > 2 && old(self).stack@.len() < max_frames() && old(self).abort_state is None
                && params_accept(*declaration, old(self).last_arguments@, old(self).heap@)
                && declaration.block.value.0@.len() == 1
                && (declaration.block.value.0@[0].value matches Statement::Return(Some(e))
                    && evaluable(e.value, call_stack(old(self).stack@, *declaration, old(self).last_arguments@), old(self).heap@, fuel - 2)
                    && type_accepts(declaration.return_type.value,
                        value_of(e.value, call_stack(old(self).stack@, *declaration, old(self).last_arguments@), old(self).heap@).unwrap()))
                ==> r is Ok && final(self).abort_state == Some(AbortState::Return) && final(self).heap@ == old(self).heap@
                    && (final(self).last_result matches Some(w) && Some(w@) == value_of(
                        declaration.block.value.0@[0].value->Return_0->Some_0.value,
                        call_stack(old(self).stack@, *declaration, old(self).last_arguments@),
                        old(self).heap@,
                    )),
            fuel > 2 && old(self).stack@.len() < max_frames() && old(self).abort_state is None
                && params_accept(*declaration, old(self).last_arguments@, old(self).heap@)
                && declaration.block.value.0@.len() == 1
                && (declaration.block.value.0@[0].value matches Statement::Return(Some(e))
                    && evaluable(e.value, call_stack(old(self).stack@, *declaration, old(self).last_arguments@), old(self).heap@, fuel - 2)
                    && !type_accepts(declaration.return_type.value,
                        value_of(e.value, call_stack(old(self).stack@, *declaration, old(self).last_arguments@), old(self).heap@).unwrap()))
                ==> (r matches Err(e) && e.message@ == "Bad return type from function '"@ + declaration.identifier.value@ + "'."@)
                    && final(self).stack@ == old(self).stack@,
            fuel > 2 && old(self).stack@.len() < max_frames() && old(self).abort_state is None
                && params_accept(*declaration, old(self).last_arguments@, old(self).heap@)
                && declaration.block.value.0@.len() > 0 && declaration.block.value.0@[0].value is Break
                ==> (r matches Err(e) && e.message@ == "Break called outside 'for' or 'switch'."@)
                    && final(self).stack@ == old(self).stack@,
            fuel > 2 && old(self).stack@.len() < max_frames() && old(self).abort_state is None
                && params_accept(*declaration, old(self).last_arguments@, old(self).heap@)
                && declaration.block.value.0@.len() > 0 && declaration.block.value.0@[0].value is Continue
                ==> (r matches Err(e) && e.message@ == "Continue called outside 'for' or 'while'."@)
                    && final(self).stack@ == old(self).stack@,
            fuel > 2 && old(self).stack@.len() < max_frames() && old(self).abort_state is None
                && params_accept(*declaration, old(self).last_arguments@, old(self).heap@)
                && declaration.return_type.value is Void
                && declaration.block.value.0@.len() == 1
                && declaration.block.value.0@[0].value is Assignment
                && stmt_succeeds(declaration.block.value.0@[0].value,
                    call_stack(old(self).stack@, *declaration, old(self).last_arguments@), old(self).heap@, fuel - 1)
                ==> r is Ok && final(self).last_result is None && final(self).abort_state is None
                    && final(self).heap@ == assigned_heap(declaration.block.value.0@[0].value,
                        call_stack(old(self).stack@, *declaration, old(self).last_arguments@), old(self).heap@),
            fuel > 1 && old(self).stack@.len() < max_frames() && old(self).abort_state is None
                && params_accept(*declaration, old(self).last_arguments@, old(self).heap@)
                && body_run(declaration.block.value.0@, 0, body_start(old(self).stack@, *declaration, old(self).last_arguments@,
                    old(self).heap@, result_view(old(self).last_result)), fuel - 1) is Some
                && result_accepted(declaration.return_type.value, body_run(declaration.block.value.0@, 0, body_start(old(self).stack@,
                    *declaration, old(self).last_arguments@, old(self).heap@, result_view(old(self).last_result)), fuel - 1).unwrap().result)
                ==> r is Ok && final(self).stack@ == old(self).stack@
                    && final(self).heap@ == body_run(declaration.block.value.0@, 0, body_start(old(self).stack@, *declaration, old(self).last_arguments@,
                        old(self).heap@, result_view(old(self).last_result)), fuel - 1).unwrap().heap
                    && final(self).abort_state == body_run(declaration.block.value.0@, 0, body_start(old(self).stack@, *declaration, old(self).last_arguments@,
                        old(self).heap@, result_view(old(self).last_result)), fuel - 1).unwrap().abort
                    && result_view(final(self).last_result) == body_run(declaration.block.value.0@, 0, body_start(old(self).stack@, *declaration, old(self).last_arguments@,
                        old(self).heap@, result_view(old(self).last_result)), fuel - 1).unwrap().result,
        decreases fuel, 0nat,
    {
        if fuel == 0 {
            return Err(Self::step_limit(span));
        }
        let name = declaration.identifier.value.as_str();
        let ghost args = old(self).last_arguments@;
        let ghost ok_params = old(self).stack@.len() < max_frames() && params_accept(*declaration, args, old(self).heap@);
        let ghost s0 = self.stack@;
        match self.stack.push_stack_frame(span) {
            Ok(()) => {},
            Err(e) => return Err(InterpreterError::at(ErrorSeverity::HIGH, e.message, span)),
        }
        proof {
            let s = self.stack@;
            assert(s.drop_last() =~= s0);
            assert forall|f: int| 0 <= f < s.len() implies crate::stack::scope_manager::cells_below(#[trigger] s[f], self.heap@.cells.len()) by {
                if f < s0.len() {
                    assert(s[f] == s0[f]);
                } else {
                    assert(s[f] == seq![Map::<Seq<char>, usize>::empty()]);
                }
            }
        }
        let n = self.last_arguments.len();
        let mut idx: usize = 0;
        while idx < n
            invariant
                0 <= idx <= n,
                n == self.last_arguments@.len(),
                self.last_arguments@ == old(self).last_arguments@,
                self.kept(*old(self)),
                s0 == old(self).stack@,
                s0.len() > 0,
                self.stack@.len() == s0.len() + 1,
                self.stack@.drop_last() == s0,
                fuel > 0,
                idx <= declaration.parameters@.len(),
                self.abort_state == old(self).abort_state,
                self.heap@ == old(self).heap@,
                args == old(self).last_arguments@,
                ok_params == (old(self).stack@.len() < max_frames() && params_accept(*declaration, args, old(self).heap@)),
                ok_params ==> self.stack@ == s0.push(seq![param_scope(declaration.parameters@, args, idx as nat)]),
                self.last_arguments@ == args,
                self.last_result == old(self).last_result,
                old(self).stack@.len() != max_frames(),
                idx > 0 ==> type_accepts(declaration.parameters@[0].value.parameter_type.value, old(self).heap@.cells[args[0] as int]),
                name@ == declaration.identifier.value@,
            decreases n - idx,
        {
            if idx >= declaration.parameters.len() {
                let mut m = string_of("Invalid parameter index ");
                append_str(&mut m, format_unsigned(idx as u128).as_str());
                append_str(&mut m, " while calling function '");
                append_str(&mut m, name);
                append_str(&mut m, "'.");
                return Err(InterpreterError::at(ErrorSeverity::HIGH, m, span));
            }
            let parameter = &declaration.parameters[idx];
            let cell = self.last_arguments[idx];
            if !type_accepts_value(&parameter.value.parameter_type.value, self.heap.read(cell)) {
                let found = self.heap.read(cell).to_type().label();
                proof { lemma_frames_cells_below_drop_last(self.stack@, self.heap@.cells.len()); }
                self.stack.pop_stack_frame();
                let mut m = string_of("Function '");
                append_str(&mut m, name);
                append_str(&mut m, "' parameter '");
                append_str(&mut m, parameter.value.identifier.value.as_str());
                append_str(&mut m, "': wrong argument type.");
                return Err(InterpreterError::expected_found(
                    ErrorSeverity::HIGH,
                    m,
                    parameter.value.parameter_type.value.label(),
                    found,
                    parameter.span,
                ));
            }
            let ghost before = self.stack@;
            proof {
                if ok_params {
                    lemma_param_scope_dom(declaration.parameters@, args, idx as nat, parameter.value.identifier.value@);
                    reveal_with_fuel(scopes_binding, 2);
                    assert(top_scopes(self.stack@) == seq![param_scope(declaration.parameters@, args, idx as nat)]);
                    assert(top_scopes(self.stack@).drop_first() =~= Seq::<Map<Seq<char>, usize>>::empty());
                }
            }
            match self.declare_cell(parameter.value.identifier.value.as_str(), cell, span) {
                Ok(()) => {},
                Err(e) => return Err(InterpreterError::at(ErrorSeverity::HIGH, e.message, parameter.span)),
            }
            assert(self.stack@.drop_last() == before.drop_last());
            proof {
                if ok_params {
                    let m0 = param_scope(declaration.parameters@, args, idx as nat);
                    let nm = parameter.value.identifier.value@;
                    assert(before == s0.push(seq![m0]));
                    assert(self.stack@ == crate::stack::stack::declared(before, nm, cell));
                    assert(declaration.parameters@[idx as int] == *parameter);
                    assert(param_scope(declaration.parameters@, args, (idx + 1) as nat) == m0.insert(nm, args[idx as int]));
                    assert(before.last().update(0, m0.insert(nm, cell)) =~= seq![m0.insert(nm, cell)]);
                    assert(self.stack@ =~= s0.push(seq![param_scope(declaration.parameters@, args, (idx + 1) as nat)]));
                }
            }
            idx = idx + 1;
        }
        let ghost ret_case = fuel > 2 && old(self).abort_state is None && ok_params
            && declaration.block.value.0@.len() == 1
            && (declaration.block.value.0@[0].value matches Statement::Return(Some(e))
                && evaluable(e.value, call_stack(old(self).stack@, *declaration, args), old(self).heap@, fuel - 2));
        let ghost asg_case = fuel > 2 && old(self).abort_state is None && ok_params
            && declaration.return_type.value is Void
            && declaration.block.value.0@.len() == 1
            && declaration.block.value.0@[0].value is Assignment
            && stmt_succeeds(declaration.block.value.0@[0].value, call_stack(old(self).stack@, *declaration, args), old(self).heap@, fuel - 1);
        let ghost bt = if fuel > 1 && ok_params && old(self).abort_state is None {
            body_run(declaration.block.value.0@, 0, body_start(old(self).stack@, *declaration, args, old(self).heap@,
                result_view(old(self).last_result)), fuel - 1)
        } else {
            None
        };
        let statements = &declaration.block.value.0;
        let m = statements.len();
        let mut j: usize = 0;
        while j < m
            invariant_except_break
                bt is Some ==> bt == body_run(statements@, j as int, state_of(*self), fuel - 1),
            invariant
                bt == (if fuel > 1 && ok_params && old(self).abort_state is None {
                    body_run(declaration.block.value.0@, 0, body_start(old(self).stack@, *declaration, args, old(self).heap@,
                        result_view(old(self).last_result)), fuel - 1)
                } else {
                    None
                }),
                old(self).stack@.len() != max_frames(),
                args.len() > 0 && declaration.parameters@.len() > 0
                    ==> type_accepts(declaration.parameters@[0].value.parameter_type.value, old(self).heap@.cells[args[0] as int]),
                0 <= j <= m,
                m == statements@.len(),
                self.kept(*old(self)),
                s0 == old(self).stack@,
                s0.len() > 0,
                self.stack@.len() == s0.len() + 1,
                self.stack@.drop_last() == s0,
                fuel > 0,
                old(self).abort_state is None ==> self.abort_state is None || self.abort_state == Some(AbortState::Return),
                statements@ == declaration.block.value.0@,
                j == 0 ==> (old(self).abort_state is None ==> self.abort_state is None) && self.heap@ == old(self).heap@,
                j > 0 && fuel > 2 && old(self).abort_state is None
                    && constant_return(*declaration, old(self).stack@, old(self).heap@, fuel - 2) is Some
                    ==> self.abort_state == Some(AbortState::Return) && (self.last_result matches Some(w)
                        && Some(w@) == constant_return(*declaration, old(self).stack@, old(self).heap@, fuel - 2)),
                ret_case == (fuel > 2 && old(self).abort_state is None && ok_params
                    && declaration.block.value.0@.len() == 1
                    && (declaration.block.value.0@[0].value matches Statement::Return(Some(e))
                        && evaluable(e.value, call_stack(old(self).stack@, *declaration, args), old(self).heap@, fuel - 2))),
                fuel > 1 && j > 0 && old(self).abort_state is None && declaration.block.value.0@.len() > 0
                    ==> !(declaration.block.value.0@[0].value is Break) && !(declaration.block.value.0@[0].value is Continue),
                ok_params ==> args.len() == declaration.parameters@.len(),
                asg_case == (fuel > 2 && old(self).abort_state is None && ok_params
                    && declaration.return_type.value is Void
                    && declaration.block.value.0@.len() == 1
                    && declaration.block.value.0@[0].value is Assignment
                    && stmt_succeeds(declaration.block.value.0@[0].value, call_stack(old(self).stack@, *declaration, args), old(self).heap@, fuel - 1)),
                asg_case && j == 0 ==> self.stack@ == call_stack(old(self).stack@, *declaration, args),
                asg_case && j > 0 ==> self.abort_state is None && self.last_result is None
                    && self.heap@ == assigned_heap(declaration.block.value.0@[0].value, call_stack(old(self).stack@, *declaration, args), old(self).heap@),
                args == old(self).last_arguments@,
                ok_params == (old(self).stack@.len() < max_frames() && params_accept(*declaration, args, old(self).heap@)),
                ret_case && j == 0 ==> self.stack@ == call_stack(old(self).stack@, *declaration, args),
                ret_case && j > 0 ==> self.abort_state == Some(AbortState::Return) && self.heap@ == old(self).heap@
                    && (self.last_result matches Some(w) && Some(w@) == value_of(
                        declaration.block.value.0@[0].value->Return_0->Some_0.value,
                        call_stack(old(self).stack@, *declaration, args),
                        old(self).heap@,
                    )),
            ensures
                bt is Some ==> bt == Some(state_of(*self)),
                fuel > 2 && old(self).abort_state is None
                    && constant_return(*declaration, old(self).stack@, old(self).heap@, fuel - 2) is Some ==> j > 0,
                ret_case ==> j > 0,
                asg_case ==> j > 0,
                fuel > 1 && old(self).abort_state is None && declaration.block.value.0@.len() > 0 ==> j > 0,
            decreases m - j,
        {
            match self.abort_state {
                Some(AbortState::Return) => {
                    self.abort_state = None;
                    break;
                },
                _ => {},
            }
            let statement = &statements[j];
            self.span = statement.span;
            proof {
                if j == 0 && fuel > 2 && old(self).abort_state is None
                    && constant_return(*declaration, old(self).stack@, old(self).heap@, fuel - 2) is Some {
                    match &statement.value {
                        Statement::Return(Some(e)) => lemma_constant_value(e.value, old(self).stack@, old(self).heap@, self.stack@, self.heap@),
                        _ => {},
                    }
                }
            }
            let ghost before = self.stack@;
            proof {
                if asg_case {
                    assert(j == 0);
                    assert(self.stack@ == call_stack(old(self).stack@, *declaration, args));
                }
                if ret_case {
                    assert(j == 0);
                    assert(self.stack@ == call_stack(old(self).stack@, *declaration, args));
                    assert(stmt_succeeds(statement.value, self.stack@, self.heap@, fuel - 1));
                }
            }
            self.exec_statement(statement, fuel - 1)?;
            assert(self.stack@.drop_last() == before.drop_last());
            match self.abort_state {
                Some(AbortState::Break) => {
                    proof { lemma_frames_cells_below_drop_last(self.stack@, self.heap@.cells.len()); }
                    self.stack.pop_stack_frame();
                    return Err(InterpreterError::at(
                        ErrorSeverity::HIGH,
                        string_of("Break called outside 'for' or 'switch'."),
                        statement.span,
                    ));
                },
                Some(AbortState::Continue) => {
                    proof { lemma_frames_cells_below_drop_last(self.stack@, self.heap@.cells.len()); }
                    self.stack.pop_stack_frame();
                    return Err(InterpreterError::at(
                        ErrorSeverity::HIGH,
                        string_of("Continue called outside 'for' or 'while'."),
                        statement.span,
                    ));
                },
                _ => {},
            }
            j = j + 1;
        }
        let return_type = &declaration.return_type.value;
        let accepted = match &self.last_result {
            None => match return_type {
                crate::types::Type::Void => true,
                _ => false,
            },
            Some(v) => type_accepts_value(return_type, v),
        };
        if !accepted {
            let found = match &self.last_result {
                None => string_of("void"),
                Some(v) => v.to_type().label(),
            };
            proof { lemma_frames_cells_below_drop_last(self.stack@, self.heap@.cells.len()); }
            self.stack.pop_stack_frame();
            let mut msg = string_of("Bad return type from function '");
            append_str(&mut msg, name);
            append_str(&mut msg, "'.");
            return Err(InterpreterError::expected_found(
                ErrorSeverity::HIGH,
                msg,
                return_type.label(),
                found,
                declaration.return_type.span,
            ));
        }
        proof { lemma_frames_cells_below_drop_last(self.stack@, self.heap@.cells.len()); }
        self.stack.pop_stack_frame();
        Ok(())
    }
}

} // verus!
