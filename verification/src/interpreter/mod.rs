pub mod results;
pub mod declarations;
pub mod assignments;
pub mod structs;
pub mod expressions;
pub mod functions;
pub mod statements;
pub mod visitor;
pub mod semantics;

use vstd::prelude::*;
use crate::alu::FloatUnit;
use crate::ast::{Program, Statement};
use crate::errors::{ErrorSeverity, InterpreterError};
use crate::heap::{Heap, HeapView};
use crate::span::Span;
use crate::stack::stack::{frames_cells_below, top_scopes, Stack};
use crate::stack::scope_manager::scopes_binding;
use crate::interpreter::expressions::{evaluable, value_of};
use crate::interpreter::statements::stmt_succeeds;
use crate::interpreter::semantics::{program_abort, program_run, state_of};
use crate::text::{append_str, string_of};
use crate::value::{refs_within, Value, ValueView};

verus! {

/// Why statements stopped running before the end of their block.
#[derive(Clone, Copy, Debug, PartialEq, Eq, Structural)]
pub enum AbortState {
    Break,
    Continue,
    Return,
}

/// The functions a program may call that the host provides (printing, input, ...). The
/// host gets the argument values and may read the store; it gives back a value or nothing,
/// or an error message.
pub trait Host {
    fn call_std(&mut self, name: &str, arguments: Vec<Value>, heap: &Heap, span: Span) -> Result<Option<Value>, String>;
}

/// The model of the variables: for each frame, its scopes, each mapping names to cells.
pub type StackView = Seq<Seq<Map<Seq<char>, usize>>>;

/// `new` is `old` with, at most, more names bound in the innermost scope of the
/// innermost frame.
pub open spec fn same_but_innermost(old: StackView, new: StackView) -> bool {
    &&& new.len() == old.len()
    &&& new.len() > 0
    &&& new.drop_last() == old.drop_last()
    &&& new.last().len() == old.last().len()
    &&& new.last().len() > 0 ==> {
        &&& new.last().drop_last() == old.last().drop_last()
        &&& forall|k: Seq<char>| #[trigger] old.last().last().dom().contains(k)
            ==> new.last().last().dom().contains(k) && new.last().last()[k] == old.last().last()[k]
    }
    &&& new.last().len() == 0 ==> new.last() == old.last()
}

/// The store only grows: no cell and no vector goes away.
pub open spec fn heap_grew(old: HeapView, new: HeapView) -> bool {
    &&& old.cells.len() <= new.cells.len()
    &&& old.vectors.len() <= new.vectors.len()
}

/// Closing the innermost frame keeps every bound cell below `n`.
pub proof fn lemma_frames_cells_below_drop_last(s: StackView, n: nat)
    requires
        frames_cells_below(s, n),
        s.len() > 0,
    ensures
        frames_cells_below(s.drop_last(), n),
{
    assert forall|f: int| 0 <= f < s.drop_last().len() implies crate::stack::scope_manager::cells_below(#[trigger] s.drop_last()[f], n) by {
        assert(s.drop_last()[f] == s[f]);
    }
}

pub open spec fn step_limit_message() -> Seq<char> {
    "Execution step limit reached."@
}

/// A tree-walking interpreter. Values live in `heap`; variables bind names to heap cells.
/// Each evaluation step is given a budget that nested steps and loop rounds use up; the
/// budget a run starts with is `u64::MAX`, so it runs out only on programs that could not
/// finish anyway.
pub struct Interpreter<'a, R> {
    pub program: &'a Program,
    pub stack: Stack,
    pub heap: Heap,
    pub last_result: Option<Value>,
    pub abort_state: Option<AbortState>,
    pub span: Span,
    pub last_arguments: Vec<usize>,
    pub runtime: R,
}

impl<'a, R: FloatUnit + Host> Interpreter<'a, R> {
    /// The interpreter's state is consistent: the store is well formed, every variable and
    /// pending argument names an existing cell, and the pending result refers to existing
    /// vectors.
    pub open spec fn inv(&self) -> bool {
        &&& self.heap.wf()
        &&& self.stack.wf()
        &&& self.stack@.len() > 0
        &&& frames_cells_below(self.stack@, self.heap@.cells.len())
        &&& (self.last_result matches Some(v) ==> refs_within(v@, self.heap@.vectors.len()))
        &&& forall|i: int| 0 <= i < self.last_arguments@.len() ==> #[trigger] self.last_arguments@[i] < self.heap@.cells.len()
    }

    /// A fresh interpreter for `program`, with one frame holding one empty scope.
    pub fn new(program: &'a Program, runtime: R) -> (i: Self)
        ensures
            i.inv(),
            i.program == program,
            i.stack@ == seq![seq![Map::<Seq<char>, usize>::empty()]],
            i.heap@.cells.len() == 0,
            i.heap@.vectors.len() == 0,
            i.last_result is None,
            i.abort_state is None,
            i.last_arguments@.len() == 0,
    {
        Interpreter {
            program,
            stack: Stack::new(),
            heap: Heap::new(),
            last_result: None,
            abort_state: None,
            span: Span::default_span(),
            last_arguments: Vec::new(),
            runtime,
        }
    }

    /// Runs the program; refused when it declares extern functions.
    pub fn interpret(&mut self) -> (r: Result<(), InterpreterError>)
        requires
            old(self).inv(),
        ensures
            final(self).kept(*old(self)),
            old(self).program.extern_functions@.len() > 0 ==> (r matches Err(e)
                && e.message@ == "Extern function `"@ + old(self).program.extern_functions@[0].name@
                    + "` cannot be used in interpretation mode."@
                && *final(self) == *old(self)),
            r is Ok ==> same_but_innermost(old(self).stack@, final(self).stack@),
            r is Ok && (old(self).abort_state is None || old(self).program.statements@.len() > 0) ==> final(self).abort_state is None,
            old(self).program.extern_functions@.len() == 0 ==> (
                old(self).program.statements@.len() == 0 ==> r is Ok && *final(self) == *old(self)),
            old(self).program.extern_functions@.len() == 0 ==> (
                old(self).program.statements@.len() > 0 ==> match old(self).program.statements@[0].value {
                    Statement::Break => r matches Err(e) && e.message@ == "Break called outside 'for' or 'switch'."@,
                    Statement::Continue => r matches Err(e) && e.message@ == "Continue called outside 'for' or 'while'."@,
                    _ => true,
                }),
            old(self).program.extern_functions@.len() == 0 ==> (
                (u64::MAX as int) > 0 && old(self).program.statements@.len() > 0 && old(self).program.statements@[0].value is Return
                    && (old(self).program.statements@[0].value->Return_0 matches Some(e) ==> evaluable(e.value, old(self).stack@, old(self).heap@, (u64::MAX as int) - 1))
                    ==> (r matches Err(e) && e.message@ == "Return called outside a function."@)),
            old(self).program.extern_functions@.len() == 0 ==> (
                (u64::MAX as int) > 2 && old(self).abort_state is None && old(self).program.statements@.len() > 0
                    && (old(self).program.statements@[0].value matches Statement::Conditional { condition, if_block, .. }
                        && evaluable(condition.value, old(self).stack@, old(self).heap@, (u64::MAX as int) - 2)
                        && value_of(condition.value, old(self).stack@, old(self).heap@) == Some(ValueView::Bool(true))
                        && if_block.value.0@.len() > 0 && if_block.value.0@[0].value is Break)
                    ==> (r matches Err(e) && e.message@ == "Break called outside 'for' or 'switch'."@)),
            old(self).program.extern_functions@.len() == 0 ==> (
                old(self).abort_state is None && old(self).program.statements@.len() == 1
                    && (old(self).program.statements@[0].value is Assignment || old(self).program.statements@[0].value is Declaration)
                    && stmt_succeeds(old(self).program.statements@[0].value, old(self).stack@, old(self).heap@, (u64::MAX as int)) ==> r is Ok
                        && (old(self).program.statements@[0].value matches Statement::Assignment { identifier, value, .. } ==> (
                            scopes_binding(top_scopes(final(self).stack@), identifier.value@) matches Some(c)
                            && Some(final(self).heap@.cells[c as int]) == value_of(value.value, old(self).stack@, old(self).heap@)))),
            old(self).program.extern_functions@.len() == 0 ==> (old(self).abort_state is None && (program_run(old(self).program.statements@, 0, state_of(*old(self)), (u64::MAX as int)) matches Some(y))
                ==> r is Ok && state_of(*final(self)) == program_run(old(self).program.statements@, 0, state_of(*old(self)), (u64::MAX as int)).unwrap()),
            old(self).program.extern_functions@.len() == 0 ==> (old(self).abort_state is None ==> match program_abort(old(self).program.statements@, 0, state_of(*old(self)), (u64::MAX as int)) {
                Some(AbortState::Break) => r matches Err(e) && e.message@ == "Break called outside 'for' or 'switch'."@,
                Some(AbortState::Continue) => r matches Err(e) && e.message@ == "Continue called outside 'for' or 'while'."@,
                Some(AbortState::Return) => r matches Err(e) && e.message@ == "Return called outside a function."@,
                None => true,
            }),
    {
        if self.program.extern_functions.len() > 0 {
            let f = &self.program.extern_functions[0];
            let mut m = string_of("Extern function `");
            append_str(&mut m, f.name.as_str());
            append_str(&mut m, "` cannot be used in interpretation mode.");
            return Err(InterpreterError::at(ErrorSeverity::HIGH, m, f.span));
        }
        self.visit_program()
    }

    /// A copy of the variables' stack.
    pub fn stack(&self) -> (s: Stack)
        ensures
            s@ == self.stack@,
            self.stack.wf() ==> s.wf(),
    {
        self.stack.duplicate()
    }

    /// `self` keeps the invariant, its store only grew, and it runs the same program.
    pub open spec fn kept(self, earlier: Self) -> bool {
        &&& self.inv()
        &&& heap_grew(earlier.heap@, self.heap@)
        &&& self.program == earlier.program
    }

    pub fn step_limit(span: Span) -> (e: InterpreterError)
        ensures
            e.message@ == step_limit_message(),
    {
        InterpreterError::at(ErrorSeverity::HIGH, string_of("Execution step limit reached."), span)
    }
}

} // verus!
