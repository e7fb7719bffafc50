use vstd::prelude::*;
use crate::errors::{ErrorSeverity, ScopeManagerError, StackOverflowError};
use crate::heap::Heap;
use crate::span::Span;
use crate::stack::scope::{bad_assign_message, type_accepts};
use crate::stack::scope_manager::{cells_below, not_declared_in_scope_message, no_scope_message, scopes_binding};
use crate::stack::stack_frame::StackFrame;
use crate::text::string_of;
use crate::value::{refs_within, view_type, Value};

verus! {

/// The most frames the stack holds.
pub open spec fn max_frames() -> nat {
    500
}

pub open spec fn stack_overflow_message() -> Seq<char> {
    "Stack overflow."@
}

/// The call stack: one frame per active function call, the innermost last. Only the
/// innermost frame's variables are visible.
pub struct Stack {
    frames: Vec<StackFrame>,
}

impl View for Stack {
    type V = Seq<Seq<Map<Seq<char>, usize>>>;

    closed spec fn view(&self) -> Seq<Seq<Map<Seq<char>, usize>>> {
        self.frames@.map_values(|f: StackFrame| f.scope_manager@)
    }
}

/// The scopes that name lookups see: those of the innermost frame.
pub open spec fn top_scopes(s: Seq<Seq<Map<Seq<char>, usize>>>) -> Seq<Map<Seq<char>, usize>> {
    s.last()
}

/// The stack with a new frame holding one empty scope.
pub open spec fn pushed_frame(s: Seq<Seq<Map<Seq<char>, usize>>>) -> Seq<Seq<Map<Seq<char>, usize>>> {
    s.push(seq![Map::<Seq<char>, usize>::empty()])
}

/// The stack without its innermost frame (unchanged when there is none).
pub open spec fn popped_frame(s: Seq<Seq<Map<Seq<char>, usize>>>) -> Seq<Seq<Map<Seq<char>, usize>>> {
    if s.len() == 0 { s } else { s.drop_last() }
}

/// The stack with a new empty scope in its innermost frame (unchanged when there is no frame).
pub open spec fn pushed_scope(s: Seq<Seq<Map<Seq<char>, usize>>>) -> Seq<Seq<Map<Seq<char>, usize>>> {
    if s.len() == 0 { s } else { s.update(s.len() - 1, s.last().push(Map::empty())) }
}

/// The stack without the innermost scope of its innermost frame (unchanged when there is none).
pub open spec fn popped_scope(s: Seq<Seq<Map<Seq<char>, usize>>>) -> Seq<Seq<Map<Seq<char>, usize>>> {
    if s.len() == 0 || s.last().len() == 0 { s } else { s.update(s.len() - 1, s.last().drop_last()) }
}

/// The stack with `name` bound to `cell` in the innermost scope of the innermost frame.
pub open spec fn declared(s: Seq<Seq<Map<Seq<char>, usize>>>, name: Seq<char>, cell: usize) -> Seq<Seq<Map<Seq<char>, usize>>> {
    s.update(s.len() - 1, s.last().update(s.last().len() - 1, s.last().last().insert(name, cell)))
}

/// Every cell bound in any frame is below `n`.
pub open spec fn frames_cells_below(s: Seq<Seq<Map<Seq<char>, usize>>>, n: nat) -> bool {
    forall|f: int| 0 <= f < s.len() ==> cells_below(#[trigger] s[f], n)
}

impl Stack {
    pub closed spec fn wf(&self) -> bool {
        forall|i: int| 0 <= i < self.frames@.len() ==> (#[trigger] self.frames@[i]).scope_manager.wf()
    }

    pub proof fn lemma_wf(&self)
        requires
            self.wf(),
        ensures
            forall|f: int| 0 <= f < self@.len() ==> crate::stack::scope_manager::no_shadowing(#[trigger] self@[f]),
    {
        assert forall|f: int| 0 <= f < self@.len() implies crate::stack::scope_manager::no_shadowing(#[trigger] self@[f]) by {
            self.frames@[f].scope_manager.lemma_wf();
        }
    }

    /// A stack with one frame holding one empty scope.
    pub fn new() -> (s: Stack)
        ensures
            s@ == seq![seq![Map::<Seq<char>, usize>::empty()]],
            s.wf(),
    {
        let mut frames = Vec::new();
        frames.push(StackFrame::new());
        let s = Stack { frames };
        assert(s@ =~= seq![seq![Map::<Seq<char>, usize>::empty()]]);
        s
    }

    /// A copy of the stack.
    pub fn duplicate(&self) -> (r: Stack)
        ensures
            r@ == self@,
            self.wf() ==> r.wf(),
    {
        let mut frames: Vec<StackFrame> = Vec::new();
        let n = self.frames.len();
        let mut i: usize = 0;
        while i < n
            invariant
                0 <= i <= n,
                n == self.frames@.len(),
                frames@.len() == i,
                forall|j: int| 0 <= j < i ==> (#[trigger] frames@[j]).scope_manager@ == self.frames@[j].scope_manager@
                    && (self.frames@[j].scope_manager.wf() ==> frames@[j].scope_manager.wf()),
            decreases n - i,
        {
            frames.push(self.frames[i].duplicate());
            i = i + 1;
        }
        let r = Stack { frames };
        assert(r@ =~= self@);
        r
    }

    /// The number of frames.
    pub fn frame_count(&self) -> (n: usize)
        ensures
            n == self@.len(),
    {
        self.frames.len()
    }

    /// The number of scopes of the innermost frame (0 when there is no frame).
    pub fn scope_count(&self) -> (n: usize)
        ensures
            n == if self@.len() == 0 { 0 } else { self@.last().len() },
    {
        if self.frames.len() == 0 {
            0
        } else {
            self.frames[self.frames.len() - 1].scope_manager.depth()
        }
    }

    /// Opens a frame for a function call; refused when the stack already holds 500 frames.
    pub fn push_stack_frame(&mut self, span: Span) -> (r: Result<(), StackOverflowError>)
        requires
            old(self).wf(),
        ensures
            final(self).wf(),
            match r {
                Ok(()) => old(self)@.len() != max_frames() && final(self)@ == pushed_frame(old(self)@),
                Err(e) => old(self)@.len() == max_frames() && final(self)@ == old(self)@
                    && e.message@ == stack_overflow_message() && e.span == span,
            },
    {
        if self.frames.len() == 500 {
            return Err(StackOverflowError::new(ErrorSeverity::HIGH, string_of("Stack overflow."), span));
        }
        self.frames.push(StackFrame::new());
        assert(self@ =~= old(self)@.push(seq![Map::<Seq<char>, usize>::empty()]));
        Ok(())
    }

    /// Closes the innermost frame, if there is one.
    pub fn pop_stack_frame(&mut self)
        requires
            old(self).wf(),
        ensures
            final(self).wf(),
            final(self)@ == popped_frame(old(self)@),
    {
        if self.frames.len() > 0 {
            self.frames.pop();
            assert(self@ =~= old(self)@.drop_last());
        }
    }

    /// Opens a scope in the innermost frame.
    pub fn push_scope(&mut self)
        requires
            old(self).wf(),
        ensures
            final(self).wf(),
            final(self)@ == pushed_scope(old(self)@),
    {
        if self.frames.len() > 0 {
            let mut frame = self.frames.pop().unwrap();
            frame.scope_manager.push_scope();
            self.frames.push(frame);
            assert(self@ =~= old(self)@.update(old(self)@.len() - 1, old(self)@.last().push(Map::empty())));
        }
    }

    /// Closes the innermost scope of the innermost frame.
    pub fn pop_scope(&mut self)
        requires
            old(self).wf(),
        ensures
            final(self).wf(),
            final(self)@ == popped_scope(old(self)@),
    {
        if self.frames.len() > 0 {
            let mut frame = self.frames.pop().unwrap();
            frame.scope_manager.pop_scope();
            self.frames.push(frame);
            proof {
                if old(self)@.last().len() == 0 {
                    assert(self@ =~= old(self)@);
                } else {
                    assert(self@ =~= old(self)@.update(old(self)@.len() - 1, old(self)@.last().drop_last()));
                }
            }
        }
    }

    /// The cell bound to `name` in the innermost frame.
    pub fn get_variable(&self, name: &str, span: Span) -> (r: Result<usize, ScopeManagerError>)
        requires
            self.wf(),
            self@.len() > 0,
        ensures
            match r {
                Ok(c) => scopes_binding(top_scopes(self@), name@) == Some(c),
                Err(e) => scopes_binding(top_scopes(self@), name@) is None
                    && e.message@ == not_declared_in_scope_message(name@) && e.span == span,
            },
    {
        let last = self.frames.len() - 1;
        assert(self.frames@[last as int].scope_manager.wf());
        self.frames[last].scope_manager.get_variable(name, span)
    }

    /// Stores `value` into the cell bound to `name` in the innermost frame (nothing happens
    /// when there is no frame).
    pub fn assign_variable(&self, name: &str, value: Value, heap: &mut Heap, span: Span) -> (r: Result<(), ScopeManagerError>)
        requires
            self.wf(),
            old(heap).wf(),
            frames_cells_below(self@, old(heap)@.cells.len()),
            refs_within(value@, old(heap)@.vectors.len()),
        ensures
            final(heap).wf(),
            self@.len() == 0 ==> r is Ok && final(heap)@ == old(heap)@,
            self@.len() > 0 ==> match r {
                Ok(()) => scopes_binding(top_scopes(self@), name@) matches Some(c)
                    && c < old(heap)@.cells.len()
                    && type_accepts(view_type(old(heap)@.cells[c as int]), value@)
                    && final(heap)@ == old(heap)@.set_cell(c as int, value@),
                Err(e) => final(heap)@ == old(heap)@ && e.span == span && match scopes_binding(top_scopes(self@), name@) {
                    None => e.message@ == not_declared_in_scope_message(name@),
                    Some(c) => !type_accepts(view_type(old(heap)@.cells[c as int]), value@)
                        && e.message@ == bad_assign_message(view_type(value@), name@, view_type(old(heap)@.cells[c as int])),
                },
            },
    {
        if self.frames.len() == 0 {
            return Ok(());
        }
        let last = self.frames.len() - 1;
        assert(self.frames@[last as int].scope_manager.wf());
        assert(cells_below(self@[last as int], old(heap)@.cells.len()));
        self.frames[last].scope_manager.assign_variable(name, value, heap, span)
    }

    /// Binds `name` to `cell` in the innermost scope of the innermost frame (nothing
    /// happens when there is no frame).
    pub fn declare_variable(&mut self, name: &str, cell: usize, span: Span) -> (r: Result<(), ScopeManagerError>)
        requires
            old(self).wf(),
        ensures
            final(self).wf(),
            old(self)@.len() == 0 ==> r is Ok && final(self)@ == old(self)@,
            old(self)@.len() > 0 ==> match r {
                Ok(()) => scopes_binding(top_scopes(old(self)@), name@) is None && old(self)@.last().len() > 0
                    && final(self)@ == declared(old(self)@, name@, cell),
                Err(e) => final(self)@ == old(self)@ && e.span == span && if scopes_binding(top_scopes(old(self)@), name@) is Some {
                    e.message@ == crate::stack::scope::redeclare_message(name@)
                } else {
                    old(self)@.last().len() == 0 && e.message@ == no_scope_message()
                },
            },
    {
        if self.frames.len() == 0 {
            return Ok(());
        }
        let mut frame = self.frames.pop().unwrap();
        assert(frame.scope_manager.wf());
        let r = frame.scope_manager.declare_variable(name, cell, span);
        self.frames.push(frame);
        match r {
            Ok(()) => {
                assert(self@ =~= old(self)@.update(
                    old(self)@.len() - 1,
                    old(self)@.last().update(old(self)@.last().len() - 1, old(self)@.last().last().insert(name@, cell)),
                ));
                Ok(())
            },
            Err(e) => {
                assert(self@ =~= old(self)@);
                Err(e)
            },
        }
    }
}

} // verus!
