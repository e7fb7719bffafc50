use vstd::prelude::*;
use crate::stack::scope_manager::ScopeManager;

verus! {

/// One function activation: its scopes.
pub struct StackFrame {
    pub scope_manager: ScopeManager,
}

impl StackFrame {
    /// A frame with one empty scope.
    pub fn new() -> (f: StackFrame)
        ensures
            f.scope_manager@ == seq![Map::<Seq<char>, usize>::empty()],
            f.scope_manager.wf(),
    {
        StackFrame { scope_manager: ScopeManager::new() }
    }

    /// A copy of the frame.
    pub fn duplicate(&self) -> (f: StackFrame)
        ensures
            f.scope_manager@ == self.scope_manager@,
            self.scope_manager.wf() ==> f.scope_manager.wf(),
    {
        StackFrame { scope_manager: self.scope_manager.duplicate() }
    }
}

} // verus!
