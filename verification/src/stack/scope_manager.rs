use vstd::prelude::*;
use crate::errors::{ErrorSeverity, ScopeManagerError};
use crate::heap::Heap;
use crate::span::Span;
use crate::stack::scope::{bad_assign_message, type_accepts, Scope};
use crate::text::{append_str, string_of};
use crate::value::{refs_within, view_type, Value};

verus! {

/// The cell bound to `name` in the first of the scopes that binds it.
pub open spec fn scopes_binding(s: Seq<Map<Seq<char>, usize>>, name: Seq<char>) -> Option<usize>
    decreases s.len(),
{
    if s.len() == 0 {
        None
    } else if s[0].dom().contains(name) {
        Some(s[0][name])
    } else {
        scopes_binding(s.drop_first(), name)
    }
}

/// No name is bound in two scopes.
pub open spec fn no_shadowing(s: Seq<Map<Seq<char>, usize>>) -> bool {
    forall|i: int, j: int, name: Seq<char>|
        0 <= i < j < s.len() && #[trigger] s[i].dom().contains(name) ==> !#[trigger] s[j].dom().contains(name)
}

/// Every bound cell is below `n`.
pub open spec fn cells_below(s: Seq<Map<Seq<char>, usize>>, n: nat) -> bool {
    forall|i: int, name: Seq<char>| 0 <= i < s.len() && #[trigger] s[i].dom().contains(name) ==> s[i][name] < n
}

pub open spec fn not_declared_in_scope_message(name: Seq<char>) -> Seq<char> {
    "Variable '"@ + name + "' not declared in this scope."@
}

pub open spec fn no_scope_message() -> Seq<char> {
    "No scope available to set the variable."@
}

pub proof fn lemma_scopes_binding_some(s: Seq<Map<Seq<char>, usize>>, name: Seq<char>, i: int)
    requires
        no_shadowing(s),
        0 <= i < s.len(),
        s[i].dom().contains(name),
    ensures
        scopes_binding(s, name) == Some(s[i][name]),
    decreases s.len(),
{
    if i > 0 {
        assert(!s[0].dom().contains(name));
        let d = s.drop_first();
        assert(no_shadowing(d)) by {
            assert forall|a: int, b: int, n: Seq<char>| 0 <= a < b < d.len() && #[trigger] d[a].dom().contains(n) implies !#[trigger] d[b].dom().contains(n) by {
                assert(d[a] == s[a + 1] && d[b] == s[b + 1]);
            }
        }
        lemma_scopes_binding_some(d, name, i - 1);
    }
}

pub proof fn lemma_scopes_binding_none(s: Seq<Map<Seq<char>, usize>>, name: Seq<char>)
    requires
        forall|i: int| 0 <= i < s.len() ==> !(#[trigger] s[i]).dom().contains(name),
    ensures
        scopes_binding(s, name) is None,
    decreases s.len(),
{
    if s.len() > 0 {
        let d = s.drop_first();
        assert forall|i: int| 0 <= i < d.len() implies !(#[trigger] d[i]).dom().contains(name) by {
            assert(d[i] == s[i + 1]);
        }
        lemma_scopes_binding_none(d, name);
    }
}

/// `scopes_binding` is `Some` exactly when some scope binds the name.
pub proof fn lemma_scopes_binding(s: Seq<Map<Seq<char>, usize>>, name: Seq<char>)
    requires
        no_shadowing(s),
    ensures
        scopes_binding(s, name) is Some <==> exists|i: int| 0 <= i < s.len() && s[i].dom().contains(name),
        forall|i: int| 0 <= i < s.len() && s[i].dom().contains(name) ==> scopes_binding(s, name) == Some(s[i][name]),
{
    if exists|i: int| 0 <= i < s.len() && s[i].dom().contains(name) {
        let i = choose|i: int| 0 <= i < s.len() && s[i].dom().contains(name);
        lemma_scopes_binding_some(s, name, i);
    } else {
        lemma_scopes_binding_none(s, name);
    }
    assert forall|i: int| 0 <= i < s.len() && s[i].dom().contains(name) implies scopes_binding(s, name) == Some(s[i][name]) by {
        lemma_scopes_binding_some(s, name, i);
    }
}

/// The scopes of one function activation, outermost first. A name is bound in at most
/// one of them.
pub struct ScopeManager {
    scopes: Vec<Scope>,
}

impl View for ScopeManager {
    type V = Seq<Map<Seq<char>, usize>>;

    closed spec fn view(&self) -> Seq<Map<Seq<char>, usize>> {
        self.scopes@.map_values(|s: Scope| s@)
    }
}

impl ScopeManager {
    pub closed spec fn wf(&self) -> bool {
        &&& forall|i: int| 0 <= i < self.scopes@.len() ==> (#[trigger] self.scopes@[i]).wf()
        &&& no_shadowing(self@)
    }

    pub proof fn lemma_wf(&self)
        requires
            self.wf(),
        ensures
            no_shadowing(self@),
    {
    }

    /// A copy of the manager.
    pub fn duplicate(&self) -> (r: ScopeManager)
        ensures
            r@ == self@,
            self.wf() ==> r.wf(),
    {
        let mut scopes: Vec<Scope> = Vec::new();
        let n = self.scopes.len();
        let mut i: usize = 0;
        while i < n
            invariant
                0 <= i <= n,
                n == self.scopes@.len(),
                scopes@.len() == i,
                forall|j: int| 0 <= j < i ==> (#[trigger] scopes@[j])@ == self.scopes@[j]@
                    && scopes@[j].wf() == self.scopes@[j].wf(),
            decreases n - i,
        {
            scopes.push(self.scopes[i].duplicate());
            i = i + 1;
        }
        let r = ScopeManager { scopes };
        assert(r@ =~= self@);
        r
    }

    /// A manager with one empty scope.
    pub fn new() -> (m: ScopeManager)
        ensures
            m@ == seq![Map::<Seq<char>, usize>::empty()],
            m.wf(),
    {
        let mut scopes = Vec::new();
        scopes.push(Scope::new());
        let m = ScopeManager { scopes };
        assert(m@ =~= seq![Map::<Seq<char>, usize>::empty()]);
        m
    }

    /// Opens a new innermost scope.
    pub fn push_scope(&mut self)
        requires
            old(self).wf(),
        ensures
            final(self)@ == old(self)@.push(Map::empty()),
            final(self).wf(),
    {
        self.scopes.push(Scope::new());
        assert(self@ =~= old(self)@.push(Map::empty()));
    }

    /// Closes the innermost scope, if there is one.
    pub fn pop_scope(&mut self)
        requires
            old(self).wf(),
        ensures
            final(self)@ == if old(self)@.len() == 0 { old(self)@ } else { old(self)@.drop_last() },
            final(self).wf(),
    {
        if self.scopes.len() > 0 {
            self.scopes.pop();
            assert(self@ =~= old(self)@.drop_last());
        }
    }

    /// The number of open scopes.
    pub fn len(&self) -> (n: u32)
        requires
            self@.len() <= u32::MAX,
        ensures
            n == self@.len(),
    {
        self.scopes.len() as u32
    }

    /// The number of open scopes.
    pub fn depth(&self) -> (n: usize)
        ensures
            n == self@.len(),
    {
        self.scopes.len()
    }

    /// The cell bound to `searched` in some open scope.
    pub fn get_variable(&self, searched: &str, span: Span) -> (r: Result<usize, ScopeManagerError>)
        requires
            self.wf(),
        ensures
            match r {
                Ok(c) => scopes_binding(self@, searched@) == Some(c),
                Err(e) => scopes_binding(self@, searched@) is None
                    && e.message@ == not_declared_in_scope_message(searched@) && e.span == span,
            },
    {
        let n = self.scopes.len();
        let mut i: usize = 0;
        assert(self@.skip(0) =~= self@);
        while i < n
            invariant
                0 <= i <= n,
                n == self.scopes@.len(),
                self.wf(),
                scopes_binding(self@, searched@) == scopes_binding(self@.skip(i as int), searched@),
            decreases n - i,
        {
            assert(self@.skip(i as int)[0] == self.scopes@[i as int]@);
            if let Some(c) = self.scopes[i].get_variable(searched) {
                return Ok(c);
            }
            assert(self@.skip(i as int).drop_first() =~= self@.skip(i + 1));
            i = i + 1;
        }
        let mut m = string_of("Variable '");
        append_str(&mut m, searched);
        append_str(&mut m, "' not declared in this scope.");
        Err(ScopeManagerError::new(ErrorSeverity::HIGH, m, span))
    }

    /// Stores `value` into the cell bound to `name`, when that cell's type accepts it.
    pub fn assign_variable(&self, name: &str, value: Value, heap: &mut Heap, span: Span) -> (r: Result<(), ScopeManagerError>)
        requires
            self.wf(),
            old(heap).wf(),
            cells_below(self@, old(heap)@.cells.len()),
            refs_within(value@, old(heap)@.vectors.len()),
        ensures
            final(heap).wf(),
            match r {
                Ok(()) => scopes_binding(self@, name@) matches Some(c)
                    && c < old(heap)@.cells.len()
                    && type_accepts(view_type(old(heap)@.cells[c as int]), value@)
                    && final(heap)@ == old(heap)@.set_cell(c as int, value@),
                Err(e) => final(heap)@ == old(heap)@ && e.span == span && match scopes_binding(self@, name@) {
                    None => e.message@ == not_declared_in_scope_message(name@),
                    Some(c) => !type_accepts(view_type(old(heap)@.cells[c as int]), value@)
                        && e.message@ == bad_assign_message(view_type(value@), name@, view_type(old(heap)@.cells[c as int])),
                },
            },
    {
        let n = self.scopes.len();
        let mut i: usize = 0;
        assert(self@.skip(0) =~= self@);
        while i < n
            invariant
                0 <= i <= n,
                n == self.scopes@.len(),
                self.wf(),
                heap@ == old(heap)@,
                heap.wf(),
                cells_below(self@, old(heap)@.cells.len()),
                refs_within(value@, old(heap)@.vectors.len()),
                scopes_binding(self@, name@) == scopes_binding(self@.skip(i as int), name@),
            decreases n - i,
        {
            assert(self@.skip(i as int)[0] == self.scopes@[i as int]@);
            if self.scopes[i].get_variable(name).is_some() {
                proof {
                    assert(cells_below(self@, old(heap)@.cells.len()));
                    assert forall|k: Seq<char>| self.scopes@[i as int]@.dom().contains(k) implies self.scopes@[i as int]@[k] < old(heap)@.cells.len() by {
                        assert(self@[i as int].dom().contains(k));
                    }
                }
                return self.scopes[i].assign_variable(name, value, heap, span);
            }
            assert(self@.skip(i as int).drop_first() =~= self@.skip(i + 1));
            i = i + 1;
        }
        let mut m = string_of("Variable '");
        append_str(&mut m, name);
        append_str(&mut m, "' not declared in this scope.");
        Err(ScopeManagerError::new(ErrorSeverity::HIGH, m, span))
    }

    /// Binds `name` to `cell` in the innermost scope; refused when `name` is bound in any
    /// open scope, or when no scope is open.
    pub fn declare_variable(&mut self, name: &str, cell: usize, span: Span) -> (r: Result<(), ScopeManagerError>)
        requires
            old(self).wf(),
        ensures
            final(self).wf(),
            match r {
                Ok(()) => scopes_binding(old(self)@, name@) is None && old(self)@.len() > 0
                    && final(self)@ == old(self)@.update(old(self)@.len() - 1, old(self)@.last().insert(name@, cell)),
                Err(e) => final(self)@ == old(self)@ && e.span == span && if scopes_binding(old(self)@, name@) is Some {
                    e.message@ == crate::stack::scope::redeclare_message(name@)
                } else {
                    old(self)@.len() == 0 && e.message@ == no_scope_message()
                },
            },
    {
        if self.get_variable(name, span).is_ok() {
            let mut m = string_of("Cannot redeclare variable '");
            append_str(&mut m, name);
            append_str(&mut m, "'.");
            return Err(ScopeManagerError::new(ErrorSeverity::HIGH, m, span));
        }
        if self.scopes.len() == 0 {
            return Err(ScopeManagerError::new(ErrorSeverity::HIGH, string_of("No scope available to set the variable."), span));
        }
        let ghost before = self@;
        proof { lemma_scopes_binding(before, name@); }
        let mut last = self.scopes.pop().unwrap();
        assert(last@ == before.last());
        let _ = last.declare_variable(name, cell, span);
        self.scopes.push(last);
        assert(self@ =~= before.update(before.len() - 1, before.last().insert(name@, cell)));
        proof {
            assert forall|i: int, j: int, k: Seq<char>| 0 <= i < j < self@.len() && #[trigger] self@[i].dom().contains(k) implies !#[trigger] self@[j].dom().contains(k) by {
                if j == self@.len() - 1 && k == name@ {
                    assert(before[i].dom().contains(k));
                }
            }
            assert forall|i: int| 0 <= i < self.scopes@.len() implies (#[trigger] self.scopes@[i]).wf() by {
                if i < self.scopes@.len() - 1 {
                    assert(self.scopes@[i] == old(self).scopes@[i]);
                }
            }
        }
        Ok(())
    }
}

} // verus!
