use vstd::prelude::*;
use crate::alu::FloatUnit;
use crate::ast::{Block, Expression, Node, Statement, SwitchCase, SwitchExpression, VariableDeclarationKind};
use crate::errors::{ErrorSeverity, InterpreterError};
use crate::interpreter::{same_but_innermost, AbortState, Host, Interpreter, StackView};
use crate::interpreter::expressions::{evaluable, lemma_value_of_same_bindings, pure_expr, same_bindings, value_of};
use crate::interpreter::declarations::{declaration_mistyped, declaration_succeeds, declared_type_matches, declared_value};
use crate::stack::scope::redeclare_message;
use crate::value::default_for;
use crate::span::Span;
use crate::stack::scope_manager::{cells_below, lemma_scopes_binding, scopes_binding};
use crate::stack::stack::{frames_cells_below, top_scopes};
use crate::text::{append_str, string_of};
use crate::types::Type;
use crate::value::{view_type, Value, ValueView};
use crate::stack::scope::type_accepts;
use crate::heap::HeapView;
use crate::interpreter::semantics::{block_run, bound_value, case_run, cases_run, close_opt, close_scope, condition_value, for_run, open_scope, seq_run, state_of, stmt_run, while_run, with_abort, with_result, RunState};

verus! {

pub proof fn lemma_same_but_innermost_trans(a: StackView, b: StackView, c: StackView)
    requires
        same_but_innermost(a, b),
        same_but_innermost(b, c),
    ensures
        same_but_innermost(a, c),
{
}

pub proof fn lemma_same_but_innermost_refl(a: StackView)
    requires
        a.len() > 0,
    ensures
        same_but_innermost(a, a),
{
}

/// Closing a scope that was opened on `old` gives `old` back, whatever was declared in it.
pub proof fn lemma_pop_after_push(old: StackView, cur: StackView)
    requires
        old.len() > 0,
        same_but_innermost(old.update(old.len() - 1, old.last().push(Map::empty())), cur),
    ensures
        cur.last().len() > 0,
        cur.update(cur.len() - 1, cur.last().drop_last()) == old,
{
    let s1 = old.update(old.len() - 1, old.last().push(Map::empty()));
    assert(s1.last() == old.last().push(Map::empty()));
    assert(s1.drop_last() =~= old.drop_last());
    assert(cur.last().drop_last() == s1.last().drop_last());
    assert(s1.last().drop_last() =~= old.last());
    let res = cur.update(cur.len() - 1, cur.last().drop_last());
    assert(res.len() == old.len());
    assert forall|f: int| 0 <= f < res.len() implies res[f] == old[f] by {
        if f < res.len() - 1 {
            assert(res[f] == cur.drop_last()[f]);
            assert(old[f] == old.drop_last()[f]);
        }
    }
    assert(res =~= old);
}

/// An empty scope added after the others changes no binding.
pub proof fn lemma_binding_push_empty(s: Seq<Map<Seq<char>, usize>>, n: Seq<char>)
    ensures
        scopes_binding(s.push(Map::empty()), n) == scopes_binding(s, n),
    decreases s.len(),
{
    let p = s.push(Map::<Seq<char>, usize>::empty());
    reveal_with_fuel(scopes_binding, 2);
    if s.len() > 0 {
        assert(p[0] == s[0]);
        assert(p.drop_first() =~= s.drop_first().push(Map::empty()));
        lemma_binding_push_empty(s.drop_first(), n);
    } else {
        assert(p[0] == Map::<Seq<char>, usize>::empty());
        assert(!p[0].dom().contains(n));
        assert(p.drop_first() =~= Seq::<Map<Seq<char>, usize>>::empty());
    }
}

/// Opening a scope changes no binding.
pub proof fn lemma_pushed_scope_same_bindings(s: StackView)
    requires
        s.len() > 0,
    ensures
        same_bindings(s, s.update(s.len() - 1, s.last().push(Map::empty()))),
{
    let p = s.update(s.len() - 1, s.last().push(Map::empty()));
    assert(top_scopes(p) == s.last().push(Map::empty()));
    assert forall|n: Seq<char>| #[trigger] scopes_binding(top_scopes(s), n) == scopes_binding(top_scopes(p), n) by {
        lemma_binding_push_empty(s.last(), n);
    }
}

/// Binding a name that is not bound yet in the innermost scope of a stack keeps every
/// other binding.
pub proof fn lemma_declare_same_but_innermost(old: StackView, name: Seq<char>, cell: usize)
    requires
        old.len() > 0,
        old.last().len() > 0,
        scopes_binding(top_scopes(old), name) is None,
        crate::stack::scope_manager::no_shadowing(old.last()),
    ensures
        same_but_innermost(
            old,
            old.update(old.len() - 1, old.last().update(old.last().len() - 1, old.last().last().insert(name, cell))),
        ),
{
    lemma_scopes_binding(old.last(), name);
    let new = old.update(old.len() - 1, old.last().update(old.last().len() - 1, old.last().last().insert(name, cell)));
    assert(new.drop_last() =~= old.drop_last());
    assert(new.last().drop_last() =~= old.last().drop_last());
    assert(!old.last().last().dom().contains(name));
}

/// Declaring keeps every bound cell below `n` when the new cell is.
pub proof fn lemma_declare_cells_below(old: StackView, name: Seq<char>, cell: usize, n: nat)
    requires
        old.len() > 0,
        old.last().len() > 0,
        frames_cells_below(old, n),
        cell < n,
    ensures
        frames_cells_below(
            old.update(old.len() - 1, old.last().update(old.last().len() - 1, old.last().last().insert(name, cell))),
            n,
        ),
{
    let new = old.update(old.len() - 1, old.last().update(old.last().len() - 1, old.last().last().insert(name, cell)));
    assert forall|f: int| 0 <= f < new.len() implies cells_below(#[trigger] new[f], n) by {
        if f < new.len() - 1 {
            assert(new[f] == old[f]);
            assert(cells_below(old[f], n));
        } else {
            assert(cells_below(old[f], n));
            assert forall|i: int, k: Seq<char>| 0 <= i < new[f].len() && #[trigger] new[f][i].dom().contains(k) implies new[f][i][k] < n by {
                if i < new[f].len() - 1 {
                    assert(new[f][i] == old[f][i]);
                } else if k != name {
                    assert(old[f][i].dom().contains(k));
                }
            }
        }
    }
}

/// Statements that surely complete within `fuel` steps from variables `s` over the store
/// `h`: `break`, `continue`, `return` of nothing or of an evaluable expression, and the
/// assignment of an evaluable expression to a declared variable whose type accepts its
/// value, and the declaration of a new name with an evaluable value it accepts.
pub open spec fn stmt_succeeds(st: Statement, s: StackView, h: HeapView, fuel: int) -> bool {
    fuel > 0 && match st {
        Statement::Break => true,
        Statement::Continue => true,
        Statement::Return(None) => true,
        Statement::Return(Some(e)) => evaluable(e.value, s, h, fuel - 1),
        Statement::Declaration { identifier, kind } => {
            &&& fuel > 1
            &&& declaration_succeeds(kind, s, h, fuel - 1)
            &&& scopes_binding(top_scopes(s), identifier.value@) is None
            &&& s.last().len() > 0
        },
        Statement::Assignment { identifier, value, accessors } => {
            &&& accessors@.len() == 0
            &&& evaluable(value.value, s, h, fuel - 1)
            &&& scopes_binding(top_scopes(s), identifier.value@) matches Some(c)
            &&& type_accepts(view_type(h.cells[c as int]), value_of(value.value, s, h).unwrap())
        },
        _ => false,
    }
}

/// Whether running `st` may leave a `break` pending: a `break`, and (conservatively) a
/// conditional, a `for` loop or a switch.
pub open spec fn may_break(st: Statement) -> bool {
    st is Break || st is Conditional || st is ForLoop || st is Switch
}

/// Some statement of the block may leave a `break` pending.
pub open spec fn block_may_break(b: Node<Block>) -> bool {
    exists|i: int| 0 <= i < b.value.0@.len() && #[trigger] may_break(b.value.0@[i].value)
}

/// A `for` loop's step is absent or an assignment.
pub open spec fn step_is_assignment(step: Option<Box<Node<Statement>>>) -> bool {
    match step {
        Some(a) => a.value is Assignment,
        None => true,
    }
}

/// No switch expression has an alias.
pub open spec fn no_aliases(es: Seq<Node<SwitchExpression>>) -> bool {
    forall|j: int| 0 <= j < es.len() ==> (#[trigger] es[j]).value.alias is None
}

/// The conditions of the first `k` cases are evaluable within `fuel` steps and false.
pub open spec fn cases_false_before(cases: Seq<Node<SwitchCase>>, k: int, s: StackView, h: HeapView, fuel: int) -> bool {
    forall|j: int| 0 <= j < k ==> evaluable((#[trigger] cases[j]).value.condition.value, s, h, fuel)
        && value_of(cases[j].value.condition.value, s, h) == Some(ValueView::Bool(false))
}

/// Case `k` is the first whose condition holds, and its block starts with `break`.
pub open spec fn first_true_case_breaks(cases: Seq<Node<SwitchCase>>, k: int, s: StackView, h: HeapView, fuel: int) -> bool {
    &&& 0 <= k < cases.len()
    &&& cases_false_before(cases, k, s, h, fuel)
    &&& evaluable(cases[k].value.condition.value, s, h, fuel)
    &&& value_of(cases[k].value.condition.value, s, h) == Some(ValueView::Bool(true))
    &&& cases[k].value.block.value.0@.len() > 0
    &&& cases[k].value.block.value.0@[0].value is Break
}

/// Case `k`'s condition is the first that is not false: it is evaluable, and its value is
/// not a boolean.
pub open spec fn first_non_boolean_case(cases: Seq<Node<SwitchCase>>, k: int, s: StackView, h: HeapView, fuel: int) -> bool {
    &&& 0 <= k < cases.len()
    &&& cases_false_before(cases, k, s, h, fuel)
    &&& evaluable(cases[k].value.condition.value, s, h, fuel)
    &&& !(value_of(cases[k].value.condition.value, s, h).unwrap() is Bool)
}

/// A `for` loop's initial statement is a declaration whose value is determined.
pub open spec fn init_declares(init: Option<Box<Node<Statement>>>, s: StackView, h: HeapView) -> bool {
    match init {
        Some(d) => d.value matches Statement::Declaration { kind, .. } && declared_value(kind, s, h) is Some,
        None => false,
    }
}

/// The variables a `for` loop's body and condition see: its own scope, holding the name its
/// initial declaration binds, in the next cell of `h`.
pub open spec fn loop_stack(init: Option<Box<Node<Statement>>>, s: StackView, h: HeapView) -> StackView {
    crate::stack::stack::declared(
        s.update(s.len() - 1, s.last().push(Map::empty())),
        init.unwrap().value->Declaration_identifier.value@,
        h.cells.len() as usize,
    )
}

/// The value of a declaration's initial expression depends on the stack only through its
/// bindings.
pub proof fn lemma_declared_value_same_bindings(kind: VariableDeclarationKind, s0: StackView, s1: StackView, h: HeapView)
    requires
        same_bindings(s0, s1),
    ensures
        declared_value(kind, s0, h) == declared_value(kind, s1, h),
{
    match kind {
        VariableDeclarationKind::TYPE { value: Some(e), .. } => lemma_value_of_same_bindings(e.value, s0, s1, h),
        VariableDeclarationKind::LET { value, .. } => lemma_value_of_same_bindings(value.value, s0, s1, h),
        _ => {},
    }
}

/// Whether running `st` may leave a `break` pending, looking one level into conditionals:
/// a `break`, a `for` loop or a switch (conservatively), or a conditional one of whose
/// branches holds a statement that may break.
pub open spec fn may_break_deep(st: Statement) -> bool {
    ||| st is Break
    ||| st is ForLoop
    ||| st is Switch
    ||| (st matches Statement::Conditional { if_block, else_block, .. } && (block_may_break(if_block)
        || (else_block matches Some(eb) && block_may_break(eb))))
}

/// Some statement of the block may leave a `break` pending, looking one level into
/// conditionals.
pub open spec fn block_may_break_deep(b: Node<Block>) -> bool {
    exists|i: int| 0 <= i < b.value.0@.len() && #[trigger] may_break_deep(b.value.0@[i].value)
}

/// A block with a statement that may break, looking one level into conditionals, may break.
pub proof fn lemma_block_may_break_deep(b: Node<Block>, k: int)
    requires
        0 <= k < b.value.0@.len(),
        may_break_deep(b.value.0@[k].value),
    ensures
        block_may_break_deep(b),
{
}

/// A block with a statement that may break may break.
pub proof fn lemma_block_may_break(b: Node<Block>, k: int)
    requires
        0 <= k < b.value.0@.len(),
        may_break(b.value.0@[k].value),
    ensures
        block_may_break(b),
{
}

/// The block a conditional runs for the condition value `b`.
pub open spec fn taken_block(b: bool, if_block: Node<Block>, else_block: Option<Node<Block>>) -> Option<Node<Block>> {
    if b { Some(if_block) } else { else_block }
}

/// What running `blk` from variables `s` over store `h` gives, as far as it is fixed: an
/// empty block changes nothing, a block that starts with `break` or `continue` leaves that
/// pending, and a block of one statement that surely completes completes (an assignment
/// storing its value).
pub open spec fn block_outcome<'a, R>(
    blk: Node<Block>,
    s: StackView,
    h: HeapView,
    fuel: int,
    r: Result<(), InterpreterError>,
    fin: Interpreter<'a, R>,
) -> bool {
    &&& blk.value.0@.len() == 0 ==> r is Ok && fin.heap@ == h && fin.abort_state is None
    &&& blk.value.0@.len() > 0 && blk.value.0@[0].value is Break ==> r is Ok && fin.abort_state == Some(AbortState::Break)
    &&& blk.value.0@.len() > 0 && blk.value.0@[0].value is Continue ==> r is Ok && fin.abort_state == Some(AbortState::Continue)
    &&& blk.value.0@.len() == 1 && stmt_succeeds(blk.value.0@[0].value, s, h, fuel) ==> r is Ok
        && (blk.value.0@[0].value matches Statement::Assignment { identifier, value, .. } ==> (
            scopes_binding(top_scopes(fin.stack@), identifier.value@) matches Some(c)
            && Some(fin.heap@.cells[c as int]) == value_of(value.value, s, h)))
}

/// Whether a statement surely completes depends on the stack only through its bindings
/// (and on there being an innermost scope).
pub proof fn lemma_stmt_succeeds_same_bindings(st: Statement, s0: StackView, s1: StackView, h: HeapView, fuel: int)
    requires
        stmt_succeeds(st, s0, h, fuel),
        same_bindings(s0, s1),
        s1.last().len() > 0,
    ensures
        stmt_succeeds(st, s1, h, fuel),
        st matches Statement::Assignment { value, .. } ==> value_of(value.value, s0, h) == value_of(value.value, s1, h),
        st matches Statement::Return(Some(e)) ==> value_of(e.value, s0, h) == value_of(e.value, s1, h),
{
    match st {
        Statement::Return(Some(e)) => lemma_value_of_same_bindings(e.value, s0, s1, h),
        Statement::Assignment { identifier, value, .. } => {
            lemma_value_of_same_bindings(value.value, s0, s1, h);
            assert(scopes_binding(top_scopes(s0), identifier.value@) == scopes_binding(top_scopes(s1), identifier.value@));
        },
        Statement::Declaration { identifier, kind } => {
            assert(scopes_binding(top_scopes(s0), identifier.value@) == scopes_binding(top_scopes(s1), identifier.value@));
            match kind {
                VariableDeclarationKind::TYPE { value: Some(e), .. } => lemma_value_of_same_bindings(e.value, s0, s1, h),
                VariableDeclarationKind::LET { value, .. } => lemma_value_of_same_bindings(value.value, s0, s1, h),
                _ => {},
            }
        },
        _ => {},
    }
}

impl<'a, R: FloatUnit + Host> Interpreter<'a, R> {
    /// The error for a condition that is not a boolean.
    pub fn condition_error(&self, value: &Value, place: &str) -> (e: InterpreterError)
        ensures
            e.message@ == "Condition in '"@ + place@ + "' has to evaluate to a valid boolean."@,
            e.span == self.span,
    {
        let mut m = string_of("Condition in '");
        append_str(&mut m, place);
        append_str(&mut m, "' has to evaluate to a valid boolean.");
        InterpreterError::expected_found(ErrorSeverity::HIGH, m, Type::Bool.label(), value.to_type().label(), self.span)
    }

    /// Evaluates a condition to a boolean.
    fn eval_condition(&mut self, condition: &Node<Expression>, place: &str, span: Span, fuel: u64) -> (r: Result<bool, InterpreterError>)
        requires
            old(self).inv(),
        ensures
            r is Ok && old(self).abort_state is None ==> final(self).abort_state is None,
            final(self).kept(*old(self)),
            r is Ok ==> final(self).stack@ == old(self).stack@,
            r is Ok ==> final(self).last_result is None,
            pure_expr(condition.value) ==> final(self).heap@ == old(self).heap@,
            old(self).abort_state is None && (condition_value(condition.value, state_of(*old(self)), fuel - 1) matches Some(b))
                ==> (r matches Ok(x) && x == condition_value(condition.value, state_of(*old(self)), fuel - 1).unwrap())
                    && state_of(*final(self)) == with_result(state_of(*old(self)), None),
            r matches Ok(b) ==> (pure_expr(condition.value)
                && value_of(condition.value, old(self).stack@, old(self).heap@) is Some
                ==> value_of(condition.value, old(self).stack@, old(self).heap@) == Some(ValueView::Bool(b))),
            evaluable(condition.value, old(self).stack@, old(self).heap@, fuel - 1) ==> match value_of(condition.value, old(self).stack@, old(self).heap@) {
                Some(ValueView::Bool(b)) => r matches Ok(x) && x == b,
                _ => r matches Err(e) && e.message@ == "Condition in '"@ + place@ + "' has to evaluate to a valid boolean."@,
            },
        decreases fuel, 0nat,
    {
        if fuel == 0 {
            return Err(Self::step_limit(span));
        }
        self.eval_expression(condition, fuel - 1)?;
        let computed = self.read_last_result()?;
        match computed.try_into_bool(span) {
            Ok(b) => Ok(b),
            Err(_) => Err(self.condition_error(&computed, place)),
        }
    }

    /// Runs the statements of a block in a new scope, stopping when one of them breaks,
    /// continues or returns.
    pub fn exec_block(&mut self, block: &Node<Block>, fuel: u64) -> (r: Result<(), InterpreterError>)
        requires
            old(self).inv(),
        ensures
            final(self).kept(*old(self)),
            r is Ok ==> final(self).stack@ == old(self).stack@,
            fuel > 0 && (block.value.0@.len() == 0 || old(self).abort_state is Some) ==> r is Ok
                && final(self).heap@ == old(self).heap@ && final(self).abort_state == old(self).abort_state,
            fuel > 1 && old(self).abort_state is None && block.value.0@.len() > 0 && block.value.0@[0].value is Break
                ==> r is Ok && final(self).heap@ == old(self).heap@ && final(self).abort_state == Some(AbortState::Break),
            fuel > 1 && old(self).abort_state is None && block.value.0@.len() > 0 && block.value.0@[0].value is Continue
                ==> r is Ok && final(self).heap@ == old(self).heap@ && final(self).abort_state == Some(AbortState::Continue),
            r is Ok && old(self).abort_state is None && final(self).abort_state == Some(AbortState::Break)
                ==> block_may_break(*block) && block_may_break_deep(*block),
            fuel > 1 && old(self).abort_state is None && block.value.0@.len() == 1
                && stmt_succeeds(block.value.0@[0].value, old(self).stack@, old(self).heap@, fuel - 1) ==> r is Ok
                && (block.value.0@[0].value matches Statement::Assignment { identifier, value, .. } ==> (
                    scopes_binding(top_scopes(final(self).stack@), identifier.value@) matches Some(c)
                    && Some(final(self).heap@.cells[c as int]) == value_of(value.value, old(self).stack@, old(self).heap@))),
            old(self).abort_state is None && (block_run(*block, state_of(*old(self)), fuel as int) matches Some(y))
                ==> r is Ok && state_of(*final(self)) == block_run(*block, state_of(*old(self)), fuel as int).unwrap(),
        decreases fuel, 0nat,
    {
        if fuel == 0 {
            return Err(Self::step_limit(block.span));
        }
        let ghost tgt = if old(self).abort_state is None { block_run(*block, state_of(*old(self)), fuel as int) } else { None };
        let ghost single = fuel > 1 && old(self).abort_state is None && block.value.0@.len() == 1
            && stmt_succeeds(block.value.0@[0].value, old(self).stack@, old(self).heap@, fuel - 1);
        let ghost s0 = self.stack@;
        self.stack.push_scope();
        let ghost s1 = self.stack@;
        proof { lemma_same_but_innermost_refl(s1); }
        let statements = &block.value.0;
        let n = statements.len();
        let mut i: usize = 0;
        while i < n && self.abort_state.is_none()
            invariant
                0 <= i <= n,
                n == statements@.len(),
                self.kept(*old(self)),
                s0 == old(self).stack@,
                s0.len() > 0,
                s1 == s0.update(s0.len() - 1, s0.last().push(Map::empty())),
                same_but_innermost(s1, self.stack@),
                fuel > 0,
                i == 0 ==> self.heap@ == old(self).heap@ && self.abort_state == old(self).abort_state,
                old(self).abort_state is Some ==> i == 0,
                statements@ == block.value.0@,
                i > 0 && n > 0 && fuel > 1 && old(self).abort_state is None && (statements@[0].value is Break || statements@[0].value is Continue)
                    ==> self.heap@ == old(self).heap@
                    && (statements@[0].value is Break ==> self.abort_state == Some(AbortState::Break))
                    && (statements@[0].value is Continue ==> self.abort_state == Some(AbortState::Continue)),
                i == 0 ==> self.stack@ == s1,
                tgt == (if old(self).abort_state is None { block_run(*block, state_of(*old(self)), fuel as int) } else { None }),
                tgt is Some ==> tgt == close_opt(seq_run(block.value.0@, i as int, state_of(*self), fuel - 1)),

                old(self).abort_state is None && self.abort_state == Some(AbortState::Break) ==> block_may_break(*block)
                    && block_may_break_deep(*block),
                single == (fuel > 1 && old(self).abort_state is None && block.value.0@.len() == 1
                    && stmt_succeeds(block.value.0@[0].value, old(self).stack@, old(self).heap@, fuel - 1)),
                i > 0 && single ==> (statements@[0].value matches Statement::Assignment { identifier, value, .. } ==> (
                    scopes_binding(top_scopes(s0), identifier.value@) matches Some(c)
                    && Some(self.heap@.cells[c as int]) == value_of(value.value, s0, old(self).heap@))),
            decreases n - i,
        {
            let ghost before = self.stack@;
            let ghost before_abort = self.abort_state;
            proof {
                if i == 0 && single {
                    lemma_pushed_scope_same_bindings(s0);
                    lemma_stmt_succeeds_same_bindings(statements@[0].value, s0, s1, self.heap@, fuel - 1);
                }
            }
            self.exec_statement(&statements[i], fuel - 1)?;
            proof {
                lemma_same_but_innermost_trans(s1, before, self.stack@);
                if old(self).abort_state is None && self.abort_state == Some(AbortState::Break) {
                    assert(before_abort is None);
                    assert(may_break_deep(statements@[i as int].value));
                    assert(may_break(block.value.0@[i as int].value));
                    lemma_block_may_break(*block, i as int);
                    lemma_block_may_break_deep(*block, i as int);
                }
            }
            i = i + 1;
        }
        proof { lemma_pop_after_push(s0, self.stack@); }
        self.stack.pop_scope();
        Ok(())
    }

    /// Runs one statement.
    #[verifier::rlimit(100)]
    #[verifier::spinoff_prover]
    pub fn exec_statement(&mut self, statement: &Node<Statement>, fuel: u64) -> (r: Result<(), InterpreterError>)
        requires
            old(self).inv(),
        ensures
            (stmt_run(statement.value, state_of(*old(self)), fuel as int) matches Some(y))
                ==> r is Ok && state_of(*final(self)) == stmt_run(statement.value, state_of(*old(self)), fuel as int).unwrap(),
            final(self).kept(*old(self)),
            r is Ok ==> same_but_innermost(old(self).stack@, final(self).stack@),
            r is Ok && !(statement.value is Declaration) ==> final(self).stack@ == old(self).stack@,
            stmt_succeeds(statement.value, old(self).stack@, old(self).heap@, fuel as int) ==> r is Ok,
            fuel > 1 && (statement.value matches Statement::Declaration { identifier, kind }
                && declaration_succeeds(kind, old(self).stack@, old(self).heap@, fuel - 1)
                && scopes_binding(top_scopes(old(self).stack@), identifier.value@) is Some)
                ==> (r matches Err(e) && e.message@ == redeclare_message(statement.value->Declaration_identifier.value@))
                    && final(self).stack@ == old(self).stack@
                    && final(self).heap@ == old(self).heap@.with_cell(bound_value(statement.value->Declaration_kind, old(self).stack@, old(self).heap@)),
            fuel > 1 && (statement.value matches Statement::Declaration { kind, .. }
                && declaration_mistyped(kind, old(self).stack@, old(self).heap@, fuel - 1))
                ==> (r matches Err(e) && e.message@ == "Cannot assign value to variable '"@ + statement.value->Declaration_identifier.value@ + "'."@)
                    && final(self).stack@ == old(self).stack@ && final(self).heap@ == old(self).heap@,
            r is Err && (statement.value matches Statement::Declaration { kind, .. }
                && declared_value(kind, old(self).stack@, old(self).heap@) is Some) ==> final(self).stack@ == old(self).stack@,
            r is Ok ==> (statement.value matches Statement::Declaration { kind, .. } ==> (
                declared_value(kind, old(self).stack@, old(self).heap@) matches Some(d) ==> (!(d is Vector) ==> declared_type_matches(kind, d)))),
            r is Ok ==> (statement.value matches Statement::Declaration { identifier, kind } ==> (
                kind matches VariableDeclarationKind::TYPE { var_type, value: None } ==> (!(var_type.value is Vector)
                    ==> (scopes_binding(top_scopes(final(self).stack@), identifier.value@) matches Some(c)
                        && Some(final(self).heap@.cells[c as int]) == default_for(var_type.value, 0))))),
            r is Ok && old(self).abort_state is None && final(self).abort_state == Some(AbortState::Break)
                ==> may_break_deep(statement.value),
            r is Ok && old(self).abort_state is None && pure_expr(statement.value->WhileLoop_condition.value)
                && statement.value is WhileLoop && final(self).abort_state is None
                && !block_may_break_deep(statement.value->WhileLoop_block)
                && value_of(statement.value->WhileLoop_condition.value, final(self).stack@, final(self).heap@) is Some
                ==> value_of(statement.value->WhileLoop_condition.value, final(self).stack@, final(self).heap@)
                    == Some(ValueView::Bool(false)),
            fuel > 3 && old(self).abort_state is None && statement.value is Switch
                && no_aliases(statement.value->Switch_expressions@) ==> (
                (cases_false_before(statement.value->Switch_cases@, statement.value->Switch_cases@.len() as int,
                    old(self).stack@, old(self).heap@, fuel - 3)
                    ==> r is Ok && final(self).heap@ == old(self).heap@ && final(self).abort_state is None)
                && (forall|k: int| #[trigger] first_true_case_breaks(statement.value->Switch_cases@, k, old(self).stack@, old(self).heap@, fuel - 3)
                    ==> r is Ok && final(self).heap@ == old(self).heap@ && final(self).abort_state is None)),
            fuel > 3 && old(self).abort_state is None && statement.value is Switch
                && no_aliases(statement.value->Switch_expressions@) ==> (forall|k: int|
                    #[trigger] first_non_boolean_case(statement.value->Switch_cases@, k, old(self).stack@, old(self).heap@, fuel - 3)
                    ==> (r matches Err(e) && e.message@ == "Condition in '"@ + "switch case"@ + "' has to evaluate to a valid boolean."@)),
            fuel > 2 && (statement.value matches Statement::ForLoop { declaration: None, condition, .. }
                && evaluable(condition.value, old(self).stack@, old(self).heap@, fuel - 2)
                && !(value_of(condition.value, old(self).stack@, old(self).heap@).unwrap() is Bool))
                ==> (r matches Err(e) && e.message@ == "Condition in '"@ + "for statement"@ + "' has to evaluate to a valid boolean."@),
            fuel > 1 && (statement.value matches Statement::WhileLoop { condition, .. }
                && evaluable(condition.value, old(self).stack@, old(self).heap@, fuel - 2)
                && !(value_of(condition.value, old(self).stack@, old(self).heap@).unwrap() is Bool))
                ==> (r matches Err(e) && e.message@ == "Condition in '"@ + "while statement"@ + "' has to evaluate to a valid boolean."@)
                    && final(self).heap@ == old(self).heap@,
            r is Ok && (statement.value matches Statement::Declaration { identifier, kind }
                && declared_value(kind, old(self).stack@, old(self).heap@) is Some) ==> final(self).stack@
                == crate::stack::stack::declared(old(self).stack@, statement.value->Declaration_identifier.value@, old(self).heap@.cells.len() as usize),
            r is Ok && old(self).abort_state is None && statement.value is ForLoop
                && init_declares(statement.value->ForLoop_declaration, old(self).stack@, old(self).heap@)
                && step_is_assignment(statement.value->ForLoop_assignment)
                && pure_expr(statement.value->ForLoop_condition.value)
                && final(self).abort_state is None
                && !block_may_break_deep(statement.value->ForLoop_block)
                && value_of(statement.value->ForLoop_condition.value,
                    loop_stack(statement.value->ForLoop_declaration, old(self).stack@, old(self).heap@), final(self).heap@) is Some
                ==> value_of(statement.value->ForLoop_condition.value,
                    loop_stack(statement.value->ForLoop_declaration, old(self).stack@, old(self).heap@), final(self).heap@)
                    == Some(ValueView::Bool(false)),
            r is Ok && old(self).abort_state is None && statement.value is ForLoop
                && statement.value->ForLoop_declaration is None
                && step_is_assignment(statement.value->ForLoop_assignment)
                && pure_expr(statement.value->ForLoop_condition.value)
                && final(self).abort_state is None
                && !block_may_break_deep(statement.value->ForLoop_block)
                && value_of(statement.value->ForLoop_condition.value, final(self).stack@, final(self).heap@) is Some
                ==> value_of(statement.value->ForLoop_condition.value, final(self).stack@, final(self).heap@)
                    == Some(ValueView::Bool(false)),
            r is Ok && old(self).abort_state is None && (statement.value is Assignment || statement.value is Declaration)
                ==> final(self).abort_state is None,
            r is Ok && (statement.value matches Statement::Assignment { accessors, .. } && accessors@.len() == 0)
                ==> final(self).last_result is None,
            r is Ok ==> (statement.value matches Statement::Assignment { identifier, value, accessors } ==> (
                accessors@.len() == 0 && pure_expr(value.value) && value_of(value.value, old(self).stack@, old(self).heap@) is Some
                    ==> (scopes_binding(top_scopes(old(self).stack@), identifier.value@) matches Some(c)
                        && final(self).heap@ == old(self).heap@.set_cell(c as int,
                            value_of(value.value, old(self).stack@, old(self).heap@).unwrap())))),
            fuel > 0 && (statement.value is Break || statement.value is Continue) ==> final(self).heap@ == old(self).heap@
                && final(self).stack@ == old(self).stack@,
            fuel > 0 && statement.value is Break ==> r is Ok && final(self).abort_state == Some(AbortState::Break),
            fuel > 0 && statement.value is Continue ==> r is Ok && final(self).abort_state == Some(AbortState::Continue),
            r is Ok && statement.value is Return ==> final(self).abort_state == Some(AbortState::Return),
            r is Ok && statement.value is WhileLoop && old(self).abort_state is None ==> final(self).abort_state is None
                || final(self).abort_state == Some(AbortState::Return),
            fuel > 0 ==> (statement.value matches Statement::Return(None) ==> r is Ok && final(self).last_result is None),
            r is Ok ==> (statement.value matches Statement::Declaration { identifier, kind } ==> (
                declared_value(kind, old(self).stack@, old(self).heap@) matches Some(d) ==> (!(d is Vector)
                    ==> (scopes_binding(top_scopes(final(self).stack@), identifier.value@) matches Some(c)
                        && final(self).heap@.cells[c as int] == d)))),
            r is Ok ==> (statement.value matches Statement::Assignment { identifier, value, accessors } ==> (
                accessors@.len() == 0 && pure_expr(value.value) && value_of(value.value, old(self).stack@, old(self).heap@) is Some
                    ==> (scopes_binding(top_scopes(final(self).stack@), identifier.value@) matches Some(c)
                        && Some(final(self).heap@.cells[c as int]) == value_of(value.value, old(self).stack@, old(self).heap@)))),
            r is Ok ==> (statement.value matches Statement::Return(Some(e)) ==> (
                pure_expr(e.value) && value_of(e.value, old(self).stack@, old(self).heap@) is Some
                    ==> final(self).heap@ == old(self).heap@ && (final(self).last_result matches Some(w)
                        && Some(w@) == value_of(e.value, old(self).stack@, old(self).heap@)))),
            r is Ok ==> (statement.value matches Statement::Conditional { condition, else_block, .. } ==> (
                pure_expr(condition.value) && value_of(condition.value, old(self).stack@, old(self).heap@) is Some ==> (
                    value_of(condition.value, old(self).stack@, old(self).heap@) matches Some(ValueView::Bool(b))
                    && (!b && else_block is None ==> final(self).heap@ == old(self).heap@
                        && (old(self).abort_state is None ==> final(self).abort_state is None))))),
            fuel > 2 && old(self).abort_state is None ==> (statement.value matches Statement::Conditional { condition, if_block, else_block }
                ==> (evaluable(condition.value, old(self).stack@, old(self).heap@, fuel - 2)
                    && value_of(condition.value, old(self).stack@, old(self).heap@) is Some
                    ==> match value_of(condition.value, old(self).stack@, old(self).heap@) {
                        Some(ValueView::Bool(b)) => match taken_block(b, if_block, else_block) {
                            None => r is Ok && final(self).heap@ == old(self).heap@ && final(self).abort_state is None,
                            Some(blk) => block_outcome(blk, old(self).stack@, old(self).heap@, fuel - 2, r, *final(self)),
                        },
                        _ => r matches Err(e) && e.message@ == "Condition in '"@ + "if statement"@ + "' has to evaluate to a valid boolean."@,
                    })),
            r is Ok ==> (statement.value matches Statement::WhileLoop { condition, .. } ==> (
                pure_expr(condition.value) && value_of(condition.value, old(self).stack@, old(self).heap@) is Some ==> (
                    value_of(condition.value, old(self).stack@, old(self).heap@) matches Some(ValueView::Bool(b))
                    && (!b ==> final(self).heap@ == old(self).heap@
                        && (old(self).abort_state is None ==> final(self).abort_state is None))))),
        decreases fuel, 1nat,
    {
        if fuel == 0 {
            return Err(Self::step_limit(statement.span));
        }
        self.span = statement.span;
        proof { lemma_same_but_innermost_refl(self.stack@); }
        match &statement.value {
            Statement::FunctionCall { identifier, arguments } => {
                self.call_function(identifier, arguments, statement.span, fuel - 1)
            },
            Statement::Declaration { identifier, kind } => self.exec_declaration(identifier, kind, statement.span, fuel - 1),
            Statement::Assignment { identifier, value, accessors } => {
                if accessors.len() == 0 {
                    self.eval_expression(value, fuel - 1)?;
                    let v = match self.read_last_result() {
                        Ok(v) => v,
                        Err(_) => {
                            let mut m = string_of("Cannot assign no value to variable '");
                            append_str(&mut m, identifier.value.as_str());
                            append_str(&mut m, "'.");
                            return Err(InterpreterError::at(ErrorSeverity::HIGH, m, statement.span));
                        },
                    };
                    match self.stack.assign_variable(identifier.value.as_str(), v, &mut self.heap, statement.span) {
                        Ok(()) => Ok(()),
                        Err(e) => Err(InterpreterError::at(ErrorSeverity::HIGH, e.message, statement.span)),
                    }
                } else {
                    self.exec_index_assignment(identifier, accessors, value, fuel - 1)
                }
            },
            Statement::Conditional { condition, if_block, else_block } => {
                let b = self.eval_condition(condition, "if statement", statement.span, fuel - 1)?;
                if b {
                    self.exec_block(if_block, fuel - 1)
                } else {
                    match else_block {
                        Some(else_blk) => self.exec_block(else_blk, fuel - 1),
                        None => Ok(()),
                    }
                }
            },
            Statement::WhileLoop { .. } => self.exec_while(statement, fuel),
            Statement::ForLoop { .. } => self.exec_for(statement, fuel),
            Statement::Switch { .. } => self.exec_switch(statement, fuel),
            Statement::Return(value) => {
                let mut returned_value = None;
                match value {
                    Some(val) => {
                        self.eval_expression(val, fuel - 1)?;
                        returned_value = Some(self.read_last_result()?);
                    },
                    None => {},
                }
                self.abort_state = Some(AbortState::Return);
                self.last_result = returned_value;
                Ok(())
            },
            Statement::Break => {
                self.abort_state = Some(AbortState::Break);
                Ok(())
            },
            Statement::Continue => {
                self.abort_state = Some(AbortState::Continue);
                Ok(())
            },
        }
    }

    /// Runs a `while` loop (see `exec_statement`, which has checked that `fuel` is not spent).
    #[verifier::rlimit(100)]
    #[verifier::spinoff_prover]
    fn exec_while(&mut self, statement: &Node<Statement>, fuel: u64) -> (r: Result<(), InterpreterError>)
        requires
            old(self).inv(),
            statement.value is WhileLoop,
            fuel > 0,
        ensures
            (stmt_run(statement.value, state_of(*old(self)), fuel as int) matches Some(y))
                ==> r is Ok && state_of(*final(self)) == stmt_run(statement.value, state_of(*old(self)), fuel as int).unwrap(),
            final(self).kept(*old(self)),
            r is Ok ==> same_but_innermost(old(self).stack@, final(self).stack@),
            r is Ok && !(statement.value is Declaration) ==> final(self).stack@ == old(self).stack@,
            stmt_succeeds(statement.value, old(self).stack@, old(self).heap@, fuel as int) ==> r is Ok,
            fuel > 1 && (statement.value matches Statement::Declaration { identifier, kind }
                && declaration_succeeds(kind, old(self).stack@, old(self).heap@, fuel - 1)
                && scopes_binding(top_scopes(old(self).stack@), identifier.value@) is Some)
                ==> (r matches Err(e) && e.message@ == redeclare_message(statement.value->Declaration_identifier.value@)),
            r is Err && (statement.value matches Statement::Declaration { kind, .. }
                && declared_value(kind, old(self).stack@, old(self).heap@) is Some) ==> final(self).stack@ == old(self).stack@,
            r is Ok ==> (statement.value matches Statement::Declaration { kind, .. } ==> (
                declared_value(kind, old(self).stack@, old(self).heap@) matches Some(d) ==> (!(d is Vector) ==> declared_type_matches(kind, d)))),
            r is Ok ==> (statement.value matches Statement::Declaration { identifier, kind } ==> (
                kind matches VariableDeclarationKind::TYPE { var_type, value: None } ==> (!(var_type.value is Vector)
                    ==> (scopes_binding(top_scopes(final(self).stack@), identifier.value@) matches Some(c)
                        && Some(final(self).heap@.cells[c as int]) == default_for(var_type.value, 0))))),
            r is Ok && old(self).abort_state is None && final(self).abort_state == Some(AbortState::Break)
                ==> may_break_deep(statement.value),
            r is Ok && old(self).abort_state is None && pure_expr(statement.value->WhileLoop_condition.value)
                && statement.value is WhileLoop && final(self).abort_state is None
                && !block_may_break_deep(statement.value->WhileLoop_block)
                && value_of(statement.value->WhileLoop_condition.value, final(self).stack@, final(self).heap@) is Some
                ==> value_of(statement.value->WhileLoop_condition.value, final(self).stack@, final(self).heap@)
                    == Some(ValueView::Bool(false)),
            fuel > 3 && old(self).abort_state is None && statement.value is Switch
                && no_aliases(statement.value->Switch_expressions@) ==> (
                (cases_false_before(statement.value->Switch_cases@, statement.value->Switch_cases@.len() as int,
                    old(self).stack@, old(self).heap@, fuel - 3)
                    ==> r is Ok && final(self).heap@ == old(self).heap@ && final(self).abort_state is None)
                && (forall|k: int| #[trigger] first_true_case_breaks(statement.value->Switch_cases@, k, old(self).stack@, old(self).heap@, fuel - 3)
                    ==> r is Ok && final(self).heap@ == old(self).heap@ && final(self).abort_state is None)),
            fuel > 3 && old(self).abort_state is None && statement.value is Switch
                && no_aliases(statement.value->Switch_expressions@) ==> (forall|k: int|
                    #[trigger] first_non_boolean_case(statement.value->Switch_cases@, k, old(self).stack@, old(self).heap@, fuel - 3)
                    ==> (r matches Err(e) && e.message@ == "Condition in '"@ + "switch case"@ + "' has to evaluate to a valid boolean."@)),
            fuel > 2 && (statement.value matches Statement::ForLoop { declaration: None, condition, .. }
                && evaluable(condition.value, old(self).stack@, old(self).heap@, fuel - 2)
                && !(value_of(condition.value, old(self).stack@, old(self).heap@).unwrap() is Bool))
                ==> (r matches Err(e) && e.message@ == "Condition in '"@ + "for statement"@ + "' has to evaluate to a valid boolean."@),
            fuel > 1 && (statement.value matches Statement::WhileLoop { condition, .. }
                && evaluable(condition.value, old(self).stack@, old(self).heap@, fuel - 2)
                && !(value_of(condition.value, old(self).stack@, old(self).heap@).unwrap() is Bool))
                ==> (r matches Err(e) && e.message@ == "Condition in '"@ + "while statement"@ + "' has to evaluate to a valid boolean."@)
                    && final(self).heap@ == old(self).heap@,
            r is Ok && (statement.value matches Statement::Declaration { identifier, kind }
                && declared_value(kind, old(self).stack@, old(self).heap@) is Some) ==> final(self).stack@
                == crate::stack::stack::declared(old(self).stack@, statement.value->Declaration_identifier.value@, old(self).heap@.cells.len() as usize),
            r is Ok && old(self).abort_state is None && statement.value is ForLoop
                && init_declares(statement.value->ForLoop_declaration, old(self).stack@, old(self).heap@)
                && step_is_assignment(statement.value->ForLoop_assignment)
                && pure_expr(statement.value->ForLoop_condition.value)
                && final(self).abort_state is None
                && !block_may_break_deep(statement.value->ForLoop_block)
                && value_of(statement.value->ForLoop_condition.value,
                    loop_stack(statement.value->ForLoop_declaration, old(self).stack@, old(self).heap@), final(self).heap@) is Some
                ==> value_of(statement.value->ForLoop_condition.value,
                    loop_stack(statement.value->ForLoop_declaration, old(self).stack@, old(self).heap@), final(self).heap@)
                    == Some(ValueView::Bool(false)),
            r is Ok && old(self).abort_state is None && statement.value is ForLoop
                && statement.value->ForLoop_declaration is None
                && step_is_assignment(statement.value->ForLoop_assignment)
                && pure_expr(statement.value->ForLoop_condition.value)
                && final(self).abort_state is None
                && !block_may_break_deep(statement.value->ForLoop_block)
                && value_of(statement.value->ForLoop_condition.value, final(self).stack@, final(self).heap@) is Some
                ==> value_of(statement.value->ForLoop_condition.value, final(self).stack@, final(self).heap@)
                    == Some(ValueView::Bool(false)),
            r is Ok && old(self).abort_state is None && (statement.value is Assignment || statement.value is Declaration)
                ==> final(self).abort_state is None,
            r is Ok && (statement.value matches Statement::Assignment { accessors, .. } && accessors@.len() == 0)
                ==> final(self).last_result is None,
            r is Ok ==> (statement.value matches Statement::Assignment { identifier, value, accessors } ==> (
                accessors@.len() == 0 && pure_expr(value.value) && value_of(value.value, old(self).stack@, old(self).heap@) is Some
                    ==> (scopes_binding(top_scopes(old(self).stack@), identifier.value@) matches Some(c)
                        && final(self).heap@ == old(self).heap@.set_cell(c as int,
                            value_of(value.value, old(self).stack@, old(self).heap@).unwrap())))),
            fuel > 0 && (statement.value is Break || statement.value is Continue) ==> final(self).heap@ == old(self).heap@
                && final(self).stack@ == old(self).stack@,
            fuel > 0 && statement.value is Break ==> r is Ok && final(self).abort_state == Some(AbortState::Break),
            fuel > 0 && statement.value is Continue ==> r is Ok && final(self).abort_state == Some(AbortState::Continue),
            r is Ok && statement.value is Return ==> final(self).abort_state == Some(AbortState::Return),
            r is Ok && statement.value is WhileLoop && old(self).abort_state is None ==> final(self).abort_state is None
                || final(self).abort_state == Some(AbortState::Return),
            fuel > 0 ==> (statement.value matches Statement::Return(None) ==> r is Ok && final(self).last_result is None),
            r is Ok ==> (statement.value matches Statement::Declaration { identifier, kind } ==> (
                declared_value(kind, old(self).stack@, old(self).heap@) matches Some(d) ==> (!(d is Vector)
                    ==> (scopes_binding(top_scopes(final(self).stack@), identifier.value@) matches Some(c)
                        && final(self).heap@.cells[c as int] == d)))),
            r is Ok ==> (statement.value matches Statement::Assignment { identifier, value, accessors } ==> (
                accessors@.len() == 0 && pure_expr(value.value) && value_of(value.value, old(self).stack@, old(self).heap@) is Some
                    ==> (scopes_binding(top_scopes(final(self).stack@), identifier.value@) matches Some(c)
                        && Some(final(self).heap@.cells[c as int]) == value_of(value.value, old(self).stack@, old(self).heap@)))),
            r is Ok ==> (statement.value matches Statement::Return(Some(e)) ==> (
                pure_expr(e.value) && value_of(e.value, old(self).stack@, old(self).heap@) is Some
                    ==> final(self).heap@ == old(self).heap@ && (final(self).last_result matches Some(w)
                        && Some(w@) == value_of(e.value, old(self).stack@, old(self).heap@)))),
            r is Ok ==> (statement.value matches Statement::Conditional { condition, else_block, .. } ==> (
                pure_expr(condition.value) && value_of(condition.value, old(self).stack@, old(self).heap@) is Some ==> (
                    value_of(condition.value, old(self).stack@, old(self).heap@) matches Some(ValueView::Bool(b))
                    && (!b && else_block is None ==> final(self).heap@ == old(self).heap@
                        && (old(self).abort_state is None ==> final(self).abort_state is None))))),
            fuel > 2 && old(self).abort_state is None ==> (statement.value matches Statement::Conditional { condition, if_block, else_block }
                ==> (evaluable(condition.value, old(self).stack@, old(self).heap@, fuel - 2)
                    && value_of(condition.value, old(self).stack@, old(self).heap@) is Some
                    ==> match value_of(condition.value, old(self).stack@, old(self).heap@) {
                        Some(ValueView::Bool(b)) => match taken_block(b, if_block, else_block) {
                            None => r is Ok && final(self).heap@ == old(self).heap@ && final(self).abort_state is None,
                            Some(blk) => block_outcome(blk, old(self).stack@, old(self).heap@, fuel - 2, r, *final(self)),
                        },
                        _ => r matches Err(e) && e.message@ == "Condition in '"@ + "if statement"@ + "' has to evaluate to a valid boolean."@,
                    })),
            r is Ok ==> (statement.value matches Statement::WhileLoop { condition, .. } ==> (
                pure_expr(condition.value) && value_of(condition.value, old(self).stack@, old(self).heap@) is Some ==> (
                    value_of(condition.value, old(self).stack@, old(self).heap@) matches Some(ValueView::Bool(b))
                    && (!b ==> final(self).heap@ == old(self).heap@
                        && (old(self).abort_state is None ==> final(self).abort_state is None))))),
        decreases fuel, 0nat,
    {
        match &statement.value {
            Statement::WhileLoop { condition, block } => {
                let ghost tgt = stmt_run(statement.value, state_of(*old(self)), fuel as int);
                let mut running = self.eval_condition(condition, "while statement", statement.span, fuel - 1)?;
                let ghost mut broke = false;
                let ghost first = running;
                let ghost h0 = self.heap@;
                let ghost a0 = self.abort_state;
                let mut budget: u64 = fuel;
                while running
                    invariant
                        statement.value is WhileLoop,
                        !first ==> !running && self.heap@ == h0 && (a0 is None ==> self.abort_state is None),
                        broke && old(self).abort_state is None ==> block_may_break_deep(*block),
                        !running && !broke && self.abort_state is None && pure_expr(condition.value)
                            && value_of(condition.value, self.stack@, self.heap@) is Some
                            ==> value_of(condition.value, self.stack@, self.heap@) == Some(ValueView::Bool(false)),
                        old(self).abort_state is None ==> self.abort_state is None || self.abort_state == Some(AbortState::Return),
                        running && old(self).abort_state is None ==> self.abort_state is None,
                        tgt == stmt_run(statement.value, state_of(*old(self)), fuel as int),
                        statement.value->WhileLoop_condition == *condition,
                        !(fuel > 1 && evaluable(condition.value, old(self).stack@, old(self).heap@, fuel - 2)
                            && !(value_of(condition.value, old(self).stack@, old(self).heap@).unwrap() is Bool)),
                        tgt is Some ==> old(self).abort_state is None,
                        tgt is Some && running ==> tgt == while_run(condition.value, *block, state_of(*self), fuel - 1, budget as int),
                        tgt is Some && !running ==> tgt == Some(state_of(*self)),
                        self.kept(*old(self)),
                        self.stack@ == old(self).stack@,
                        fuel > 0,
                    decreases budget,
                {
                    if budget == 0 {
                        return Err(Self::step_limit(statement.span));
                    }
                    budget = budget - 1;
                    self.exec_block(block, fuel - 1)?;
                    let mut stop = false;
                    match self.abort_state {
                        Some(AbortState::Break) => {
                            self.abort_state = None;
                            stop = true;
                            proof { broke = true; }
                        },
                        Some(AbortState::Return) => {
                            stop = true;
                        },
                        Some(AbortState::Continue) => {
                            self.abort_state = None;
                        },
                        None => {},
                    }
                    if stop {
                        running = false;
                    } else {
                        running = self.eval_condition(condition, "while statement", statement.span, fuel - 1)?;
                    }
                }
                Ok(())
            },
            _ => Err(Self::step_limit(statement.span)),
        }
    }

    /// Runs a `for` loop (see `exec_statement`, which has checked that `fuel` is not spent).
    #[verifier::rlimit(100)]
    #[verifier::spinoff_prover]
    fn exec_for(&mut self, statement: &Node<Statement>, fuel: u64) -> (r: Result<(), InterpreterError>)
        requires
            old(self).inv(),
            statement.value is ForLoop,
            fuel > 0,
        ensures
            (stmt_run(statement.value, state_of(*old(self)), fuel as int) matches Some(y))
                ==> r is Ok && state_of(*final(self)) == stmt_run(statement.value, state_of(*old(self)), fuel as int).unwrap(),
            final(self).kept(*old(self)),
            r is Ok ==> same_but_innermost(old(self).stack@, final(self).stack@),
            r is Ok && !(statement.value is Declaration) ==> final(self).stack@ == old(self).stack@,
            stmt_succeeds(statement.value, old(self).stack@, old(self).heap@, fuel as int) ==> r is Ok,
            fuel > 1 && (statement.value matches Statement::Declaration { identifier, kind }
                && declaration_succeeds(kind, old(self).stack@, old(self).heap@, fuel - 1)
                && scopes_binding(top_scopes(old(self).stack@), identifier.value@) is Some)
                ==> (r matches Err(e) && e.message@ == redeclare_message(statement.value->Declaration_identifier.value@)),
            r is Err && (statement.value matches Statement::Declaration { kind, .. }
                && declared_value(kind, old(self).stack@, old(self).heap@) is Some) ==> final(self).stack@ == old(self).stack@,
            r is Ok ==> (statement.value matches Statement::Declaration { kind, .. } ==> (
                declared_value(kind, old(self).stack@, old(self).heap@) matches Some(d) ==> (!(d is Vector) ==> declared_type_matches(kind, d)))),
            r is Ok ==> (statement.value matches Statement::Declaration { identifier, kind } ==> (
                kind matches VariableDeclarationKind::TYPE { var_type, value: None } ==> (!(var_type.value is Vector)
                    ==> (scopes_binding(top_scopes(final(self).stack@), identifier.value@) matches Some(c)
                        && Some(final(self).heap@.cells[c as int]) == default_for(var_type.value, 0))))),
            r is Ok && old(self).abort_state is None && final(self).abort_state == Some(AbortState::Break)
                ==> may_break_deep(statement.value),
            r is Ok && old(self).abort_state is None && pure_expr(statement.value->WhileLoop_condition.value)
                && statement.value is WhileLoop && final(self).abort_state is None
                && !block_may_break_deep(statement.value->WhileLoop_block)
                && value_of(statement.value->WhileLoop_condition.value, final(self).stack@, final(self).heap@) is Some
                ==> value_of(statement.value->WhileLoop_condition.value, final(self).stack@, final(self).heap@)
                    == Some(ValueView::Bool(false)),
            fuel > 3 && old(self).abort_state is None && statement.value is Switch
                && no_aliases(statement.value->Switch_expressions@) ==> (
                (cases_false_before(statement.value->Switch_cases@, statement.value->Switch_cases@.len() as int,
                    old(self).stack@, old(self).heap@, fuel - 3)
                    ==> r is Ok && final(self).heap@ == old(self).heap@ && final(self).abort_state is None)
                && (forall|k: int| #[trigger] first_true_case_breaks(statement.value->Switch_cases@, k, old(self).stack@, old(self).heap@, fuel - 3)
                    ==> r is Ok && final(self).heap@ == old(self).heap@ && final(self).abort_state is None)),
            fuel > 3 && old(self).abort_state is None && statement.value is Switch
                && no_aliases(statement.value->Switch_expressions@) ==> (forall|k: int|
                    #[trigger] first_non_boolean_case(statement.value->Switch_cases@, k, old(self).stack@, old(self).heap@, fuel - 3)
                    ==> (r matches Err(e) && e.message@ == "Condition in '"@ + "switch case"@ + "' has to evaluate to a valid boolean."@)),
            fuel > 2 && (statement.value matches Statement::ForLoop { declaration: None, condition, .. }
                && evaluable(condition.value, old(self).stack@, old(self).heap@, fuel - 2)
                && !(value_of(condition.value, old(self).stack@, old(self).heap@).unwrap() is Bool))
                ==> (r matches Err(e) && e.message@ == "Condition in '"@ + "for statement"@ + "' has to evaluate to a valid boolean."@),
            fuel > 1 && (statement.value matches Statement::WhileLoop { condition, .. }
                && evaluable(condition.value, old(self).stack@, old(self).heap@, fuel - 2)
                && !(value_of(condition.value, old(self).stack@, old(self).heap@).unwrap() is Bool))
                ==> (r matches Err(e) && e.message@ == "Condition in '"@ + "while statement"@ + "' has to evaluate to a valid boolean."@)
                    && final(self).heap@ == old(self).heap@,
            r is Ok && (statement.value matches Statement::Declaration { identifier, kind }
                && declared_value(kind, old(self).stack@, old(self).heap@) is Some) ==> final(self).stack@
                == crate::stack::stack::declared(old(self).stack@, statement.value->Declaration_identifier.value@, old(self).heap@.cells.len() as usize),
            r is Ok && old(self).abort_state is None && statement.value is ForLoop
                && init_declares(statement.value->ForLoop_declaration, old(self).stack@, old(self).heap@)
                && step_is_assignment(statement.value->ForLoop_assignment)
                && pure_expr(statement.value->ForLoop_condition.value)
                && final(self).abort_state is None
                && !block_may_break_deep(statement.value->ForLoop_block)
                && value_of(statement.value->ForLoop_condition.value,
                    loop_stack(statement.value->ForLoop_declaration, old(self).stack@, old(self).heap@), final(self).heap@) is Some
                ==> value_of(statement.value->ForLoop_condition.value,
                    loop_stack(statement.value->ForLoop_declaration, old(self).stack@, old(self).heap@), final(self).heap@)
                    == Some(ValueView::Bool(false)),
            r is Ok && old(self).abort_state is None && statement.value is ForLoop
                && statement.value->ForLoop_declaration is None
                && step_is_assignment(statement.value->ForLoop_assignment)
                && pure_expr(statement.value->ForLoop_condition.value)
                && final(self).abort_state is None
                && !block_may_break_deep(statement.value->ForLoop_block)
                && value_of(statement.value->ForLoop_condition.value, final(self).stack@, final(self).heap@) is Some
                ==> value_of(statement.value->ForLoop_condition.value, final(self).stack@, final(self).heap@)
                    == Some(ValueView::Bool(false)),
            r is Ok && old(self).abort_state is None && (statement.value is Assignment || statement.value is Declaration)
                ==> final(self).abort_state is None,
            r is Ok && (statement.value matches Statement::Assignment { accessors, .. } && accessors@.len() == 0)
                ==> final(self).last_result is None,
            r is Ok ==> (statement.value matches Statement::Assignment { identifier, value, accessors } ==> (
                accessors@.len() == 0 && pure_expr(value.value) && value_of(value.value, old(self).stack@, old(self).heap@) is Some
                    ==> (scopes_binding(top_scopes(old(self).stack@), identifier.value@) matches Some(c)
                        && final(self).heap@ == old(self).heap@.set_cell(c as int,
                            value_of(value.value, old(self).stack@, old(self).heap@).unwrap())))),
            fuel > 0 && (statement.value is Break || statement.value is Continue) ==> final(self).heap@ == old(self).heap@
                && final(self).stack@ == old(self).stack@,
            fuel > 0 && statement.value is Break ==> r is Ok && final(self).abort_state == Some(AbortState::Break),
            fuel > 0 && statement.value is Continue ==> r is Ok && final(self).abort_state == Some(AbortState::Continue),
            r is Ok && statement.value is Return ==> final(self).abort_state == Some(AbortState::Return),
            r is Ok && statement.value is WhileLoop && old(self).abort_state is None ==> final(self).abort_state is None
                || final(self).abort_state == Some(AbortState::Return),
            fuel > 0 ==> (statement.value matches Statement::Return(None) ==> r is Ok && final(self).last_result is None),
            r is Ok ==> (statement.value matches Statement::Declaration { identifier, kind } ==> (
                declared_value(kind, old(self).stack@, old(self).heap@) matches Some(d) ==> (!(d is Vector)
                    ==> (scopes_binding(top_scopes(final(self).stack@), identifier.value@) matches Some(c)
                        && final(self).heap@.cells[c as int] == d)))),
            r is Ok ==> (statement.value matches Statement::Assignment { identifier, value, accessors } ==> (
                accessors@.len() == 0 && pure_expr(value.value) && value_of(value.value, old(self).stack@, old(self).heap@) is Some
                    ==> (scopes_binding(top_scopes(final(self).stack@), identifier.value@) matches Some(c)
                        && Some(final(self).heap@.cells[c as int]) == value_of(value.value, old(self).stack@, old(self).heap@)))),
            r is Ok ==> (statement.value matches Statement::Return(Some(e)) ==> (
                pure_expr(e.value) && value_of(e.value, old(self).stack@, old(self).heap@) is Some
                    ==> final(self).heap@ == old(self).heap@ && (final(self).last_result matches Some(w)
                        && Some(w@) == value_of(e.value, old(self).stack@, old(self).heap@)))),
            r is Ok ==> (statement.value matches Statement::Conditional { condition, else_block, .. } ==> (
                pure_expr(condition.value) && value_of(condition.value, old(self).stack@, old(self).heap@) is Some ==> (
                    value_of(condition.value, old(self).stack@, old(self).heap@) matches Some(ValueView::Bool(b))
                    && (!b && else_block is None ==> final(self).heap@ == old(self).heap@
                        && (old(self).abort_state is None ==> final(self).abort_state is None))))),
            fuel > 2 && old(self).abort_state is None ==> (statement.value matches Statement::Conditional { condition, if_block, else_block }
                ==> (evaluable(condition.value, old(self).stack@, old(self).heap@, fuel - 2)
                    && value_of(condition.value, old(self).stack@, old(self).heap@) is Some
                    ==> match value_of(condition.value, old(self).stack@, old(self).heap@) {
                        Some(ValueView::Bool(b)) => match taken_block(b, if_block, else_block) {
                            None => r is Ok && final(self).heap@ == old(self).heap@ && final(self).abort_state is None,
                            Some(blk) => block_outcome(blk, old(self).stack@, old(self).heap@, fuel - 2, r, *final(self)),
                        },
                        _ => r matches Err(e) && e.message@ == "Condition in '"@ + "if statement"@ + "' has to evaluate to a valid boolean."@,
                    })),
            r is Ok ==> (statement.value matches Statement::WhileLoop { condition, .. } ==> (
                pure_expr(condition.value) && value_of(condition.value, old(self).stack@, old(self).heap@) is Some ==> (
                    value_of(condition.value, old(self).stack@, old(self).heap@) matches Some(ValueView::Bool(b))
                    && (!b ==> final(self).heap@ == old(self).heap@
                        && (old(self).abort_state is None ==> final(self).abort_state is None))))),
        decreases fuel, 0nat,
    {
        match &statement.value {
            Statement::ForLoop { declaration, condition, assignment, block } => {
                let ghost tgt = stmt_run(statement.value, state_of(*old(self)), fuel as int);
                let ghost s0 = self.stack@;
                self.stack.push_scope();
                let ghost s1 = self.stack@;
                proof { lemma_same_but_innermost_refl(s1); }
                let ghost h0 = self.heap@;
                proof {
                    lemma_pushed_scope_same_bindings(s0);
                    match declaration {
                        Some(d) => match &d.value {
                            Statement::Declaration { kind, .. } => lemma_declared_value_same_bindings(*kind, s0, s1, h0),
                            _ => {},
                        },
                        None => {},
                    }
                }
                assert(state_of(*self) == open_scope(state_of(*old(self))));
                match declaration {
                    Some(decl) => {
                        self.exec_statement(decl, fuel - 1)?;
                    },
                    None => {},
                }
                let ghost s_loop = self.stack@;
                let ghost simple = old(self).abort_state is None && (declaration is None || init_declares(*declaration, s0, h0))
                    && step_is_assignment(*assignment);
                proof {
                    if declaration is None {
                        lemma_pushed_scope_same_bindings(s0);
                        lemma_value_of_same_bindings(condition.value, s0, s1, self.heap@);
                    }
                }
                let mut running = self.eval_condition(condition, "for statement", statement.span, fuel - 1)?;
                let ghost mut broke = false;
                let mut budget: u64 = fuel;
                while running
                    invariant
                        statement.value is ForLoop,
                        simple == (old(self).abort_state is None && (declaration is None || init_declares(*declaration, s0, h0))
                            && step_is_assignment(*assignment)),
                        h0 == old(self).heap@,
                        simple && declaration is None ==> s_loop == s1,
                        simple && declaration is Some ==> s_loop == loop_stack(*declaration, s0, h0),
                        !(fuel > 2 && (statement.value matches Statement::ForLoop { declaration: None, condition, .. }
                            && evaluable(condition.value, old(self).stack@, old(self).heap@, fuel - 2)
                            && !(value_of(condition.value, old(self).stack@, old(self).heap@).unwrap() is Bool))),
                        simple ==> self.stack@ == s_loop,
                        simple && running ==> self.abort_state is None,
                        simple && broke ==> block_may_break_deep(*block),
                        simple && !running && !broke && self.abort_state is None && pure_expr(condition.value)
                            && value_of(condition.value, self.stack@, self.heap@) is Some
                            ==> value_of(condition.value, self.stack@, self.heap@) == Some(ValueView::Bool(false)),
                        self.kept(*old(self)),
                        s0 == old(self).stack@,
                        s0.len() > 0,
                        s1 == s0.update(s0.len() - 1, s0.last().push(Map::empty())),
                        same_but_innermost(s1, self.stack@),
                        fuel > 0,
                        tgt == stmt_run(statement.value, state_of(*old(self)), fuel as int),
                        tgt is Some ==> old(self).abort_state is None,
                        tgt is Some && running ==> self.abort_state is None
                            && tgt == close_opt(for_run(condition.value, *block, *assignment, state_of(*self), fuel - 1, budget as int)),
                        tgt is Some && !running ==> tgt == Some(close_scope(state_of(*self))),
                    decreases budget,
                {
                    if budget == 0 {
                        return Err(Self::step_limit(statement.span));
                    }
                    budget = budget - 1;
                    self.exec_block(block, fuel - 1)?;
                    let mut stop = false;
                    match self.abort_state {
                        Some(AbortState::Break) => {
                            self.abort_state = None;
                            stop = true;
                            proof { broke = true; }
                        },
                        Some(AbortState::Return) => {
                            stop = true;
                        },
                        Some(AbortState::Continue) => {
                            self.abort_state = None;
                        },
                        None => {},
                    }
                    if stop {
                        running = false;
                    } else {
                        match assignment {
                            Some(assign) => {
                                let ghost before = self.stack@;
                                self.exec_statement(assign, fuel - 1)?;
                                proof { lemma_same_but_innermost_trans(s1, before, self.stack@); }
                            },
                            None => {},
                        }
                        running = self.eval_condition(condition, "for statement", statement.span, fuel - 1)?;
                    }
                }
                proof {
                    lemma_pop_after_push(s0, self.stack@);
                    if simple {
                        lemma_pushed_scope_same_bindings(s0);
                        lemma_value_of_same_bindings(condition.value, s0, s1, self.heap@);
                    }
                }
                self.stack.pop_scope();
                Ok(())
            },
            _ => Err(Self::step_limit(statement.span)),
        }
    }

    /// Runs a switch (see `exec_statement`, which has checked that `fuel` is not spent).
    #[verifier::rlimit(100)]
    #[verifier::spinoff_prover]
    fn exec_switch(&mut self, statement: &Node<Statement>, fuel: u64) -> (r: Result<(), InterpreterError>)
        requires
            old(self).inv(),
            statement.value is Switch,
            fuel > 0,
        ensures
            (stmt_run(statement.value, state_of(*old(self)), fuel as int) matches Some(y))
                ==> r is Ok && state_of(*final(self)) == stmt_run(statement.value, state_of(*old(self)), fuel as int).unwrap(),
            final(self).kept(*old(self)),
            r is Ok ==> same_but_innermost(old(self).stack@, final(self).stack@),
            r is Ok && !(statement.value is Declaration) ==> final(self).stack@ == old(self).stack@,
            stmt_succeeds(statement.value, old(self).stack@, old(self).heap@, fuel as int) ==> r is Ok,
            fuel > 1 && (statement.value matches Statement::Declaration { identifier, kind }
                && declaration_succeeds(kind, old(self).stack@, old(self).heap@, fuel - 1)
                && scopes_binding(top_scopes(old(self).stack@), identifier.value@) is Some)
                ==> (r matches Err(e) && e.message@ == redeclare_message(statement.value->Declaration_identifier.value@)),
            r is Err && (statement.value matches Statement::Declaration { kind, .. }
                && declared_value(kind, old(self).stack@, old(self).heap@) is Some) ==> final(self).stack@ == old(self).stack@,
            r is Ok ==> (statement.value matches Statement::Declaration { kind, .. } ==> (
                declared_value(kind, old(self).stack@, old(self).heap@) matches Some(d) ==> (!(d is Vector) ==> declared_type_matches(kind, d)))),
            r is Ok ==> (statement.value matches Statement::Declaration { identifier, kind } ==> (
                kind matches VariableDeclarationKind::TYPE { var_type, value: None } ==> (!(var_type.value is Vector)
                    ==> (scopes_binding(top_scopes(final(self).stack@), identifier.value@) matches Some(c)
                        && Some(final(self).heap@.cells[c as int]) == default_for(var_type.value, 0))))),
            r is Ok && old(self).abort_state is None && final(self).abort_state == Some(AbortState::Break)
                ==> may_break_deep(statement.value),
            r is Ok && old(self).abort_state is None && pure_expr(statement.value->WhileLoop_condition.value)
                && statement.value is WhileLoop && final(self).abort_state is None
                && !block_may_break_deep(statement.value->WhileLoop_block)
                && value_of(statement.value->WhileLoop_condition.value, final(self).stack@, final(self).heap@) is Some
                ==> value_of(statement.value->WhileLoop_condition.value, final(self).stack@, final(self).heap@)
                    == Some(ValueView::Bool(false)),
            fuel > 3 && old(self).abort_state is None && statement.value is Switch
                && no_aliases(statement.value->Switch_expressions@) ==> (
                (cases_false_before(statement.value->Switch_cases@, statement.value->Switch_cases@.len() as int,
                    old(self).stack@, old(self).heap@, fuel - 3)
                    ==> r is Ok && final(self).heap@ == old(self).heap@ && final(self).abort_state is None)
                && (forall|k: int| #[trigger] first_true_case_breaks(statement.value->Switch_cases@, k, old(self).stack@, old(self).heap@, fuel - 3)
                    ==> r is Ok && final(self).heap@ == old(self).heap@ && final(self).abort_state is None)),
            fuel > 3 && old(self).abort_state is None && statement.value is Switch
                && no_aliases(statement.value->Switch_expressions@) ==> (forall|k: int|
                    #[trigger] first_non_boolean_case(statement.value->Switch_cases@, k, old(self).stack@, old(self).heap@, fuel - 3)
                    ==> (r matches Err(e) && e.message@ == "Condition in '"@ + "switch case"@ + "' has to evaluate to a valid boolean."@)),
            fuel > 2 && (statement.value matches Statement::ForLoop { declaration: None, condition, .. }
                && evaluable(condition.value, old(self).stack@, old(self).heap@, fuel - 2)
                && !(value_of(condition.value, old(self).stack@, old(self).heap@).unwrap() is Bool))
                ==> (r matches Err(e) && e.message@ == "Condition in '"@ + "for statement"@ + "' has to evaluate to a valid boolean."@),
            fuel > 1 && (statement.value matches Statement::WhileLoop { condition, .. }
                && evaluable(condition.value, old(self).stack@, old(self).heap@, fuel - 2)
                && !(value_of(condition.value, old(self).stack@, old(self).heap@).unwrap() is Bool))
                ==> (r matches Err(e) && e.message@ == "Condition in '"@ + "while statement"@ + "' has to evaluate to a valid boolean."@)
                    && final(self).heap@ == old(self).heap@,
            r is Ok && (statement.value matches Statement::Declaration { identifier, kind }
                && declared_value(kind, old(self).stack@, old(self).heap@) is Some) ==> final(self).stack@
                == crate::stack::stack::declared(old(self).stack@, statement.value->Declaration_identifier.value@, old(self).heap@.cells.len() as usize),
            r is Ok && old(self).abort_state is None && statement.value is ForLoop
                && init_declares(statement.value->ForLoop_declaration, old(self).stack@, old(self).heap@)
                && step_is_assignment(statement.value->ForLoop_assignment)
                && pure_expr(statement.value->ForLoop_condition.value)
                && final(self).abort_state is None
                && !block_may_break_deep(statement.value->ForLoop_block)
                && value_of(statement.value->ForLoop_condition.value,
                    loop_stack(statement.value->ForLoop_declaration, old(self).stack@, old(self).heap@), final(self).heap@) is Some
                ==> value_of(statement.value->ForLoop_condition.value,
                    loop_stack(statement.value->ForLoop_declaration, old(self).stack@, old(self).heap@), final(self).heap@)
                    == Some(ValueView::Bool(false)),
            r is Ok && old(self).abort_state is None && statement.value is ForLoop
                && statement.value->ForLoop_declaration is None
                && step_is_assignment(statement.value->ForLoop_assignment)
                && pure_expr(statement.value->ForLoop_condition.value)
                && final(self).abort_state is None
                && !block_may_break_deep(statement.value->ForLoop_block)
                && value_of(statement.value->ForLoop_condition.value, final(self).stack@, final(self).heap@) is Some
                ==> value_of(statement.value->ForLoop_condition.value, final(self).stack@, final(self).heap@)
                    == Some(ValueView::Bool(false)),
            r is Ok && old(self).abort_state is None && (statement.value is Assignment || statement.value is Declaration)
                ==> final(self).abort_state is None,
            r is Ok && (statement.value matches Statement::Assignment { accessors, .. } && accessors@.len() == 0)
                ==> final(self).last_result is None,
            r is Ok ==> (statement.value matches Statement::Assignment { identifier, value, accessors } ==> (
                accessors@.len() == 0 && pure_expr(value.value) && value_of(value.value, old(self).stack@, old(self).heap@) is Some
                    ==> (scopes_binding(top_scopes(old(self).stack@), identifier.value@) matches Some(c)
                        && final(self).heap@ == old(self).heap@.set_cell(c as int,
                            value_of(value.value, old(self).stack@, old(self).heap@).unwrap())))),
            fuel > 0 && (statement.value is Break || statement.value is Continue) ==> final(self).heap@ == old(self).heap@
                && final(self).stack@ == old(self).stack@,
            fuel > 0 && statement.value is Break ==> r is Ok && final(self).abort_state == Some(AbortState::Break),
            fuel > 0 && statement.value is Continue ==> r is Ok && final(self).abort_state == Some(AbortState::Continue),
            r is Ok && statement.value is Return ==> final(self).abort_state == Some(AbortState::Return),
            r is Ok && statement.value is WhileLoop && old(self).abort_state is None ==> final(self).abort_state is None
                || final(self).abort_state == Some(AbortState::Return),
            fuel > 0 ==> (statement.value matches Statement::Return(None) ==> r is Ok && final(self).last_result is None),
            r is Ok ==> (statement.value matches Statement::Declaration { identifier, kind } ==> (
                declared_value(kind, old(self).stack@, old(self).heap@) matches Some(d) ==> (!(d is Vector)
                    ==> (scopes_binding(top_scopes(final(self).stack@), identifier.value@) matches Some(c)
                        && final(self).heap@.cells[c as int] == d)))),
            r is Ok ==> (statement.value matches Statement::Assignment { identifier, value, accessors } ==> (
                accessors@.len() == 0 && pure_expr(value.value) && value_of(value.value, old(self).stack@, old(self).heap@) is Some
                    ==> (scopes_binding(top_scopes(final(self).stack@), identifier.value@) matches Some(c)
                        && Some(final(self).heap@.cells[c as int]) == value_of(value.value, old(self).stack@, old(self).heap@)))),
            r is Ok ==> (statement.value matches Statement::Return(Some(e)) ==> (
                pure_expr(e.value) && value_of(e.value, old(self).stack@, old(self).heap@) is Some
                    ==> final(self).heap@ == old(self).heap@ && (final(self).last_result matches Some(w)
                        && Some(w@) == value_of(e.value, old(self).stack@, old(self).heap@)))),
            r is Ok ==> (statement.value matches Statement::Conditional { condition, else_block, .. } ==> (
                pure_expr(condition.value) && value_of(condition.value, old(self).stack@, old(self).heap@) is Some ==> (
                    value_of(condition.value, old(self).stack@, old(self).heap@) matches Some(ValueView::Bool(b))
                    && (!b && else_block is None ==> final(self).heap@ == old(self).heap@
                        && (old(self).abort_state is None ==> final(self).abort_state is None))))),
            fuel > 2 && old(self).abort_state is None ==> (statement.value matches Statement::Conditional { condition, if_block, else_block }
                ==> (evaluable(condition.value, old(self).stack@, old(self).heap@, fuel - 2)
                    && value_of(condition.value, old(self).stack@, old(self).heap@) is Some
                    ==> match value_of(condition.value, old(self).stack@, old(self).heap@) {
                        Some(ValueView::Bool(b)) => match taken_block(b, if_block, else_block) {
                            None => r is Ok && final(self).heap@ == old(self).heap@ && final(self).abort_state is None,
                            Some(blk) => block_outcome(blk, old(self).stack@, old(self).heap@, fuel - 2, r, *final(self)),
                        },
                        _ => r matches Err(e) && e.message@ == "Condition in '"@ + "if statement"@ + "' has to evaluate to a valid boolean."@,
                    })),
            r is Ok ==> (statement.value matches Statement::WhileLoop { condition, .. } ==> (
                pure_expr(condition.value) && value_of(condition.value, old(self).stack@, old(self).heap@) is Some ==> (
                    value_of(condition.value, old(self).stack@, old(self).heap@) matches Some(ValueView::Bool(b))
                    && (!b ==> final(self).heap@ == old(self).heap@
                        && (old(self).abort_state is None ==> final(self).abort_state is None))))),
        decreases fuel, 0nat,
    {
        match &statement.value {
            Statement::Switch { expressions, cases } => {
                let ghost tgt = stmt_run(statement.value, state_of(*old(self)), fuel as int);
                let ghost s0 = self.stack@;
                self.stack.push_scope();
                let ghost s1 = self.stack@;
                proof { lemma_same_but_innermost_refl(s1); }
                let ghost prem = fuel > 3 && old(self).abort_state is None && no_aliases(expressions@);
                let ghost h0 = self.heap@;
                let n = expressions.len();
                let mut i: usize = 0;
                while i < n
                    invariant
                        statement.value is Switch,
                        0 <= i <= n,
                        n == expressions@.len(),
                        self.kept(*old(self)),
                        s0 == old(self).stack@,
                        s0.len() > 0,
                        s1 == s0.update(s0.len() - 1, s0.last().push(Map::empty())),
                        same_but_innermost(s1, self.stack@),
                        fuel > 0,
                        prem == (fuel > 3 && old(self).abort_state is None && no_aliases(expressions@)),
                        expressions@ == statement.value->Switch_expressions@,
                        cases@ == statement.value->Switch_cases@,
                        h0 == old(self).heap@,
                        prem ==> self.stack@ == s1 && self.heap@ == h0 && self.abort_state is None,
                        tgt == stmt_run(statement.value, state_of(*old(self)), fuel as int),
                        tgt is Some ==> state_of(*self) == open_scope(state_of(*old(self))),
                    decreases n - i,
                {
                    let ghost before = self.stack@;
                    proof {
                        if prem || tgt is Some {
                            assert(no_aliases(expressions@));
                            assert(expressions@[i as int].value.alias is None);
                        }
                    }
                    self.exec_switch_expression(&expressions[i], fuel - 1)?;
                    proof { lemma_same_but_innermost_trans(s1, before, self.stack@); }
                    i = i + 1;
                }
                proof {
                    if tgt is Some {
                        assert(tgt == close_opt(cases_run(cases@, 0, state_of(*self), fuel - 1)));
                    }
                }
                let m = cases.len();
                let mut j: usize = 0;
                let mut stop = false;
                while j < m && !stop
                    invariant
                        statement.value is Switch,
                        0 <= j <= m,
                        m == cases@.len(),
                        self.kept(*old(self)),
                        s0 == old(self).stack@,
                        s0.len() > 0,
                        s1 == s0.update(s0.len() - 1, s0.last().push(Map::empty())),
                        same_but_innermost(s1, self.stack@),
                        fuel > 0,
                        prem == (fuel > 3 && old(self).abort_state is None && no_aliases(expressions@)),
                        expressions@ == statement.value->Switch_expressions@,
                        cases@ == statement.value->Switch_cases@,
                        h0 == old(self).heap@,
                        prem && cases_false_before(cases@, j as int, s0, h0, fuel - 3)
                            ==> self.stack@ == s1 && self.heap@ == h0 && self.abort_state is None && !stop,
                        forall|k: int| prem && k < j && #[trigger] first_true_case_breaks(cases@, k, s0, h0, fuel - 3)
                            ==> stop && self.heap@ == h0 && self.abort_state is None,
                        forall|k: int| prem && k < j ==> !#[trigger] first_non_boolean_case(cases@, k, s0, h0, fuel - 3),
                        tgt == stmt_run(statement.value, state_of(*old(self)), fuel as int),
                        tgt is Some ==> old(self).abort_state is None,
                        tgt is Some && !stop ==> self.abort_state is None
                            && tgt == close_opt(cases_run(cases@, j as int, state_of(*self), fuel - 1)),
                        tgt is Some && stop ==> tgt == Some(close_scope(state_of(*self))),
                    decreases m - j,
                {
                    proof {
                        if prem && cases_false_before(cases@, j as int, s0, h0, fuel - 3) {
                            lemma_pushed_scope_same_bindings(s0);
                            lemma_value_of_same_bindings(cases@[j as int].value.condition.value, s0, s1, h0);
                        }
                    }
                    self.exec_switch_case(&cases[j], fuel - 1)?;
                    match self.abort_state {
                        Some(AbortState::Break) => {
                            self.abort_state = None;
                            stop = true;
                        },
                        Some(AbortState::Return) => {
                            stop = true;
                        },
                        Some(AbortState::Continue) => {
                            stop = true;
                        },
                        None => {},
                    }
                    j = j + 1;
                }
                proof { lemma_pop_after_push(s0, self.stack@); }
                self.stack.pop_scope();
                Ok(())
            },
            _ => Err(Self::step_limit(statement.span)),
        }
    }

    /// Evaluates a switch expression that has an alias and binds its value to the alias in
    /// the switch's scope; one without an alias is not evaluated.
    pub fn exec_switch_expression(&mut self, switch_expression: &Node<SwitchExpression>, fuel: u64) -> (r: Result<(), InterpreterError>)
        requires
            old(self).inv(),
        ensures
            final(self).kept(*old(self)),
            r is Ok ==> same_but_innermost(old(self).stack@, final(self).stack@),
            switch_expression.value.alias is None ==> r is Ok && *final(self) == *old(self),
            switch_expression.value.alias is None ==> r is Ok && final(self).stack@ == old(self).stack@
                && final(self).heap@ == old(self).heap@,
            r is Ok ==> (switch_expression.value.alias matches Some(alias)
                ==> scopes_binding(top_scopes(final(self).stack@), alias.value@) is Some),
            (switch_expression.value.alias matches Some(alias)
                && evaluable(switch_expression.value.expression.value, old(self).stack@, old(self).heap@, fuel - 1)
                && scopes_binding(top_scopes(old(self).stack@), alias.value@) is None
                && old(self).stack@.last().len() > 0) ==> r is Ok
                && (scopes_binding(top_scopes(final(self).stack@), switch_expression.value.alias.unwrap().value@) matches Some(c)
                    && Some(final(self).heap@.cells[c as int]) == value_of(switch_expression.value.expression.value, old(self).stack@, old(self).heap@)),
        decreases fuel, 0nat,
    {
        proof { lemma_same_but_innermost_refl(self.stack@); }
        match &switch_expression.value.alias {
            Some(alias) => {
                if fuel == 0 {
                    return Err(Self::step_limit(switch_expression.span));
                }
                self.eval_expression(&switch_expression.value.expression, fuel - 1)?;
                let computed = self.read_last_result()?;
                self.declare_new(alias.value.as_str(), computed, switch_expression.span)
            },
            None => Ok(()),
        }
    }

    /// Runs the block of a switch case when its condition holds.
    pub fn exec_switch_case(&mut self, switch_case: &Node<SwitchCase>, fuel: u64) -> (r: Result<(), InterpreterError>)
        requires
            old(self).inv(),
        ensures
            final(self).kept(*old(self)),
            r is Ok ==> final(self).stack@ == old(self).stack@,
            evaluable(switch_case.value.condition.value, old(self).stack@, old(self).heap@, fuel - 2) ==> match value_of(
                switch_case.value.condition.value,
                old(self).stack@,
                old(self).heap@,
            ) {
                Some(ValueView::Bool(false)) => r is Ok && final(self).heap@ == old(self).heap@
                    && (old(self).abort_state is None ==> final(self).abort_state is None),
                Some(ValueView::Bool(true)) => (switch_case.value.block.value.0@.len() == 0 ==> r is Ok
                    && final(self).heap@ == old(self).heap@ && (old(self).abort_state is None ==> final(self).abort_state is None))
                    && (fuel > 2 && old(self).abort_state is None && switch_case.value.block.value.0@.len() > 0
                        && switch_case.value.block.value.0@[0].value is Break ==> r is Ok
                        && final(self).abort_state == Some(AbortState::Break) && final(self).heap@ == old(self).heap@),
                _ => r matches Err(e) && e.message@ == "Condition in '"@ + "switch case"@ + "' has to evaluate to a valid boolean."@,
            },
            old(self).abort_state is None && (case_run(*switch_case, state_of(*old(self)), fuel as int) matches Some(y))
                ==> r is Ok && state_of(*final(self)) == case_run(*switch_case, state_of(*old(self)), fuel as int).unwrap(),
        decreases fuel, 0nat,
    {
        if fuel == 0 {
            return Err(Self::step_limit(switch_case.span));
        }
        let b = self.eval_condition(&switch_case.value.condition, "switch case", switch_case.span, fuel - 1)?;
        if b {
            self.exec_block(&switch_case.value.block, fuel - 1)
        } else {
            Ok(())
        }
    }
}

} // verus!
