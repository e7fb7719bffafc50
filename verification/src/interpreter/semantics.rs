use vstd::prelude::*;
use crate::ast::{Block, Node, Statement, SwitchCase, VariableDeclarationKind};
use crate::heap::HeapView;
use crate::interpreter::{AbortState, Interpreter, StackView};
use crate::interpreter::declarations::{declaration_succeeds, declared_value};
use crate::interpreter::expressions::{evaluable, value_of};
use crate::interpreter::statements::{no_aliases, taken_block};
use crate::stack::scope::type_accepts;
use crate::stack::scope_manager::scopes_binding;
use crate::stack::stack::{declared, popped_scope, pushed_scope, top_scopes};
use crate::value::{default_for, view_type, Value, ValueView};

verus! {

/// What running statements acts on: the variables, the store, what is pending (a `break`,
/// `continue` or `return`) and the pending result.
pub struct RunState {
    pub stack: StackView,
    pub heap: HeapView,
    pub abort: Option<AbortState>,
    pub result: Option<ValueView>,
}

/// The view of a pending result.
pub open spec fn result_view(r: Option<Value>) -> Option<ValueView> {
    match r {
        Some(v) => Some(v@),
        None => None,
    }
}

/// The part of an interpreter that running statements acts on.
pub open spec fn state_of<'a, R>(i: Interpreter<'a, R>) -> RunState {
    RunState { stack: i.stack@, heap: i.heap@, abort: i.abort_state, result: result_view(i.last_result) }
}

/// `x` with another pending state.
pub open spec fn with_abort(x: RunState, a: Option<AbortState>) -> RunState {
    RunState { stack: x.stack, heap: x.heap, abort: a, result: x.result }
}

/// `x` with another pending result.
pub open spec fn with_result(x: RunState, v: Option<ValueView>) -> RunState {
    RunState { stack: x.stack, heap: x.heap, abort: x.abort, result: v }
}

/// `x` with a new scope opened.
pub open spec fn open_scope(x: RunState) -> RunState {
    RunState { stack: pushed_scope(x.stack), heap: x.heap, abort: x.abort, result: x.result }
}

/// `x` with its innermost scope closed.
pub open spec fn close_scope(x: RunState) -> RunState {
    RunState { stack: popped_scope(x.stack), heap: x.heap, abort: x.abort, result: x.result }
}

/// The innermost scope closed in an outcome, where there is one.
pub open spec fn close_opt(o: Option<RunState>) -> Option<RunState> {
    match o {
        Some(z) => Some(close_scope(z)),
        None => None,
    }
}

/// The condition `c` evaluated within `fuel` steps from `x`, when it is evaluable and a
/// boolean.
pub open spec fn condition_value(c: crate::ast::Expression, x: RunState, fuel: int) -> Option<bool> {
    if evaluable(c, x.stack, x.heap, fuel) {
        match value_of(c, x.stack, x.heap) {
            Some(ValueView::Bool(b)) => Some(b),
            _ => None,
        }
    } else {
        None
    }
}

/// The value a declaration binds: its initial value, or the default of its type.
pub open spec fn bound_value(kind: VariableDeclarationKind, s: StackView, h: HeapView) -> ValueView {
    match kind {
        VariableDeclarationKind::TYPE { var_type, value: None } => default_for(var_type.value, 0).unwrap(),
        _ => declared_value(kind, s, h).unwrap(),
    }
}

/// The pending result after a declaration: unchanged when the type's default is taken,
/// none once an initial value was evaluated.
pub open spec fn declaration_result(kind: VariableDeclarationKind, before: Option<ValueView>) -> Option<ValueView> {
    match kind {
        VariableDeclarationKind::TYPE { value: None, .. } => before,
        _ => None,
    }
}

/// What running `st` within `fuel` steps from `x` (with nothing pending) gives, where it
/// is determined: the statements whose expressions are pure and evaluable, that assign
/// declared variables of accepting types, declare new names, and whose loops end within
/// their budget. Calls, indexed assignments and switch aliases are left open (`None`).
pub open spec fn stmt_run(st: Statement, x: RunState, fuel: int) -> Option<RunState>
    decreases fuel, 0int,
{
    if fuel <= 0 || x.abort is Some {
        None
    } else {
        match st {
            Statement::Break => Some(with_abort(x, Some(AbortState::Break))),
            Statement::Continue => Some(with_abort(x, Some(AbortState::Continue))),
            Statement::Return(None) => Some(with_result(with_abort(x, Some(AbortState::Return)), None)),
            Statement::Return(Some(e)) => if evaluable(e.value, x.stack, x.heap, fuel - 1) {
                Some(with_result(with_abort(x, Some(AbortState::Return)), value_of(e.value, x.stack, x.heap)))
            } else {
                None
            },
            Statement::Assignment { identifier, value, accessors } => {
                if accessors@.len() == 0 && evaluable(value.value, x.stack, x.heap, fuel - 1) {
                    match scopes_binding(top_scopes(x.stack), identifier.value@) {
                        Some(c) => if type_accepts(view_type(x.heap.cells[c as int]), value_of(value.value, x.stack, x.heap).unwrap()) {
                            Some(RunState {
                                stack: x.stack,
                                heap: x.heap.set_cell(c as int, value_of(value.value, x.stack, x.heap).unwrap()),
                                abort: x.abort,
                                result: None,
                            })
                        } else {
                            None
                        },
                        None => None,
                    }
                } else {
                    None
                }
            },
            Statement::Declaration { identifier, kind } => {
                if fuel > 1 && declaration_succeeds(kind, x.stack, x.heap, fuel - 1)
                    && scopes_binding(top_scopes(x.stack), identifier.value@) is None && x.stack.last().len() > 0 {
                    Some(RunState {
                        stack: declared(x.stack, identifier.value@, x.heap.cells.len() as usize),
                        heap: x.heap.with_cell(bound_value(kind, x.stack, x.heap)),
                        abort: x.abort,
                        result: declaration_result(kind, x.result),
                    })
                } else {
                    None
                }
            },
            Statement::Conditional { condition, if_block, else_block } => {
                match condition_value(condition.value, x, fuel - 2) {
                    Some(b) => match taken_block(b, if_block, else_block) {
                        Some(blk) => block_run(blk, with_result(x, None), fuel - 1),
                        None => Some(with_result(x, None)),
                    },
                    None => None,
                }
            },
            Statement::WhileLoop { condition, block } => {
                match condition_value(condition.value, x, fuel - 2) {
                    Some(b) => if b {
                        while_run(condition.value, block, with_result(x, None), fuel - 1, fuel)
                    } else {
                        Some(with_result(x, None))
                    },
                    None => None,
                }
            },
            Statement::ForLoop { declaration, condition, assignment, block } => {
                let x1 = open_scope(x);
                let started = match declaration {
                    Some(d) => stmt_run(d.value, x1, fuel - 1),
                    None => Some(x1),
                };
                match started {
                    Some(y) => if y.abort is None {
                        match condition_value(condition.value, y, fuel - 2) {
                            Some(b) => {
                                let finished = if b {
                                    for_run(condition.value, block, assignment, with_result(y, None), fuel - 1, fuel)
                                } else {
                                    Some(with_result(y, None))
                                };
                                close_opt(finished)
                            },
                            None => None,
                        }
                    } else {
                        None
                    },
                    None => None,
                }
            },
            Statement::Switch { expressions, cases } => {
                if no_aliases(expressions@) {
                    close_opt(cases_run(cases@, 0, open_scope(x), fuel - 1))
                } else {
                    None
                }
            },
            Statement::FunctionCall { .. } => None,
        }
    }
}

/// What running a block within `fuel` steps from `x` gives: its statements run in a new
/// scope, in order, until one leaves something pending; then the scope is closed.
pub open spec fn block_run(blk: Node<Block>, x: RunState, fuel: int) -> Option<RunState>
    decreases fuel, 0int,
{
    if fuel <= 0 {
        None
    } else {
        close_opt(seq_run(blk.value.0@, 0, open_scope(x), fuel - 1))
    }
}

/// Running statements `i..` of `stmts` in order, each within `fuel` steps, until one
/// leaves something pending.
pub open spec fn seq_run(stmts: Seq<Node<Statement>>, i: int, x: RunState, fuel: int) -> Option<RunState>
    decreases fuel, stmts.len() - i + 1,
{
    if i < 0 || i >= stmts.len() || x.abort is Some {
        Some(x)
    } else {
        match stmt_run(stmts[i].value, x, fuel) {
            Some(y) => seq_run(stmts, i + 1, y, fuel),
            None => None,
        }
    }
}

/// The rounds of a `while` loop whose condition held, at most `budget` of them: the block
/// runs; a `break` ends the loop and is cleared, a `return` ends it and stays pending, a
/// `continue` is cleared; otherwise the condition is tested again.
pub open spec fn while_run(c: crate::ast::Expression, blk: Node<Block>, x: RunState, fuel: int, budget: int) -> Option<RunState>
    decreases fuel, budget + 1,
{
    if budget <= 0 {
        None
    } else {
        match block_run(blk, x, fuel) {
            Some(y) => match y.abort {
                Some(AbortState::Break) => Some(with_abort(y, None)),
                Some(AbortState::Return) => Some(y),
                _ => {
                    let y1 = with_abort(y, None);
                    match condition_value(c, y1, fuel - 1) {
                        Some(b) => if b {
                            while_run(c, blk, with_result(y1, None), fuel, budget - 1)
                        } else {
                            Some(with_result(y1, None))
                        },
                        None => None,
                    }
                },
            },
            None => None,
        }
    }
}

/// The rounds of a `for` loop whose condition held, at most `budget` of them: as for a
/// `while` loop, with the step run after the block unless the loop ends (also after a
/// `continue`).
pub open spec fn for_run(
    c: crate::ast::Expression,
    blk: Node<Block>,
    step: Option<Box<Node<Statement>>>,
    x: RunState,
    fuel: int,
    budget: int,
) -> Option<RunState>
    decreases fuel, budget + 1,
{
    if budget <= 0 {
        None
    } else {
        match block_run(blk, x, fuel) {
            Some(y) => match y.abort {
                Some(AbortState::Break) => Some(with_abort(y, None)),
                Some(AbortState::Return) => Some(y),
                _ => {
                    let y1 = with_abort(y, None);
                    let stepped = match step {
                        Some(a) => stmt_run(a.value, y1, fuel),
                        None => Some(y1),
                    };
                    match stepped {
                        Some(y2) => if y2.abort is None {
                            match condition_value(c, y2, fuel - 1) {
                                Some(b) => if b {
                                    for_run(c, blk, step, with_result(y2, None), fuel, budget - 1)
                                } else {
                                    Some(with_result(y2, None))
                                },
                                None => None,
                            }
                        } else {
                            None
                        },
                        None => None,
                    }
                },
            },
            None => None,
        }
    }
}

/// Running one switch case within `fuel` steps: its condition is tested and, when it
/// holds, its block runs.
pub open spec fn case_run(case: Node<SwitchCase>, x: RunState, fuel: int) -> Option<RunState>
    decreases fuel, 0int,
{
    if fuel <= 0 {
        None
    } else {
        match condition_value(case.value.condition.value, x, fuel - 2) {
            Some(b) => if b {
                block_run(case.value.block, with_result(x, None), fuel - 1)
            } else {
                Some(with_result(x, None))
            },
            None => None,
        }
    }
}

/// Running the cases `j..` of a switch in order: each runs when its condition holds, so
/// control falls through to later cases until one leaves something pending; a `break` is
/// then cleared, a `continue` or `return` stays pending.
pub open spec fn cases_run(cases: Seq<Node<SwitchCase>>, j: int, x: RunState, fuel: int) -> Option<RunState>
    decreases fuel, cases.len() - j + 1,
{
    if j < 0 || j >= cases.len() {
        Some(x)
    } else {
        match case_run(cases[j], x, fuel) {
            Some(y) => match y.abort {
                Some(AbortState::Break) => Some(with_abort(y, None)),
                Some(_) => Some(y),
                None => cases_run(cases, j + 1, y, fuel),
            },
            None => None,
        }
    }
}

/// Running the statements `j..` of a function body: in order, each within `fuel` steps,
/// until one returns (the `return` is then cleared); a `break` or `continue` left pending
/// is an error (`None`).
pub open spec fn body_run(stmts: Seq<Node<Statement>>, j: int, x: RunState, fuel: int) -> Option<RunState>
    decreases stmts.len() - j,
{
    if j < 0 || j >= stmts.len() {
        Some(x)
    } else if x.abort == Some(AbortState::Return) {
        Some(with_abort(x, None))
    } else {
        match stmt_run(stmts[j].value, x, fuel) {
            Some(y) => if y.abort == Some(AbortState::Break) || y.abort == Some(AbortState::Continue) {
                None
            } else {
                body_run(stmts, j + 1, y, fuel)
            },
            None => None,
        }
    }
}

/// Running the statements `i..` of a program: in order, each within `fuel` steps, on the
/// state the previous one left; a statement that leaves something pending is an error
/// (`None`).
pub open spec fn program_run(stmts: Seq<Node<Statement>>, i: int, x: RunState, fuel: int) -> Option<RunState>
    decreases stmts.len() - i,
{
    if i < 0 || i >= stmts.len() {
        Some(x)
    } else {
        match stmt_run(stmts[i].value, x, fuel) {
            Some(y) => if y.abort is Some {
                None
            } else {
                program_run(stmts, i + 1, y, fuel)
            },
            None => None,
        }
    }
}

/// What a program leaves pending when it stops early: running statements `i..` in order as
/// `program_run` does, the pending state of the first statement that leaves one.
pub open spec fn program_abort(stmts: Seq<Node<Statement>>, i: int, x: RunState, fuel: int) -> Option<AbortState>
    decreases stmts.len() - i,
{
    if i < 0 || i >= stmts.len() {
        None
    } else {
        match stmt_run(stmts[i].value, x, fuel) {
            Some(y) => if y.abort is Some {
                y.abort
            } else {
                program_abort(stmts, i + 1, y, fuel)
            },
            None => None,
        }
    }
}

} // verus!
