use vstd::prelude::*;
use crate::alu::FloatUnit;
use crate::ast::{Argument, Block, Expression, Literal, Node, Parameter, Program, Statement, SwitchCase, SwitchExpression};
use crate::errors::{ErrorSeverity, InterpreterError};
use crate::interpreter::{same_but_innermost, AbortState, Host, Interpreter};
use crate::interpreter::expressions::{constant_elements, evaluable, expression_result_ok, literal_value, pure_expr, value_of};
use crate::interpreter::declarations::{declaration_mistyped, declaration_succeeds, declared_type_matches, declared_value};
use crate::interpreter::semantics::{bound_value, program_abort, program_run, state_of, stmt_run};
use crate::stack::scope::redeclare_message;
use crate::value::default_for;
use crate::ast::VariableDeclarationKind;
use crate::interpreter::statements::{block_may_break_deep, block_outcome, cases_false_before, first_non_boolean_case, first_true_case_breaks, init_declares, loop_stack, lemma_same_but_innermost_refl, lemma_same_but_innermost_trans, may_break_deep, no_aliases, step_is_assignment, stmt_succeeds, taken_block};
use crate::span::Span;
use crate::stack::scope_manager::scopes_binding;
use crate::stack::stack::top_scopes;
use crate::text::string_of;
use crate::types::Type;
use crate::value::ValueView;

verus! {

impl<'a, R: FloatUnit + Host> Interpreter<'a, R> {
    /// Runs the top-level statements of `program` in order. A statement that leaves a
    /// break, continue or return pending ends the run with an error.
    pub fn exec_program(&mut self, program: &Program, fuel: u64) -> (r: Result<(), InterpreterError>)
        requires
            old(self).inv(),
        ensures
            final(self).kept(*old(self)),
            r is Ok ==> same_but_innermost(old(self).stack@, final(self).stack@),
            r is Ok && (old(self).abort_state is None || program.statements@.len() > 0) ==> final(self).abort_state is None,
            program.statements@.len() == 0 ==> r is Ok && *final(self) == *old(self),
            fuel > 0 && program.statements@.len() > 0 ==> match program.statements@[0].value {
                Statement::Break => r matches Err(e) && e.message@ == "Break called outside 'for' or 'switch'."@,
                Statement::Continue => r matches Err(e) && e.message@ == "Continue called outside 'for' or 'while'."@,
                _ => true,
            },
            fuel > 0 && program.statements@.len() > 0 && program.statements@[0].value is Return
                && (program.statements@[0].value->Return_0 matches Some(e) ==> evaluable(e.value, old(self).stack@, old(self).heap@, fuel - 1))
                ==> (r matches Err(e) && e.message@ == "Return called outside a function."@),
            fuel > 2 && old(self).abort_state is None && program.statements@.len() > 0
                && (program.statements@[0].value matches Statement::Conditional { condition, if_block, .. }
                    && evaluable(condition.value, old(self).stack@, old(self).heap@, fuel - 2)
                    && value_of(condition.value, old(self).stack@, old(self).heap@) == Some(ValueView::Bool(true))
                    && if_block.value.0@.len() > 0 && if_block.value.0@[0].value is Break)
                ==> (r matches Err(e) && e.message@ == "Break called outside 'for' or 'switch'."@),
            old(self).abort_state is None && program.statements@.len() == 1
                && (program.statements@[0].value is Assignment || program.statements@[0].value is Declaration)
                && stmt_succeeds(program.statements@[0].value, old(self).stack@, old(self).heap@, fuel as int) ==> r is Ok
                    && (program.statements@[0].value matches Statement::Assignment { identifier, value, .. } ==> (
                        scopes_binding(top_scopes(final(self).stack@), identifier.value@) matches Some(c)
                        && Some(final(self).heap@.cells[c as int]) == value_of(value.value, old(self).stack@, old(self).heap@))),
            old(self).abort_state is None && (program_run(program.statements@, 0, state_of(*old(self)), fuel as int) matches Some(y))
                ==> r is Ok && state_of(*final(self)) == program_run(program.statements@, 0, state_of(*old(self)), fuel as int).unwrap(),
            old(self).abort_state is None ==> match program_abort(program.statements@, 0, state_of(*old(self)), fuel as int) {
                Some(AbortState::Break) => r matches Err(e) && e.message@ == "Break called outside 'for' or 'switch'."@,
                Some(AbortState::Continue) => r matches Err(e) && e.message@ == "Continue called outside 'for' or 'while'."@,
                Some(AbortState::Return) => r matches Err(e) && e.message@ == "Return called outside a function."@,
                None => true,
            },
    {
        proof { lemma_same_but_innermost_refl(self.stack@); }
        let ghost x0 = state_of(*old(self));
        let ghost tgt = if old(self).abort_state is None { program_run(program.statements@, 0, x0, fuel as int) } else { None };
        let ghost pa = if old(self).abort_state is None { program_abort(program.statements@, 0, x0, fuel as int) } else { None };
        let n = program.statements.len();
        let mut i: usize = 0;
        while i < n
            invariant
                0 <= i <= n,
                n == program.statements@.len(),
                x0 == state_of(*old(self)),
                tgt == (if old(self).abort_state is None { program_run(program.statements@, 0, x0, fuel as int) } else { None }),
                pa == (if old(self).abort_state is None { program_abort(program.statements@, 0, x0, fuel as int) } else { None }),
                tgt is Some ==> tgt == program_run(program.statements@, i as int, state_of(*self), fuel as int),
                pa is Some ==> pa == program_abort(program.statements@, i as int, state_of(*self), fuel as int),
                self.kept(*old(self)),
                same_but_innermost(old(self).stack@, self.stack@),
                i > 0 ==> self.abort_state is None,
                i == 0 ==> *self == *old(self),
                fuel > 0 && i > 0 ==> !(program.statements@[0].value is Break) && !(program.statements@[0].value is Continue),
                i > 0 && old(self).abort_state is None && program.statements@.len() == 1
                    && stmt_succeeds(program.statements@[0].value, old(self).stack@, old(self).heap@, fuel as int)
                    ==> (program.statements@[0].value matches Statement::Assignment { identifier, value, .. } ==> (
                        scopes_binding(top_scopes(self.stack@), identifier.value@) matches Some(c)
                        && Some(self.heap@.cells[c as int]) == value_of(value.value, old(self).stack@, old(self).heap@))),
                fuel > 0 && i > 0 ==> !(program.statements@[0].value is Return
                    && (program.statements@[0].value->Return_0 matches Some(e) ==> evaluable(e.value, old(self).stack@, old(self).heap@, fuel - 1))),
                fuel > 2 && i > 0 && old(self).abort_state is None ==> !(program.statements@[0].value matches Statement::Conditional { condition, if_block, .. }
                    && evaluable(condition.value, old(self).stack@, old(self).heap@, fuel - 2)
                    && value_of(condition.value, old(self).stack@, old(self).heap@) == Some(ValueView::Bool(true))
                    && if_block.value.0@.len() > 0 && if_block.value.0@[0].value is Break),
            decreases n - i,
        {
            let statement = &program.statements[i];
            let ghost before = self.stack@;
            self.visit_statement_with(statement, fuel)?;
            proof { lemma_same_but_innermost_trans(old(self).stack@, before, self.stack@); }
            match self.abort_state {
                Some(AbortState::Break) => {
                    return Err(InterpreterError::at(
                        ErrorSeverity::HIGH,
                        string_of("Break called outside 'for' or 'switch'."),
                        self.span,
                    ));
                },
                Some(AbortState::Continue) => {
                    return Err(InterpreterError::at(
                        ErrorSeverity::HIGH,
                        string_of("Continue called outside 'for' or 'while'."),
                        self.span,
                    ));
                },
                Some(AbortState::Return) => {
                    return Err(InterpreterError::at(
                        ErrorSeverity::HIGH,
                        string_of("Return called outside a function."),
                        self.span,
                    ));
                },
                None => {},
            }
            i = i + 1;
        }
        Ok(())
    }

    /// Runs the program the interpreter was made for.
    pub fn visit_program(&mut self) -> (r: Result<(), InterpreterError>)
        requires
            old(self).inv(),
        ensures
            final(self).kept(*old(self)),
            r is Ok ==> same_but_innermost(old(self).stack@, final(self).stack@),
            r is Ok && (old(self).abort_state is None || old(self).program.statements@.len() > 0) ==> final(self).abort_state is None,
            old(self).program.statements@.len() == 0 ==> r is Ok && *final(self) == *old(self),
            (u64::MAX as int) > 0 && old(self).program.statements@.len() > 0 ==> match old(self).program.statements@[0].value {
                Statement::Break => r matches Err(e) && e.message@ == "Break called outside 'for' or 'switch'."@,
                Statement::Continue => r matches Err(e) && e.message@ == "Continue called outside 'for' or 'while'."@,
                _ => true,
            },
            (u64::MAX as int) > 0 && old(self).program.statements@.len() > 0 && old(self).program.statements@[0].value is Return
                && (old(self).program.statements@[0].value->Return_0 matches Some(e) ==> evaluable(e.value, old(self).stack@, old(self).heap@, (u64::MAX as int) - 1))
                ==> (r matches Err(e) && e.message@ == "Return called outside a function."@),
            (u64::MAX as int) > 2 && old(self).abort_state is None && old(self).program.statements@.len() > 0
                && (old(self).program.statements@[0].value matches Statement::Conditional { condition, if_block, .. }
                    && evaluable(condition.value, old(self).stack@, old(self).heap@, (u64::MAX as int) - 2)
                    && value_of(condition.value, old(self).stack@, old(self).heap@) == Some(ValueView::Bool(true))
                    && if_block.value.0@.len() > 0 && if_block.value.0@[0].value is Break)
                ==> (r matches Err(e) && e.message@ == "Break called outside 'for' or 'switch'."@),
            old(self).abort_state is None && old(self).program.statements@.len() == 1
                && (old(self).program.statements@[0].value is Assignment || old(self).program.statements@[0].value is Declaration)
                && stmt_succeeds(old(self).program.statements@[0].value, old(self).stack@, old(self).heap@, (u64::MAX as int)) ==> r is Ok
                    && (old(self).program.statements@[0].value matches Statement::Assignment { identifier, value, .. } ==> (
                        scopes_binding(top_scopes(final(self).stack@), identifier.value@) matches Some(c)
                        && Some(final(self).heap@.cells[c as int]) == value_of(value.value, old(self).stack@, old(self).heap@))),
            old(self).abort_state is None && (program_run(old(self).program.statements@, 0, state_of(*old(self)), (u64::MAX as int)) matches Some(y))
                ==> r is Ok && state_of(*final(self)) == program_run(old(self).program.statements@, 0, state_of(*old(self)), (u64::MAX as int)).unwrap(),
            old(self).abort_state is None ==> match program_abort(old(self).program.statements@, 0, state_of(*old(self)), (u64::MAX as int)) {
                Some(AbortState::Break) => r matches Err(e) && e.message@ == "Break called outside 'for' or 'switch'."@,
                Some(AbortState::Continue) => r matches Err(e) && e.message@ == "Continue called outside 'for' or 'while'."@,
                Some(AbortState::Return) => r matches Err(e) && e.message@ == "Return called outside a function."@,
                None => true,
            },
    {
        let program: &'a Program = self.program;
        self.exec_program(program, u64::MAX)
    }

    /// Runs a statement with a step budget, recording its span first.
    pub fn visit_statement_with(&mut self, statement: &Node<Statement>, fuel: u64) -> (r: Result<(), InterpreterError>)
        requires
            old(self).inv(),
        ensures
            (stmt_run(statement.value, state_of(*old(self)), fuel as int) matches Some(y))
                ==> r is Ok && state_of(*final(self)) == stmt_run(statement.value, state_of(*old(self)), fuel as int).unwrap(),
            fuel > 1 && (statement.value matches Statement::Declaration { identifier, kind }
                && declaration_succeeds(kind, old(self).stack@, old(self).heap@, fuel - 1)
                && scopes_binding(top_scopes(old(self).stack@), identifier.value@) is Some)
                ==> final(self).stack@ == old(self).stack@
                    && final(self).heap@ == old(self).heap@.with_cell(bound_value(statement.value->Declaration_kind, old(self).stack@, old(self).heap@)),
            fuel > 1 && (statement.value matches Statement::Declaration { kind, .. }
                && declaration_mistyped(kind, old(self).stack@, old(self).heap@, fuel - 1))
                ==> (r matches Err(e) && e.message@ == "Cannot assign value to variable '"@ + statement.value->Declaration_identifier.value@ + "'."@)
                    && final(self).stack@ == old(self).stack@ && final(self).heap@ == old(self).heap@,
            fuel > 1 && (statement.value matches Statement::WhileLoop { condition, .. }
                && evaluable(condition.value, old(self).stack@, old(self).heap@, fuel - 2)
                && !(value_of(condition.value, old(self).stack@, old(self).heap@).unwrap() is Bool))
                ==> (r matches Err(e) && e.message@ == "Condition in '"@ + "while statement"@ + "' has to evaluate to a valid boolean."@)
                    && final(self).heap@ == old(self).heap@,
            final(self).kept(*old(self)),
            r is Ok ==> same_but_innermost(old(self).stack@, final(self).stack@),
            r is Ok && !(statement.value is Declaration) ==> final(self).stack@ == old(self).stack@,
            stmt_succeeds(statement.value, old(self).stack@, old(self).heap@, fuel as int) ==> r is Ok,
            fuel > 1 && (statement.value matches Statement::Declaration { identifier, kind }
                && declaration_succeeds(kind, old(self).stack@, old(self).heap@, fuel - 1)
                && scopes_binding(top_scopes(old(self).stack@), identifier.value@) is Some)
                ==> (r matches Err(e) && e.message@ == redeclare_message(statement.value->Declaration_identifier.value@)),
            r is Err && (statement.value matches Statement::Declaration { kind, .. }
                && declared_value(kind, old(self).stack@, old(self).heap@) is Some) ==> final(self).stack@ == old(self).stack@,
            r is Ok ==> (statement.value matches Statement::Declaration { kind, .. } ==> (
                declared_value(kind, old(self).stack@, old(self).heap@) matches Some(d) ==> (!(d is Vector) ==> declared_type_matches(kind, d)))),
            r is Ok ==> (statement.value matches Statement::Declaration { identifier, kind } ==> (
                kind matches VariableDeclarationKind::TYPE { var_type, value: None } ==> (!(var_type.value is Vector)
                    ==> (scopes_binding(top_scopes(final(self).stack@), identifier.value@) matches Some(c)
                        && Some(final(self).heap@.cells[c as int]) == default_for(var_type.value, 0))))),
            r is Ok && old(self).abort_state is None && final(self).abort_state == Some(AbortState::Break)
                ==> may_break_deep(statement.value),
            r is Ok && old(self).abort_state is None && pure_expr(statement.value->WhileLoop_condition.value)
                && statement.value is WhileLoop && final(self).abort_state is None
                && !block_may_break_deep(statement.value->WhileLoop_block)
                && value_of(statement.value->WhileLoop_condition.value, final(self).stack@, final(self).heap@) is Some
                ==> value_of(statement.value->WhileLoop_condition.value, final(self).stack@, final(self).heap@)
                    == Some(ValueView::Bool(false)),
            fuel > 3 && old(self).abort_state is None && statement.value is Switch
                && no_aliases(statement.value->Switch_expressions@) ==> (
                (cases_false_before(statement.value->Switch_cases@, statement.value->Switch_cases@.len() as int,
                    old(self).stack@, old(self).heap@, fuel - 3)
                    ==> r is Ok && final(self).heap@ == old(self).heap@ && final(self).abort_state is None)
                && (forall|k: int| #[trigger] first_true_case_breaks(statement.value->Switch_cases@, k, old(self).stack@, old(self).heap@, fuel - 3)
                    ==> r is Ok && final(self).heap@ == old(self).heap@ && final(self).abort_state is None)),
            fuel > 3 && old(self).abort_state is None && statement.value is Switch
                && no_aliases(statement.value->Switch_expressions@) ==> (forall|k: int|
                    #[trigger] first_non_boolean_case(statement.value->Switch_cases@, k, old(self).stack@, old(self).heap@, fuel - 3)
                    ==> (r matches Err(e) && e.message@ == "Condition in '"@ + "switch case"@ + "' has to evaluate to a valid boolean."@)),
            fuel > 2 && (statement.value matches Statement::ForLoop { declaration: None, condition, .. }
                && evaluable(condition.value, old(self).stack@, old(self).heap@, fuel - 2)
                && !(value_of(condition.value, old(self).stack@, old(self).heap@).unwrap() is Bool))
                ==> (r matches Err(e) && e.message@ == "Condition in '"@ + "for statement"@ + "' has to evaluate to a valid boolean."@),
            r is Ok && (statement.value matches Statement::Declaration { identifier, kind }
                && declared_value(kind, old(self).stack@, old(self).heap@) is Some) ==> final(self).stack@
                == crate::stack::stack::declared(old(self).stack@, statement.value->Declaration_identifier.value@, old(self).heap@.cells.len() as usize),
            r is Ok && old(self).abort_state is None && statement.value is ForLoop
                && init_declares(statement.value->ForLoop_declaration, old(self).stack@, old(self).heap@)
                && step_is_assignment(statement.value->ForLoop_assignment)
                && pure_expr(statement.value->ForLoop_condition.value)
                && final(self).abort_state is None
                && !block_may_break_deep(statement.value->ForLoop_block)
                && value_of(statement.value->ForLoop_condition.value,
                    loop_stack(statement.value->ForLoop_declaration, old(self).stack@, old(self).heap@), final(self).heap@) is Some
                ==> value_of(statement.value->ForLoop_condition.value,
                    loop_stack(statement.value->ForLoop_declaration, old(self).stack@, old(self).heap@), final(self).heap@)
                    == Some(ValueView::Bool(false)),
            r is Ok && old(self).abort_state is None && statement.value is ForLoop
                && statement.value->ForLoop_declaration is None
                && step_is_assignment(statement.value->ForLoop_assignment)
                && pure_expr(statement.value->ForLoop_condition.value)
                && final(self).abort_state is None
                && !block_may_break_deep(statement.value->ForLoop_block)
                && value_of(statement.value->ForLoop_condition.value, final(self).stack@, final(self).heap@) is Some
                ==> value_of(statement.value->ForLoop_condition.value, final(self).stack@, final(self).heap@)
                    == Some(ValueView::Bool(false)),
            r is Ok && old(self).abort_state is None && (statement.value is Assignment || statement.value is Declaration)
                ==> final(self).abort_state is None,
            r is Ok && (statement.value matches Statement::Assignment { accessors, .. } && accessors@.len() == 0)
                ==> final(self).last_result is None,
            r is Ok ==> (statement.value matches Statement::Assignment { identifier, value, accessors } ==> (
                accessors@.len() == 0 && pure_expr(value.value) && value_of(value.value, old(self).stack@, old(self).heap@) is Some
                    ==> (scopes_binding(top_scopes(old(self).stack@), identifier.value@) matches Some(c)
                        && final(self).heap@ == old(self).heap@.set_cell(c as int,
                            value_of(value.value, old(self).stack@, old(self).heap@).unwrap())))),
            fuel > 0 && (statement.value is Break || statement.value is Continue) ==> final(self).heap@ == old(self).heap@
                && final(self).stack@ == old(self).stack@,
            fuel > 0 && statement.value is Break ==> r is Ok && final(self).abort_state == Some(AbortState::Break),
            fuel > 0 && statement.value is Continue ==> r is Ok && final(self).abort_state == Some(AbortState::Continue),
            r is Ok && statement.value is Return ==> final(self).abort_state == Some(AbortState::Return),
            r is Ok && statement.value is WhileLoop && old(self).abort_state is None ==> final(self).abort_state is None
                || final(self).abort_state == Some(AbortState::Return),
            fuel > 0 ==> (statement.value matches Statement::Return(None) ==> r is Ok && final(self).last_result is None),
            r is Ok ==> (statement.value matches Statement::Declaration { identifier, kind } ==> (
                declared_value(kind, old(self).stack@, old(self).heap@) matches Some(d) ==> (!(d is Vector)
                    ==> (scopes_binding(top_scopes(final(self).stack@), identifier.value@) matches Some(c)
                        && final(self).heap@.cells[c as int] == d)))),
            r is Ok ==> (statement.value matches Statement::Assignment { identifier, value, accessors } ==> (
                accessors@.len() == 0 && pure_expr(value.value) && value_of(value.value, old(self).stack@, old(self).heap@) is Some
                    ==> (scopes_binding(top_scopes(final(self).stack@), identifier.value@) matches Some(c)
                        && Some(final(self).heap@.cells[c as int]) == value_of(value.value, old(self).stack@, old(self).heap@)))),
            r is Ok ==> (statement.value matches Statement::Return(Some(e)) ==> (
                pure_expr(e.value) && value_of(e.value, old(self).stack@, old(self).heap@) is Some
                    ==> final(self).heap@ == old(self).heap@ && (final(self).last_result matches Some(w)
                        && Some(w@) == value_of(e.value, old(self).stack@, old(self).heap@)))),
            r is Ok ==> (statement.value matches Statement::Conditional { condition, else_block, .. } ==> (
                pure_expr(condition.value) && value_of(condition.value, old(self).stack@, old(self).heap@) is Some ==> (
                    value_of(condition.value, old(self).stack@, old(self).heap@) matches Some(ValueView::Bool(b))
                    && (!b && else_block is None ==> final(self).heap@ == old(self).heap@
                        && (old(self).abort_state is None ==> final(self).abort_state is None))))),
            fuel > 2 && old(self).abort_state is None ==> (statement.value matches Statement::Conditional { condition, if_block, else_block }
                ==> (evaluable(condition.value, old(self).stack@, old(self).heap@, fuel - 2)
                    && value_of(condition.value, old(self).stack@, old(self).heap@) is Some
                    ==> match value_of(condition.value, old(self).stack@, old(self).heap@) {
                        Some(ValueView::Bool(b)) => match taken_block(b, if_block, else_block) {
                            None => r is Ok && final(self).heap@ == old(self).heap@ && final(self).abort_state is None,
                            Some(blk) => block_outcome(blk, old(self).stack@, old(self).heap@, fuel - 2, r, *final(self)),
                        },
                        _ => r matches Err(e) && e.message@ == "Condition in '"@ + "if statement"@ + "' has to evaluate to a valid boolean."@,
                    })),
            r is Ok ==> (statement.value matches Statement::WhileLoop { condition, .. } ==> (
                pure_expr(condition.value) && value_of(condition.value, old(self).stack@, old(self).heap@) is Some ==> (
                    value_of(condition.value, old(self).stack@, old(self).heap@) matches Some(ValueView::Bool(b))
                    && (!b ==> final(self).heap@ == old(self).heap@
                        && (old(self).abort_state is None ==> final(self).abort_state is None))))),
    {
        self.span = statement.span;
        self.exec_statement(statement, fuel)
    }

    /// Runs a statement.
    pub fn visit_statement(&mut self, statement: &Node<Statement>) -> (r: Result<(), InterpreterError>)
        requires
            old(self).inv(),
        ensures
            (stmt_run(statement.value, state_of(*old(self)), (u64::MAX as int)) matches Some(y))
                ==> r is Ok && state_of(*final(self)) == stmt_run(statement.value, state_of(*old(self)), (u64::MAX as int)).unwrap(),
            (u64::MAX as int) > 1 && (statement.value matches Statement::Declaration { identifier, kind }
                && declaration_succeeds(kind, old(self).stack@, old(self).heap@, (u64::MAX as int) - 1)
                && scopes_binding(top_scopes(old(self).stack@), identifier.value@) is Some)
                ==> final(self).stack@ == old(self).stack@
                    && final(self).heap@ == old(self).heap@.with_cell(bound_value(statement.value->Declaration_kind, old(self).stack@, old(self).heap@)),
            (u64::MAX as int) > 1 && (statement.value matches Statement::Declaration { kind, .. }
                && declaration_mistyped(kind, old(self).stack@, old(self).heap@, (u64::MAX as int) - 1))
                ==> (r matches Err(e) && e.message@ == "Cannot assign value to variable '"@ + statement.value->Declaration_identifier.value@ + "'."@)
                    && final(self).stack@ == old(self).stack@ && final(self).heap@ == old(self).heap@,
            (u64::MAX as int) > 1 && (statement.value matches Statement::WhileLoop { condition, .. }
                && evaluable(condition.value, old(self).stack@, old(self).heap@, (u64::MAX as int) - 2)
                && !(value_of(condition.value, old(self).stack@, old(self).heap@).unwrap() is Bool))
                ==> (r matches Err(e) && e.message@ == "Condition in '"@ + "while statement"@ + "' has to evaluate to a valid boolean."@)
                    && final(self).heap@ == old(self).heap@,
            final(self).kept(*old(self)),
            r is Ok ==> same_but_innermost(old(self).stack@, final(self).stack@),
            r is Ok && !(statement.value is Declaration) ==> final(self).stack@ == old(self).stack@,
            stmt_succeeds(statement.value, old(self).stack@, old(self).heap@, (u64::MAX as int)) ==> r is Ok,
            (u64::MAX as int) > 1 && (statement.value matches Statement::Declaration { identifier, kind }
                && declaration_succeeds(kind, old(self).stack@, old(self).heap@, (u64::MAX as int) - 1)
                && scopes_binding(top_scopes(old(self).stack@), identifier.value@) is Some)
                ==> (r matches Err(e) && e.message@ == redeclare_message(statement.value->Declaration_identifier.value@)),
            r is Err && (statement.value matches Statement::Declaration { kind, .. }
                && declared_value(kind, old(self).stack@, old(self).heap@) is Some) ==> final(self).stack@ == old(self).stack@,
            r is Ok ==> (statement.value matches Statement::Declaration { kind, .. } ==> (
                declared_value(kind, old(self).stack@, old(self).heap@) matches Some(d) ==> (!(d is Vector) ==> declared_type_matches(kind, d)))),
            r is Ok ==> (statement.value matches Statement::Declaration { identifier, kind } ==> (
                kind matches VariableDeclarationKind::TYPE { var_type, value: None } ==> (!(var_type.value is Vector)
                    ==> (scopes_binding(top_scopes(final(self).stack@), identifier.value@) matches Some(c)
                        && Some(final(self).heap@.cells[c as int]) == default_for(var_type.value, 0))))),
            r is Ok && old(self).abort_state is None && final(self).abort_state == Some(AbortState::Break)
                ==> may_break_deep(statement.value),
            r is Ok && old(self).abort_state is None && pure_expr(statement.value->WhileLoop_condition.value)
                && statement.value is WhileLoop && final(self).abort_state is None
                && !block_may_break_deep(statement.value->WhileLoop_block)
                && value_of(statement.value->WhileLoop_condition.value, final(self).stack@, final(self).heap@) is Some
                ==> value_of(statement.value->WhileLoop_condition.value, final(self).stack@, final(self).heap@)
                    == Some(ValueView::Bool(false)),
            (u64::MAX as int) > 3 && old(self).abort_state is None && statement.value is Switch
                && no_aliases(statement.value->Switch_expressions@) ==> (
                (cases_false_before(statement.value->Switch_cases@, statement.value->Switch_cases@.len() as int,
                    old(self).stack@, old(self).heap@, (u64::MAX as int) - 3)
                    ==> r is Ok && final(self).heap@ == old(self).heap@ && final(self).abort_state is None)
                && (forall|k: int| #[trigger] first_true_case_breaks(statement.value->Switch_cases@, k, old(self).stack@, old(self).heap@, (u64::MAX as int) - 3)
                    ==> r is Ok && final(self).heap@ == old(self).heap@ && final(self).abort_state is None)),
            (u64::MAX as int) > 3 && old(self).abort_state is None && statement.value is Switch
                && no_aliases(statement.value->Switch_expressions@) ==> (forall|k: int|
                    #[trigger] first_non_boolean_case(statement.value->Switch_cases@, k, old(self).stack@, old(self).heap@, (u64::MAX as int) - 3)
                    ==> (r matches Err(e) && e.message@ == "Condition in '"@ + "switch case"@ + "' has to evaluate to a valid boolean."@)),
            (u64::MAX as int) > 2 && (statement.value matches Statement::ForLoop { declaration: None, condition, .. }
                && evaluable(condition.value, old(self).stack@, old(self).heap@, (u64::MAX as int) - 2)
                && !(value_of(condition.value, old(self).stack@, old(self).heap@).unwrap() is Bool))
                ==> (r matches Err(e) && e.message@ == "Condition in '"@ + "for statement"@ + "' has to evaluate to a valid boolean."@),
            r is Ok && (statement.value matches Statement::Declaration { identifier, kind }
                && declared_value(kind, old(self).stack@, old(self).heap@) is Some) ==> final(self).stack@
                == crate::stack::stack::declared(old(self).stack@, statement.value->Declaration_identifier.value@, old(self).heap@.cells.len() as usize),
            r is Ok && old(self).abort_state is None && statement.value is ForLoop
                && init_declares(statement.value->ForLoop_declaration, old(self).stack@, old(self).heap@)
                && step_is_assignment(statement.value->ForLoop_assignment)
                && pure_expr(statement.value->ForLoop_condition.value)
                && final(self).abort_state is None
                && !block_may_break_deep(statement.value->ForLoop_block)
                && value_of(statement.value->ForLoop_condition.value,
                    loop_stack(statement.value->ForLoop_declaration, old(self).stack@, old(self).heap@), final(self).heap@) is Some
                ==> value_of(statement.value->ForLoop_condition.value,
                    loop_stack(statement.value->ForLoop_declaration, old(self).stack@, old(self).heap@), final(self).heap@)
                    == Some(ValueView::Bool(false)),
            r is Ok && old(self).abort_state is None && statement.value is ForLoop
                && statement.value->ForLoop_declaration is None
                && step_is_assignment(statement.value->ForLoop_assignment)
                && pure_expr(statement.value->ForLoop_condition.value)
                && final(self).abort_state is None
                && !block_may_break_deep(statement.value->ForLoop_block)
                && value_of(statement.value->ForLoop_condition.value, final(self).stack@, final(self).heap@) is Some
                ==> value_of(statement.value->ForLoop_condition.value, final(self).stack@, final(self).heap@)
                    == Some(ValueView::Bool(false)),
            r is Ok && old(self).abort_state is None && (statement.value is Assignment || statement.value is Declaration)
                ==> final(self).abort_state is None,
            r is Ok && (statement.value matches Statement::Assignment { accessors, .. } && accessors@.len() == 0)
                ==> final(self).last_result is None,
            r is Ok ==> (statement.value matches Statement::Assignment { identifier, value, accessors } ==> (
                accessors@.len() == 0 && pure_expr(value.value) && value_of(value.value, old(self).stack@, old(self).heap@) is Some
                    ==> (scopes_binding(top_scopes(old(self).stack@), identifier.value@) matches Some(c)
                        && final(self).heap@ == old(self).heap@.set_cell(c as int,
                            value_of(value.value, old(self).stack@, old(self).heap@).unwrap())))),
            (u64::MAX as int) > 0 && (statement.value is Break || statement.value is Continue) ==> final(self).heap@ == old(self).heap@
                && final(self).stack@ == old(self).stack@,
            (u64::MAX as int) > 0 && statement.value is Break ==> r is Ok && final(self).abort_state == Some(AbortState::Break),
            (u64::MAX as int) > 0 && statement.value is Continue ==> r is Ok && final(self).abort_state == Some(AbortState::Continue),
            r is Ok && statement.value is Return ==> final(self).abort_state == Some(AbortState::Return),
            r is Ok && statement.value is WhileLoop && old(self).abort_state is None ==> final(self).abort_state is None
                || final(self).abort_state == Some(AbortState::Return),
            (u64::MAX as int) > 0 ==> (statement.value matches Statement::Return(None) ==> r is Ok && final(self).last_result is None),
            r is Ok ==> (statement.value matches Statement::Declaration { identifier, kind } ==> (
                declared_value(kind, old(self).stack@, old(self).heap@) matches Some(d) ==> (!(d is Vector)
                    ==> (scopes_binding(top_scopes(final(self).stack@), identifier.value@) matches Some(c)
                        && final(self).heap@.cells[c as int] == d)))),
            r is Ok ==> (statement.value matches Statement::Assignment { identifier, value, accessors } ==> (
                accessors@.len() == 0 && pure_expr(value.value) && value_of(value.value, old(self).stack@, old(self).heap@) is Some
                    ==> (scopes_binding(top_scopes(final(self).stack@), identifier.value@) matches Some(c)
                        && Some(final(self).heap@.cells[c as int]) == value_of(value.value, old(self).stack@, old(self).heap@)))),
            r is Ok ==> (statement.value matches Statement::Return(Some(e)) ==> (
                pure_expr(e.value) && value_of(e.value, old(self).stack@, old(self).heap@) is Some
                    ==> final(self).heap@ == old(self).heap@ && (final(self).last_result matches Some(w)
                        && Some(w@) == value_of(e.value, old(self).stack@, old(self).heap@)))),
            r is Ok ==> (statement.value matches Statement::Conditional { condition, else_block, .. } ==> (
                pure_expr(condition.value) && value_of(condition.value, old(self).stack@, old(self).heap@) is Some ==> (
                    value_of(condition.value, old(self).stack@, old(self).heap@) matches Some(ValueView::Bool(b))
                    && (!b && else_block is None ==> final(self).heap@ == old(self).heap@
                        && (old(self).abort_state is None ==> final(self).abort_state is None))))),
            (u64::MAX as int) > 2 && old(self).abort_state is None ==> (statement.value matches Statement::Conditional { condition, if_block, else_block }
                ==> (evaluable(condition.value, old(self).stack@, old(self).heap@, (u64::MAX as int) - 2)
                    && value_of(condition.value, old(self).stack@, old(self).heap@) is Some
                    ==> match value_of(condition.value, old(self).stack@, old(self).heap@) {
                        Some(ValueView::Bool(b)) => match taken_block(b, if_block, else_block) {
                            None => r is Ok && final(self).heap@ == old(self).heap@ && final(self).abort_state is None,
                            Some(blk) => block_outcome(blk, old(self).stack@, old(self).heap@, (u64::MAX as int) - 2, r, *final(self)),
                        },
                        _ => r matches Err(e) && e.message@ == "Condition in '"@ + "if statement"@ + "' has to evaluate to a valid boolean."@,
                    })),
            r is Ok ==> (statement.value matches Statement::WhileLoop { condition, .. } ==> (
                pure_expr(condition.value) && value_of(condition.value, old(self).stack@, old(self).heap@) is Some ==> (
                    value_of(condition.value, old(self).stack@, old(self).heap@) matches Some(ValueView::Bool(b))
                    && (!b ==> final(self).heap@ == old(self).heap@
                        && (old(self).abort_state is None ==> final(self).abort_state is None))))),
    {
        self.visit_statement_with(statement, u64::MAX)
    }

    /// Evaluates an expression, leaving its value as the pending result.
    pub fn visit_expression(&mut self, expression: &Node<Expression>) -> (r: Result<(), InterpreterError>)
        requires
            old(self).inv(),
        ensures
            r is Ok && old(self).abort_state is None ==> final(self).abort_state is None,
            final(self).kept(*old(self)),
            r is Ok ==> final(self).stack@ == old(self).stack@,
            r is Ok ==> (final(self).last_result matches Some(w) ==> expression_result_ok(expression.value, w@)),
            r is Ok && pure_expr(expression.value) ==> final(self).heap@ == old(self).heap@
                && (value_of(expression.value, old(self).stack@, old(self).heap@) is Some ==> (final(self).last_result matches Some(w)
                    && Some(w@) == value_of(expression.value, old(self).stack@, old(self).heap@))),
            evaluable(expression.value, old(self).stack@, old(self).heap@, u64::MAX as int) ==> r is Ok,
    {
        self.span = expression.span;
        self.eval_expression(expression, u64::MAX)
    }

    /// Evaluates the expression of an argument.
    pub fn visit_argument(&mut self, argument: &Node<Argument>) -> (r: Result<(), InterpreterError>)
        requires
            old(self).inv(),
        ensures
            final(self).kept(*old(self)),
            r is Ok ==> final(self).stack@ == old(self).stack@,
            r is Ok && old(self).abort_state is None ==> final(self).abort_state is None,
            r is Ok ==> (final(self).last_result matches Some(w) ==> expression_result_ok(argument.value.value.value, w@)),
            r is Ok && pure_expr(argument.value.value.value) ==> final(self).heap@ == old(self).heap@
                && (value_of(argument.value.value.value, old(self).stack@, old(self).heap@) is Some ==> (final(self).last_result matches Some(w)
                    && Some(w@) == value_of(argument.value.value.value, old(self).stack@, old(self).heap@))),
            evaluable(argument.value.value.value, old(self).stack@, old(self).heap@, u64::MAX as int) ==> r is Ok,
    {
        self.visit_expression(&argument.value.value)
    }

    /// Runs a block in a scope of its own.
    pub fn visit_block(&mut self, block: &Node<Block>) -> (r: Result<(), InterpreterError>)
        requires
            old(self).inv(),
        ensures
            final(self).kept(*old(self)),
            r is Ok ==> final(self).stack@ == old(self).stack@,
            block.value.0@.len() == 0 || old(self).abort_state is Some ==> r is Ok
                && final(self).heap@ == old(self).heap@ && final(self).abort_state == old(self).abort_state,
            old(self).abort_state is None && block.value.0@.len() > 0 && block.value.0@[0].value is Break
                ==> r is Ok && final(self).heap@ == old(self).heap@ && final(self).abort_state == Some(AbortState::Break),
            old(self).abort_state is None && block.value.0@.len() > 0 && block.value.0@[0].value is Continue
                ==> r is Ok && final(self).heap@ == old(self).heap@ && final(self).abort_state == Some(AbortState::Continue),
    {
        self.exec_block(block, u64::MAX)
    }

    /// A parameter needs no work at run time.
    pub fn visit_parameter(&mut self, parameter: &Node<Parameter>) -> (r: Result<(), InterpreterError>)
        ensures
            r is Ok,
            *final(self) == *old(self),
    {
        self.visit_type(&parameter.value.parameter_type)
    }

    /// Runs a switch case.
    pub fn visit_switch_case(&mut self, switch_case: &Node<SwitchCase>) -> (r: Result<(), InterpreterError>)
        requires
            old(self).inv(),
        ensures
            final(self).kept(*old(self)),
            r is Ok ==> final(self).stack@ == old(self).stack@,
            evaluable(switch_case.value.condition.value, old(self).stack@, old(self).heap@, u64::MAX - 2) ==> match value_of(
                switch_case.value.condition.value,
                old(self).stack@,
                old(self).heap@,
            ) {
                Some(ValueView::Bool(false)) => r is Ok && final(self).heap@ == old(self).heap@
                    && (old(self).abort_state is None ==> final(self).abort_state is None),
                Some(ValueView::Bool(true)) => (switch_case.value.block.value.0@.len() == 0 ==> r is Ok
                    && final(self).heap@ == old(self).heap@ && (old(self).abort_state is None ==> final(self).abort_state is None))
                    && (old(self).abort_state is None && switch_case.value.block.value.0@.len() > 0
                        && switch_case.value.block.value.0@[0].value is Break ==> r is Ok
                        && final(self).abort_state == Some(AbortState::Break)),
                _ => r matches Err(e) && e.message@ == "Condition in '"@ + "switch case"@ + "' has to evaluate to a valid boolean."@,
            },
    {
        self.exec_switch_case(switch_case, u64::MAX)
    }

    /// Runs a switch expression.
    pub fn visit_switch_expression(&mut self, switch_expression: &Node<SwitchExpression>) -> (r: Result<(), InterpreterError>)
        requires
            old(self).inv(),
        ensures
            final(self).kept(*old(self)),
            r is Ok ==> same_but_innermost(old(self).stack@, final(self).stack@),
            switch_expression.value.alias is None ==> r is Ok && final(self).stack@ == old(self).stack@
                && final(self).heap@ == old(self).heap@,
            r is Ok ==> (switch_expression.value.alias matches Some(alias)
                ==> scopes_binding(top_scopes(final(self).stack@), alias.value@) is Some),
            (switch_expression.value.alias matches Some(alias)
                && evaluable(switch_expression.value.expression.value, old(self).stack@, old(self).heap@, u64::MAX - 1)
                && scopes_binding(top_scopes(old(self).stack@), alias.value@) is None
                && old(self).stack@.last().len() > 0) ==> r is Ok
                && (scopes_binding(top_scopes(final(self).stack@), switch_expression.value.alias.unwrap().value@) matches Some(c)
                    && Some(final(self).heap@.cells[c as int]) == value_of(switch_expression.value.expression.value, old(self).stack@, old(self).heap@)),
    {
        self.exec_switch_expression(switch_expression, u64::MAX)
    }

    /// A type needs no work at run time.
    pub fn visit_type(&mut self, node_type: &Node<Type>) -> (r: Result<(), InterpreterError>)
        ensures
            r is Ok,
            *final(self) == *old(self),
    {
        Ok(())
    }

    /// The value of a literal becomes the pending result.
    pub fn visit_literal(&mut self, literal: &Literal) -> (r: Result<(), InterpreterError>)
        requires
            old(self).inv(),
        ensures
            r is Ok,
            final(self).kept(*old(self)),
            final(self).last_result matches Some(v) && v@ == literal_value(*literal),
            final(self).stack@ == old(self).stack@,
            final(self).heap@ == old(self).heap@,
    {
        self.eval_literal(literal);
        Ok(())
    }

    /// Evaluates a vector literal.
    pub fn visit_vector_literal(&mut self, expressions: &Vec<Box<Node<Expression>>>) -> (r: Result<(), InterpreterError>)
        requires
            old(self).inv(),
        ensures
            final(self).kept(*old(self)),
            r is Ok ==> final(self).stack@ == old(self).stack@,
            r is Ok && old(self).abort_state is None ==> final(self).abort_state is None,
            r is Ok ==> (final(self).last_result matches Some(v) && v@ matches ValueView::Vector { values, .. }
                && final(self).heap@.vectors[values as int].len() == expressions@.len()),
            constant_elements(expressions@, old(self).stack@, old(self).heap@, u64::MAX - 1) ==> r is Ok
                && (final(self).last_result matches Some(v) && v@ matches ValueView::Vector { values, .. }
                && forall|j: int| 0 <= j < expressions@.len() ==> Some(final(self).heap@.cells[
                    #[trigger] final(self).heap@.vectors[values as int][j] as int]) == value_of(expressions@[j].value, old(self).stack@, old(self).heap@)),
    {
        self.eval_vector_literal(expressions, u64::MAX)
    }

    /// The value of a variable becomes the pending result.
    pub fn visit_variable(&mut self, variable: &str, span: Span) -> (r: Result<(), InterpreterError>)
        requires
            old(self).inv(),
        ensures
            final(self).kept(*old(self)),
            final(self).stack@ == old(self).stack@,
            final(self).heap@ == old(self).heap@,
            match crate::stack::scope_manager::scopes_binding(crate::stack::stack::top_scopes(old(self).stack@), variable@) {
                Some(c) => r is Ok && (final(self).last_result matches Some(v) && v@ == old(self).heap@.cells[c as int]),
                None => r is Err,
            },
    {
        self.eval_variable(variable, span)
    }
}

} // verus!

