#![allow(unused_imports)]
#![allow(dead_code)]

use raptor::alu::FloatUnit;
use raptor::ast::{
    Accessor, Argument, Block, Expression, FunctionDeclaration, Literal, Node, Parameter, PassedBy, Program, Statement,
    StdFunction, SwitchCase, SwitchExpression, VariableDeclarationKind,
};
use raptor::heap::Heap;
use raptor::interpreter::{AbortState, Host, Interpreter};
use raptor::span::Span;
use raptor::types::Type;
use raptor::value::Value;

/// Double arithmetic with Rust's `f64`; no host functions.
struct Runtime;

impl FloatUnit for Runtime {
    fn add(&self, a: u64, b: u64) -> u64 {
        (f64::from_bits(a) + f64::from_bits(b)).to_bits()
    }

    fn sub(&self, a: u64, b: u64) -> u64 {
        (f64::from_bits(a) - f64::from_bits(b)).to_bits()
    }

    fn mul(&self, a: u64, b: u64) -> u64 {
        (f64::from_bits(a) * f64::from_bits(b)).to_bits()
    }

    fn div(&self, a: u64, b: u64) -> u64 {
        (f64::from_bits(a) / f64::from_bits(b)).to_bits()
    }

    fn from_signed(&self, x: i64) -> u64 {
        (x as f64).to_bits()
    }

    fn from_unsigned(&self, x: u64) -> u64 {
        (x as f64).to_bits()
    }

    fn truncate(&self, a: u64) -> i128 {
        f64::from_bits(a).trunc() as i128
    }

    fn render(&self, a: u64) -> String {
        f64::from_bits(a).to_string()
    }

    fn parse(&self, s: &str) -> Option<u64> {
        s.parse::<f64>().ok().map(|x| x.to_bits())
    }
}

impl Host for Runtime {
    fn call_std(&mut self, name: &str, _arguments: Vec<Value>, _heap: &Heap, _span: Span) -> Result<Option<Value>, String> {
        Err(format!("no host function `{}`", name))
    }
}

fn bits(x: f64) -> u64 {
    x.to_bits()
}

fn sp() -> Span {
    Span::default_span()
}

fn node<T>(value: T) -> Node<T> {
    Node { value, span: sp() }
}

fn setup_program() -> Program {
    Program { statements: vec![], functions: vec![], std_functions: vec![], extern_functions: vec![], types: vec![] }
}

fn create_interpreter(program: &Program) -> Interpreter<'_, Runtime> {
    Interpreter::new(program, Runtime)
}

fn program_with_functions(functions: Vec<Node<FunctionDeclaration>>) -> Program {
    Program { statements: vec![], functions, std_functions: vec![], extern_functions: vec![], types: vec![] }
}

fn program_with_statements(statements: Vec<Node<Statement>>) -> Program {
    Program { statements, functions: vec![], std_functions: vec![], extern_functions: vec![], types: vec![] }
}

/// Binds `name` to a new cell holding `value` in the innermost scope.
fn declare(interpreter: &mut Interpreter<'_, Runtime>, name: &str, value: Value) {
    let c = interpreter.heap.alloc_cell(value);
    let _ = interpreter.stack.declare_variable(name, c, sp());
}

/// The value held by the cell bound to `name`.
fn variable(interpreter: &Interpreter<'_, Runtime>, name: &str) -> Value {
    let c = interpreter.stack.get_variable(name, sp()).unwrap();
    interpreter.heap.read(c).clone()
}

/// A new vector whose elements are new cells holding `values`.
fn new_vector(interpreter: &mut Interpreter<'_, Runtime>, values: Vec<Value>) -> usize {
    let mut cells = Vec::new();
    for v in values {
        cells.push(interpreter.heap.alloc_cell(v));
    }
    interpreter.heap.alloc_vector(cells)
}

/// The value of element `i` of vector `id`.
fn element(interpreter: &Interpreter<'_, Runtime>, id: usize, i: usize) -> Value {
    interpreter.heap.read(interpreter.heap.vector_cell(id, i)).clone()
}

/// The default value of a scalar type.
fn default_of(t: &Type) -> Value {
    let mut heap = Heap::new();
    Value::default_value(t, sp(), &mut heap).unwrap()
}


#[test]
fn control_flow_for_loop() {
    // i64 total = 0;
    // for (i64 i = 1; i <= 5; i = i + 1) {total = total + i;}
    let ast = node(Statement::ForLoop {
        declaration: Some(Box::new(node(Statement::Declaration { identifier: node(String::from("i")), kind: VariableDeclarationKind::TYPE { var_type: node(Type::I64), value: Some(node(Expression::Literal(Literal::I64(1)))) } }))),
        condition: node(Expression::LessEqual(
            Box::new(node(Expression::Variable(String::from("i")))),
            Box::new(node(Expression::Literal(Literal::I64(5))))
        )),
        assignment: Some(Box::new(node(Statement::Assignment {
            identifier: node(String::from("i")),
            value: node(Expression::Addition(
                Box::new(node(Expression::Variable(String::from("i")))),
                Box::new(node(Expression::Literal(Literal::I64(1))))
            )),
            accessors: vec![]
        }))),
        block: node(Block(vec![node(Statement::Assignment {
            identifier: node(String::from("total")),
            value: node(Expression::Addition(
                Box::new(node(Expression::Variable(String::from("total")))),
                Box::new(node(Expression::Variable(String::from("i"))))
            )),
            accessors: vec![]
        }),])),
    });

    let program = setup_program();
    let mut interpreter = create_interpreter(&program);
    let _ = declare(&mut interpreter, "total", Value::I64(0));

    assert!(interpreter.visit_statement(&ast).is_ok());
    assert_eq!(
        variable(&interpreter, "total"),
        Value::I64(15)
    );
}

#[test]
fn control_flow_for_loop_second_variant() {
    // i64 total = 0;
    // i64 i = 1;
    // for (;i <= 5;) {total = total + i; i = i + 1}
    let ast = node(Statement::ForLoop {
        declaration: None,
        condition: node(Expression::LessEqual(
            Box::new(node(Expression::Variable(String::from("i")))),
            Box::new(node(Expression::Literal(Literal::I64(5))))
        )),
        assignment: None,
        block: node(Block(vec![
            node(Statement::Assignment {
                identifier: node(String::from("total")),
                value: node(Expression::Addition(
                    Box::new(node(Expression::Variable(String::from("total")))),
                    Box::new(node(Expression::Variable(String::from("i"))))
                )),
                accessors: vec![]
            }),
            node(Statement::Assignment {
                identifier: node(String::from("i")),
                value: node(Expression::Addition(
                    Box::new(node(Expression::Variable(String::from("i")))),
                    Box::new(node(Expression::Literal(Literal::I64(1))))
                )),
                accessors: vec![]
            }),
        ])),
    });

    let program = setup_program();
    let mut interpreter = create_interpreter(&program);
    let _ = declare(&mut interpreter, "total", Value::I64(0));
    let _ = declare(&mut interpreter, "i", Value::I64(1));

    assert!(interpreter.visit_statement(&ast).is_ok());
    assert_eq!(
        variable(&interpreter, "total"),
        Value::I64(15)
    );
}

#[test]
fn control_flow_for_loop_bad_condition_type() {
    // for (;1;) {}
    let ast = node(Statement::ForLoop {
        declaration: None,
        condition: node(Expression::Literal(Literal::I64(1))),
        assignment: None,
        block: node(Block(vec![])),
    });

    let program = setup_program();
    let mut interpreter = create_interpreter(&program);

    assert!(interpreter.visit_statement(&ast).is_err());
}

#[test]
fn control_flow_for_loop_with_break() {
    // i64 i = 0;
    // for (;true; i = i + 1) {if (i == 5) {break;}}
    let ast = node(Statement::ForLoop {
        declaration: None,
        condition: node(Expression::Literal(Literal::True)),
        assignment: Some(Box::new(node(Statement::Assignment {
            identifier: node(String::from("i")),
            value: node(Expression::Addition(
                Box::new(node(Expression::Variable(String::from("i")))),
                Box::new(node(Expression::Literal(Literal::I64(1))))
            )),
            accessors: vec![]
        }))),
        block: node(Block(vec![node(Statement::Conditional {
            condition: node(Expression::Equal(
                Box::new(node(Expression::Variable(String::from("i")))),
                Box::new(node(Expression::Literal(Literal::I64(5))))
            )),
            if_block: node(Block(vec![node(Statement::Break)])),
            else_block: None,
        })])),
    });

    let program = setup_program();
    let mut interpreter = create_interpreter(&program);
    let _ = declare(&mut interpreter, "i", Value::I64(0));

    assert!(interpreter.visit_statement(&ast).is_ok());
    assert_eq!(interpreter.abort_state, None);
    assert_eq!(variable(&interpreter, "i"), Value::I64(5));
}

#[test]
fn control_flow_for_loop_with_continue() {
    // i64 total = 0;
    // for (i64 i = 0; i < 5; i = i + 1) { if (i == 2) { continue; } total = total + i; }
    let ast = node(Statement::ForLoop {
        declaration: Some(Box::new(node(Statement::Declaration { identifier: node(String::from("i")), kind: VariableDeclarationKind::TYPE { var_type: node(Type::I64), value: Some(node(Expression::Literal(Literal::I64(0)))) } }))),
        condition: node(Expression::Less(
            Box::new(node(Expression::Variable(String::from("i")))),
            Box::new(node(Expression::Literal(Literal::I64(5))))
        )),
        assignment: Some(Box::new(node(Statement::Assignment {
            identifier: node(String::from("i")),
            value: node(Expression::Addition(
                Box::new(node(Expression::Variable(String::from("i")))),
                Box::new(node(Expression::Literal(Literal::I64(1))))
            )),
            accessors: vec![]
        }))),
        block: node(Block(vec![
            node(Statement::Conditional {
                condition: node(Expression::Equal(
                    Box::new(node(Expression::Variable(String::from("i")))),
                    Box::new(node(Expression::Literal(Literal::I64(2))))
                )),
                if_block: node(Block(vec![node(Statement::Continue)])),
                else_block: None,
            }),
            node(Statement::Assignment {
                identifier: node(String::from("total")),
                value: node(Expression::Addition(
                    Box::new(node(Expression::Variable(String::from("total")))),
                    Box::new(node(Expression::Variable(String::from("i"))))
                )),
                accessors: vec![]
            }),
        ])),
    });

    let program = setup_program();
    let mut interpreter = create_interpreter(&program);
    let _ = declare(&mut interpreter, "total", Value::I64(0));

    assert!(interpreter.visit_statement(&ast).is_ok());
    // 0+1+3+4 = 8 (pomija i == 2)
    assert_eq!(
        variable(&interpreter, "total"),
        Value::I64(8)
    );
    assert_eq!(interpreter.abort_state, None);
}

fn create_test_switch_case() -> Node<Statement> {
    // switch (x) {
    //      (x < 15) {
    //          result = 15;
    //      } (x < 10) {
    //          result = 10;
    //          break;
    //      } (x < 5) {
    //          result = 5;
    //      }
    // }

    fn create_assignment(val: i64) -> Node<Statement> {
        node(Statement::Assignment {
            identifier: node(String::from("result")),
            value: node(Expression::Literal(Literal::I64(val))),
            accessors: vec![]
        })
    }

    fn create_condition(val: i64) -> Node<Expression> {
        node(Expression::Less(
            Box::new(node(Expression::Variable(String::from("x")))),
            Box::new(node(Expression::Literal(Literal::I64(val)))),
        ))
    }

    node(Statement::Switch {
        expressions: vec![node(SwitchExpression {
            expression: node(Expression::Variable(String::from("x"))),
            alias: None,
        }),],
        cases: vec![
            node(SwitchCase {
                condition: create_condition(15),
                block: node(Block(vec![create_assignment(15)])),
            }),
            node(SwitchCase {
                condition: create_condition(10),
                block: node(Block(vec![create_assignment(10), node(Statement::Break),])),
            }),
            node(SwitchCase {
                condition: create_condition(5),
                block: node(Block(vec![create_assignment(5)])),
            }),
        ],
    })
}

#[test]
fn control_flow_switch_enters() {
    let program = setup_program();
    let mut interpreter = create_interpreter(&program);
    let _ = declare(&mut interpreter, "x", Value::I64(12));
    let _ = declare(&mut interpreter, "result", default_of(&Type::I64));

    let switch_case = &create_test_switch_case();
    let _ = interpreter.visit_statement(switch_case);

    assert_eq!(
        variable(&interpreter, "result"),
        Value::I64(15)
    );
    assert_eq!(interpreter.abort_state, None);
}

#[test]
fn control_flow_switch_breaks() {
    let program = setup_program();
    let mut interpreter = create_interpreter(&program);
    let _ = declare(&mut interpreter, "x", Value::I64(3));
    let _ = declare(&mut interpreter, "result", default_of(&Type::I64));

    let switch_case = &create_test_switch_case();
    let _ = interpreter.visit_statement(switch_case);

    assert_eq!(
        variable(&interpreter, "result"),
        Value::I64(10)
    );
    assert_eq!(interpreter.abort_state, None);
}

#[test]
fn control_flow_switch_no_entry() {
    let program = setup_program();
    let mut interpreter = create_interpreter(&program);
    let _ = declare(&mut interpreter, "x", Value::I64(2137));
    let _ = declare(&mut interpreter, "result", default_of(&Type::I64));

    let switch_case = &create_test_switch_case();
    let _ = interpreter.visit_statement(switch_case);

    assert_eq!(
        variable(&interpreter, "result"),
        Value::I64(0)
    );
    assert_eq!(interpreter.abort_state, None);
}

#[test]
fn control_flow_switch_bad_condition_type() {
    // switch () {
    //      (1) -> {}
    // }
    let program = setup_program();
    let mut interpreter = create_interpreter(&program);

    let ast = node(Statement::Switch {
        expressions: vec![],
        cases: vec![node(SwitchCase {
            condition: node(Expression::Literal(Literal::I64(1))),
            block: node(Block(vec![])),
        }),],
    });

    assert!(interpreter.visit_statement(&ast).is_err())
}

#[test]
fn control_flow_break_called_outside_for_or_switch() {
    let program = Program { statements: vec![node(Statement::Conditional {
            condition: node(Expression::Literal(Literal::True)),
            if_block: node(Block(vec![node(Statement::Break),])),
            else_block: None,
        })], functions: vec![], std_functions: vec![], extern_functions: vec![], types: vec![] };

    let mut interpreter = Interpreter::new(&program, Runtime);
    assert!(interpreter.interpret().is_err())
}

#[test]
fn control_flow_break_called_outside_for_or_switch_in_function() {
    let program = setup_program();
    let mut interpreter = create_interpreter(&program);

    let ast = FunctionDeclaration {
        identifier: node(String::from("fun")),
        parameters: vec![],
        return_type: node(Type::Void),
        block: node(Block(vec![node(Statement::Break),])),
    };

    assert!(interpreter.execute_function(&ast, sp()).is_err())
}

#[test]
fn control_flow_return_called_outside_for_or_switch() {
    let program = Program { statements: vec![node(Statement::Conditional {
            condition: node(Expression::Literal(Literal::True)),
            if_block: node(Block(vec![node(Statement::Return(None)),])),
            else_block: None,
        })], functions: vec![], std_functions: vec![], extern_functions: vec![], types: vec![] };

    let mut interpreter = Interpreter::new(&program, Runtime);
    assert!(interpreter.interpret().is_err())
}

#[test]
fn control_flow_continue_called_outside_for_or_while() {
    let program = Program { statements: vec![node(Statement::Conditional {
            condition: node(Expression::Literal(Literal::True)),
            if_block: node(Block(vec![node(Statement::Continue),])),
            else_block: None,
        })], functions: vec![], std_functions: vec![], extern_functions: vec![], types: vec![] };

    let mut interpreter = Interpreter::new(&program, Runtime);
    assert!(interpreter.interpret().is_err())
}

#[test]
fn control_flow_continue_called_outside_for_or_while_in_function() {
    let program = setup_program();
    let mut interpreter = create_interpreter(&program);

    let ast = FunctionDeclaration {
        identifier: node(String::from("fun")),
        parameters: vec![],
        return_type: node(Type::Void),
        block: node(Block(vec![node(Statement::Continue),])),
    };

    assert!(interpreter.execute_function(&ast, sp()).is_err())
}

#[test]
fn control_flow_while_loop() {
    // i64 i = 0;
    // while (i < 5) { i = i + 1; }
    let ast = node(Statement::WhileLoop {
        condition: node(Expression::Less(
            Box::new(node(Expression::Variable(String::from("i")))),
            Box::new(node(Expression::Literal(Literal::I64(5))))
        )),
        block: node(Block(vec![node(Statement::Assignment {
            identifier: node(String::from("i")),
            value: node(Expression::Addition(
                Box::new(node(Expression::Variable(String::from("i")))),
                Box::new(node(Expression::Literal(Literal::I64(1))))
            )),
            accessors: vec![]
        }),])),
    });

    let program = setup_program();
    let mut interpreter = create_interpreter(&program);
    let _ = declare(&mut interpreter, "i", Value::I64(0));

    assert!(interpreter.visit_statement(&ast).is_ok());
    assert_eq!(variable(&interpreter, "i"), Value::I64(5));
    assert_eq!(interpreter.abort_state, None);
}

