#![allow(unused_imports)]
#![allow(dead_code)]

use raptor::alu::FloatUnit;
use raptor::ast::{
    Accessor, Argument, Block, Expression, FunctionDeclaration, Literal, Node, Parameter, PassedBy, Program, Statement,
    StdFunction, SwitchCase, SwitchExpression, VariableDeclarationKind,
};
use raptor::heap::Heap;
use raptor::interpreter::{AbortState, Host, Interpreter};
use raptor::span::Span;
use raptor::types::Type;
use raptor::value::Value;

/// Double arithmetic with Rust's `f64`; no host functions.
struct Runtime;

impl FloatUnit for Runtime {
    fn add(&self, a: u64, b: u64) -> u64 {
        (f64::from_bits(a) + f64::from_bits(b)).to_bits()
    }

    fn sub(&self, a: u64, b: u64) -> u64 {
        (f64::from_bits(a) - f64::from_bits(b)).to_bits()
    }

    fn mul(&self, a: u64, b: u64) -> u64 {
        (f64::from_bits(a) * f64::from_bits(b)).to_bits()
    }

    fn div(&self, a: u64, b: u64) -> u64 {
        (f64::from_bits(a) / f64::from_bits(b)).to_bits()
    }

    fn from_signed(&self, x: i64) -> u64 {
        (x as f64).to_bits()
    }

    fn from_unsigned(&self, x: u64) -> u64 {
        (x as f64).to_bits()
    }

    fn truncate(&self, a: u64) -> i128 {
        f64::from_bits(a).trunc() as i128
    }

    fn render(&self, a: u64) -> String {
        f64::from_bits(a).to_string()
    }

    fn parse(&self, s: &str) -> Option<u64> {
        s.parse::<f64>().ok().map(|x| x.to_bits())
    }
}

impl Host for Runtime {
    fn call_std(&mut self, name: &str, _arguments: Vec<Value>, _heap: &Heap, _span: Span) -> Result<Option<Value>, String> {
        Err(format!("no host function `{}`", name))
    }
}

fn bits(x: f64) -> u64 {
    x.to_bits()
}

fn sp() -> Span {
    Span::default_span()
}

fn node<T>(value: T) -> Node<T> {
    Node { value, span: sp() }
}

fn setup_program() -> Program {
    Program { statements: vec![], functions: vec![], std_functions: vec![], extern_functions: vec![], types: vec![] }
}

fn create_interpreter(program: &Program) -> Interpreter<'_, Runtime> {
    Interpreter::new(program, Runtime)
}

fn program_with_functions(functions: Vec<Node<FunctionDeclaration>>) -> Program {
    Program { statements: vec![], functions, std_functions: vec![], extern_functions: vec![], types: vec![] }
}

fn program_with_statements(statements: Vec<Node<Statement>>) -> Program {
    Program { statements, functions: vec![], std_functions: vec![], extern_functions: vec![], types: vec![] }
}

/// Binds `name` to a new cell holding `value` in the innermost scope.
fn declare(interpreter: &mut Interpreter<'_, Runtime>, name: &str, value: Value) {
    let c = interpreter.heap.alloc_cell(value);
    let _ = interpreter.stack.declare_variable(name, c, sp());
}

/// The value held by the cell bound to `name`.
fn variable(interpreter: &Interpreter<'_, Runtime>, name: &str) -> Value {
    let c = interpreter.stack.get_variable(name, sp()).unwrap();
    interpreter.heap.read(c).clone()
}

/// A new vector whose elements are new cells holding `values`.
fn new_vector(interpreter: &mut Interpreter<'_, Runtime>, values: Vec<Value>) -> usize {
    let mut cells = Vec::new();
    for v in values {
        cells.push(interpreter.heap.alloc_cell(v));
    }
    interpreter.heap.alloc_vector(cells)
}

/// The value of element `i` of vector `id`.
fn element(interpreter: &Interpreter<'_, Runtime>, id: usize, i: usize) -> Value {
    interpreter.heap.read(interpreter.heap.vector_cell(id, i)).clone()
}

/// The default value of a scalar type.
fn default_of(t: &Type) -> Value {
    let mut heap = Heap::new();
    Value::default_value(t, sp(), &mut heap).unwrap()
}

#[test]
fn interpreter_interpret_casting() {
    let ast = node(Expression::Casting {
        value: Box::new(node(Expression::Literal(Literal::I64(2)))),
        to_type: node(Type::F64),
    });

    let exp = Some(Value::F64(bits(2.0)));

    let program = setup_program();
    let mut interpreter = create_interpreter(&program);

    let _ = interpreter.visit_expression(&ast);
    assert_eq!(interpreter.last_result, exp);
}

#[test]
fn interpreter_interpret_boolean_negation() {
    let ast = node(Expression::BooleanNegation(Box::new(node(Expression::Literal(Literal::False)))));

    let exp = Some(Value::Bool(true));

    let program = setup_program();
    let mut interpreter = create_interpreter(&program);

    let _ = interpreter.visit_expression(&ast);
    assert_eq!(interpreter.last_result, exp);
}

#[test]
fn interpreter_interpret_arithmetic_negation() {
    let ast = node(Expression::ArithmeticNegation(Box::new(node(Expression::Literal(Literal::I64(5))))));

    let exp = Some(Value::I64(-5));

    let program = setup_program();
    let mut interpreter = create_interpreter(&program);

    let _ = interpreter.visit_expression(&ast);
    assert_eq!(interpreter.last_result, exp);
}

#[test]
fn interpreter_interpret_addition() {
    let ast = node(Expression::Addition(
        Box::new(node(Expression::Literal(Literal::I64(5)))),
        Box::new(node(Expression::Literal(Literal::I64(2))))
    ));

    let exp = Some(Value::I64(7));

    let program = setup_program();
    let mut interpreter = create_interpreter(&program);

    let _ = interpreter.visit_expression(&ast);
    assert_eq!(interpreter.last_result, exp);
}

#[test]
fn interpreter_interpret_subtraction() {
    let ast = node(Expression::Subtraction(
        Box::new(node(Expression::Literal(Literal::I64(5)))),
        Box::new(node(Expression::Literal(Literal::I64(2))))
    ));

    let exp = Some(Value::I64(3));

    let program = setup_program();
    let mut interpreter = create_interpreter(&program);

    let _ = interpreter.visit_expression(&ast);
    assert_eq!(interpreter.last_result, exp);
}

#[test]
fn interpreter_interpret_multiplication() {
    let ast = node(Expression::Multiplication(
        Box::new(node(Expression::Literal(Literal::I64(5)))),
        Box::new(node(Expression::Literal(Literal::I64(2))))
    ));

    let exp = Some(Value::I64(10));

    let program = setup_program();
    let mut interpreter = create_interpreter(&program);

    let _ = interpreter.visit_expression(&ast);
    assert_eq!(interpreter.last_result, exp);
}

#[test]
fn interpreter_interpret_division() {
    let ast = node(Expression::Division(
        Box::new(node(Expression::Literal(Literal::I64(5)))),
        Box::new(node(Expression::Literal(Literal::I64(2))))
    ));

    let exp = Some(Value::I64(2));

    let program = setup_program();
    let mut interpreter = create_interpreter(&program);

    let _ = interpreter.visit_expression(&ast);
    assert_eq!(interpreter.last_result, exp);
}

#[test]
fn interpreter_interpret_concatenation() {
    let ast = node(Expression::Concatenation(
        Box::new(node(Expression::Literal(Literal::True))),
        Box::new(node(Expression::Literal(Literal::False)))
    ));

    let exp = Some(Value::Bool(false));

    let program = setup_program();
    let mut interpreter = create_interpreter(&program);

    let _ = interpreter.visit_expression(&ast);
    assert_eq!(interpreter.last_result, exp);
}

#[test]
fn interpreter_interpret_alternative() {
    let ast = node(Expression::Alternative(
        Box::new(node(Expression::Literal(Literal::True))),
        Box::new(node(Expression::Literal(Literal::False)))
    ));

    let exp = Some(Value::Bool(true));

    let program = setup_program();
    let mut interpreter = create_interpreter(&program);

    let _ = interpreter.visit_expression(&ast);
    assert_eq!(interpreter.last_result, exp);
}

#[test]
fn interpreter_interpret_greater() {
    let ast = node(Expression::Greater(
        Box::new(node(Expression::Literal(Literal::I64(5)))),
        Box::new(node(Expression::Literal(Literal::I64(5))))
    ));

    let exp = Some(Value::Bool(false));

    let program = setup_program();
    let mut interpreter = create_interpreter(&program);

    let _ = interpreter.visit_expression(&ast);
    assert_eq!(interpreter.last_result, exp);
}

#[test]
fn interpreter_interpret_greater_equal() {
    let ast = node(Expression::GreaterEqual(
        Box::new(node(Expression::Literal(Literal::I64(5)))),
        Box::new(node(Expression::Literal(Literal::I64(5))))
    ));

    let exp = Some(Value::Bool(true));

    let program = setup_program();
    let mut interpreter = create_interpreter(&program);

    let _ = interpreter.visit_expression(&ast);
    assert_eq!(interpreter.last_result, exp);
}

#[test]
fn interpreter_interpret_less() {
    let ast = node(Expression::Less(
        Box::new(node(Expression::Literal(Literal::I64(5)))),
        Box::new(node(Expression::Literal(Literal::I64(5))))
    ));

    let exp = Some(Value::Bool(false));

    let program = setup_program();
    let mut interpreter = create_interpreter(&program);

    let _ = interpreter.visit_expression(&ast);
    assert_eq!(interpreter.last_result, exp);
}
#[test]
fn interpreter_interpret_less_equal() {
    let ast = node(Expression::LessEqual(
        Box::new(node(Expression::Literal(Literal::I64(5)))),
        Box::new(node(Expression::Literal(Literal::I64(5))))
    ));

    let exp = Some(Value::Bool(true));

    let program = setup_program();
    let mut interpreter = create_interpreter(&program);

    let _ = interpreter.visit_expression(&ast);
    assert_eq!(interpreter.last_result, exp);
}

#[test]
fn interpreter_interpret_equal() {
    let ast = node(Expression::Equal(
        Box::new(node(Expression::Literal(Literal::I64(5)))),
        Box::new(node(Expression::Literal(Literal::I64(5))))
    ));

    let exp = Some(Value::Bool(true));

    let program = setup_program();
    let mut interpreter = create_interpreter(&program);

    let _ = interpreter.visit_expression(&ast);
    assert_eq!(interpreter.last_result, exp);
}

#[test]
fn interpreter_interpret_not_equal() {
    let ast = node(Expression::NotEqual(
        Box::new(node(Expression::Literal(Literal::I64(5)))),
        Box::new(node(Expression::Literal(Literal::I64(5))))
    ));

    let exp = Some(Value::Bool(false));

    let program = setup_program();
    let mut interpreter = create_interpreter(&program);

    let _ = interpreter.visit_expression(&ast);
    assert_eq!(interpreter.last_result, exp);
}

#[test]
fn interpreter_interpret_literal() {
    let ast = node(Expression::Literal(Literal::I64(5)));

    let exp = Some(Value::I64(5));

    let program = setup_program();
    let mut interpreter = create_interpreter(&program);

    let _ = interpreter.visit_expression(&ast);
    assert_eq!(interpreter.last_result, exp);
}

#[test]
fn interpreter_interpret_variable() {
    let ast = node(Expression::Variable(String::from("x")));

    let exp = Some(Value::I64(5));

    let program = setup_program();
    let mut interpreter = create_interpreter(&program);
    let _ = declare(&mut interpreter, "x", Value::I64(5));

    let _ = interpreter.visit_expression(&ast);
    assert_eq!(interpreter.last_result, exp);
}

#[test]
fn interpreter_declare_variable() {
    // i64 x = 5;
    let ast = node(Statement::Declaration { identifier: node(String::from("x")), kind: VariableDeclarationKind::TYPE { var_type: node(Type::I64), value: Some(node(Expression::Literal(Literal::I64(5)))) } });

    let program = setup_program();
    let mut interpreter = create_interpreter(&program);

    let _ = interpreter.visit_statement(&ast);
    assert_eq!(variable(&interpreter, "x"), Value::I64(5));
}

#[test]
fn interpreter_declare_variable_with_default_value() {
    // i64 x;
    let ast = node(Statement::Declaration { identifier: node(String::from("x")), kind: VariableDeclarationKind::TYPE { var_type: node(Type::I64), value: None } });

    let program = setup_program();
    let mut interpreter = create_interpreter(&program);

    let _ = interpreter.visit_statement(&ast);
    assert_eq!(variable(&interpreter, "x"), Value::I64(0));
}

#[test]
fn interpreter_declare_variable_bad_type() {
    // i64 x = false;
    let ast = node(Statement::Declaration { identifier: node(String::from("x")), kind: VariableDeclarationKind::TYPE { var_type: node(Type::I64), value: Some(node(Expression::Literal(Literal::False))) } });

    let program = setup_program();
    let mut interpreter = create_interpreter(&program);

    assert!(interpreter.visit_statement(&ast).is_err());
}

#[test]
fn interpreter_redeclare_variable_fails() {
    let ast = node(Statement::Declaration { identifier: node(String::from("x")), kind: VariableDeclarationKind::TYPE { var_type: node(Type::I64), value: None } });

    let program = setup_program();
    let mut interpreter = create_interpreter(&program);

    let _ = interpreter.visit_statement(&ast);
    assert_eq!(variable(&interpreter, "x"), Value::I64(0));

    assert!(interpreter.visit_statement(&ast).is_err());
}

#[test]
fn interpreter_declare_with_none_value_fails() {
    // i64 x = print("hello world");
    let ast = node(Statement::Declaration { identifier: node(String::from("x")), kind: VariableDeclarationKind::TYPE { var_type: node(Type::I64), value: Some(node(Expression::FunctionCall {
            identifier: node(String::from("print")),
            arguments: vec![Box::new(node(Argument {
                value: node(Expression::Literal(Literal::String(String::from("hello world")))),
                passed_by: PassedBy::Value,
            })),],
        })) } });

    let program = setup_program();
    let mut interpreter = create_interpreter(&program);
    assert!(interpreter.visit_statement(&ast).is_err());
}

#[test]
fn interpreter_declare_with_bad_type_fails() {
    // i64 x = true;
    let ast = node(Statement::Declaration { identifier: node(String::from("x")), kind: VariableDeclarationKind::TYPE { var_type: node(Type::I64), value: Some(node(Expression::Literal(Literal::True))) } });

    let program = setup_program();
    let mut interpreter = create_interpreter(&program);
    assert!(interpreter.visit_statement(&ast).is_err());
}

#[test]
fn interpreter_assigns_to_variable() {
    // i64 x = 0;
    // x = 5;
    let ast = node(Statement::Assignment {
        identifier: node(String::from("x")),
        value: node(Expression::Literal(Literal::I64(1))),
        accessors: vec![]
    });

    let program = setup_program();
    let mut interpreter = create_interpreter(&program);
    let _ = declare(&mut interpreter, "x", Value::I64(0));

    assert!(interpreter.visit_statement(&ast).is_ok());
    assert_eq!(variable(&interpreter, "x"), Value::I64(1));
}

#[test]
fn interpreter_assigns_bad_type_fails() {
    // i64 x = 0;
    // x = false;
    let ast = node(Statement::Assignment {
        identifier: node(String::from("x")),
        value: node(Expression::Literal(Literal::False)),
        accessors: vec![]
    });

    let program = setup_program();
    let mut interpreter = create_interpreter(&program);
    let _ = declare(&mut interpreter, "x", Value::I64(0));

    assert!(interpreter.visit_statement(&ast).is_err());
}

#[test]
fn interpreter_assign_with_none_value_fails() {
    // x = print("hello world");
    let ast = node(Statement::Assignment {
        identifier: node(String::from("x")),
        value: node(Expression::FunctionCall {
            identifier: node(String::from("print")),
            arguments: vec![Box::new(node(Argument {
                value: node(Expression::Literal(Literal::String(String::from("hello world")))),
                passed_by: PassedBy::Value,
            })),],
        }),
        accessors: vec![]
    });

    let program = setup_program();
    let mut interpreter = create_interpreter(&program);
    let _ = declare(&mut interpreter, "x", Value::I64(0));

    assert!(interpreter.visit_statement(&ast).is_err());
}

#[test]
fn interpreter_if_true_branch() {
    // i64 x = 0;
    // if (true) {x = 1;} else {x = 2;}
    let ast = node(Statement::Conditional {
        condition: node(Expression::Literal(Literal::True)),
        if_block: node(Block(vec![node(Statement::Assignment {
            identifier: node(String::from("x")),
            value: node(Expression::Literal(Literal::I64(1))),
            accessors: vec![]
        }),])),
        else_block: Some(node(Block(vec![node(Statement::Assignment {
            identifier: node(String::from("x")),
            value: node(Expression::Literal(Literal::I64(2))),
            accessors: vec![]
        }),]))),
    });

    let program = setup_program();
    let mut interpreter = create_interpreter(&program);
    let _ = declare(&mut interpreter, "x", Value::I64(0));

    assert!(interpreter.visit_statement(&ast).is_ok());
    assert_eq!(variable(&interpreter, "x"), Value::I64(1));
}

#[test]
fn interpreter_if_false_branch() {
    // i64 x = 0;
    // if (false) {x = 1;} else {x = 2;}
    let ast = node(Statement::Conditional {
        condition: node(Expression::Literal(Literal::False)),
        if_block: node(Block(vec![node(Statement::Assignment {
            identifier: node(String::from("x")),
            value: node(Expression::Literal(Literal::I64(1))),
            accessors: vec![]
        }),])),
        else_block: Some(node(Block(vec![node(Statement::Assignment {
            identifier: node(String::from("x")),
            value: node(Expression::Literal(Literal::I64(2))),
            accessors: vec![]
        }),]))),
    });

    let program = setup_program();
    let mut interpreter = create_interpreter(&program);
    let _ = declare(&mut interpreter, "x", Value::I64(0));

    assert!(interpreter.visit_statement(&ast).is_ok());
    assert_eq!(variable(&interpreter, "x"), Value::I64(2));
}

#[test]
fn interpreter_if_bad_condition_type_fails() {
    // i64 x = 0;
    // if (2137) {}
    let ast = node(Statement::Conditional {
        condition: node(Expression::Literal(Literal::I64(2137))),
        if_block: node(Block(vec![])),
        else_block: None,
    });

    let program = setup_program();
    let mut interpreter = create_interpreter(&program);
    let _ = declare(&mut interpreter, "x", Value::I64(0));

    assert!(interpreter.visit_statement(&ast).is_err());
}

#[test]
fn interpreter_for_loop() {
    // i64 total = 0;
    // for (i64 i = 1; i <= 5; i = i + 1) {total = total + i;}
    let ast = node(Statement::ForLoop {
        declaration: Some(Box::new(node(Statement::Declaration { identifier: node(String::from("i")), kind: VariableDeclarationKind::TYPE { var_type: node(Type::I64), value: Some(node(Expression::Literal(Literal::I64(1)))) } }))),
        condition: node(Expression::LessEqual(
            Box::new(node(Expression::Variable(String::from("i")))),
            Box::new(node(Expression::Literal(Literal::I64(5))))
        )),
        assignment: Some(Box::new(node(Statement::Assignment {
            identifier: node(String::from("i")),
            value: node(Expression::Addition(
                Box::new(node(Expression::Variable(String::from("i")))),
                Box::new(node(Expression::Literal(Literal::I64(1))))
            )),
            accessors: vec![]
        }))),
        block: node(Block(vec![node(Statement::Assignment {
            identifier: node(String::from("total")),
            value: node(Expression::Addition(
                Box::new(node(Expression::Variable(String::from("total")))),
                Box::new(node(Expression::Variable(String::from("i"))))
            )),
            accessors: vec![]
        }),])),
    });

    let program = setup_program();
    let mut interpreter = create_interpreter(&program);
    let _ = declare(&mut interpreter, "total", Value::I64(0));

    assert!(interpreter.visit_statement(&ast).is_ok());
    assert_eq!(
        variable(&interpreter, "total"),
        Value::I64(15)
    );
}

#[test]
fn interpreter_for_loop_second_variant() {
    // i64 total = 0;
    // i64 i = 1;
    // for (;i <= 5;) {total = total + i; i = i + 1}
    let ast = node(Statement::ForLoop {
        declaration: None,
        condition: node(Expression::LessEqual(
            Box::new(node(Expression::Variable(String::from("i")))),
            Box::new(node(Expression::Literal(Literal::I64(5))))
        )),
        assignment: None,
        block: node(Block(vec![
            node(Statement::Assignment {
                identifier: node(String::from("total")),
                value: node(Expression::Addition(
                    Box::new(node(Expression::Variable(String::from("total")))),
                    Box::new(node(Expression::Variable(String::from("i"))))
                )),
                accessors: vec![]
            }),
            node(Statement::Assignment {
                identifier: node(String::from("i")),
                value: node(Expression::Addition(
                    Box::new(node(Expression::Variable(String::from("i")))),
                    Box::new(node(Expression::Literal(Literal::I64(1))))
                )),
                accessors: vec![]
            }),
        ])),
    });

    let program = setup_program();
    let mut interpreter = create_interpreter(&program);
    let _ = declare(&mut interpreter, "total", Value::I64(0));
    let _ = declare(&mut interpreter, "i", Value::I64(1));

    assert!(interpreter.visit_statement(&ast).is_ok());
    assert_eq!(
        variable(&interpreter, "total"),
        Value::I64(15)
    );
}

#[test]
fn interpreter_for_loop_bad_condition_type() {
    // for (;1;) {}
    let ast = node(Statement::ForLoop {
        declaration: None,
        condition: node(Expression::Literal(Literal::I64(1))),
        assignment: None,
        block: node(Block(vec![])),
    });

    let program = setup_program();
    let mut interpreter = create_interpreter(&program);

    assert!(interpreter.visit_statement(&ast).is_err());
}

#[test]
fn interpreter_for_loop_with_break() {
    // i64 i = 0;
    // for (;true; i = i + 1) {if (i == 5) {break;}}
    let ast = node(Statement::ForLoop {
        declaration: None,
        condition: node(Expression::Literal(Literal::True)),
        assignment: Some(Box::new(node(Statement::Assignment {
            identifier: node(String::from("i")),
            value: node(Expression::Addition(
                Box::new(node(Expression::Variable(String::from("i")))),
                Box::new(node(Expression::Literal(Literal::I64(1))))
            )),
            accessors: vec![]
        }))),
        block: node(Block(vec![node(Statement::Conditional {
            condition: node(Expression::Equal(
                Box::new(node(Expression::Variable(String::from("i")))),
                Box::new(node(Expression::Literal(Literal::I64(5))))
            )),
            if_block: node(Block(vec![node(Statement::Break)])),
            else_block: None,
        })])),
    });

    let program = setup_program();
    let mut interpreter = create_interpreter(&program);
    let _ = declare(&mut interpreter, "i", Value::I64(0));

    assert!(interpreter.visit_statement(&ast).is_ok());
    assert_eq!(interpreter.abort_state, None);
    assert_eq!(variable(&interpreter, "i"), Value::I64(5));
}

#[test]
fn interpreter_test_function_call() {
    let ast = node(Statement::FunctionCall {
        identifier: node(String::from("add")),
        arguments: vec![
            Box::new(node(Argument {
                value: node(Expression::Literal(Literal::I64(3))),
                passed_by: PassedBy::Value,
            })),
            Box::new(node(Argument {
                value: node(Expression::Literal(Literal::I64(4))),
                passed_by: PassedBy::Value,
            })),
        ],
    });

    let mut functions: Vec<Node<FunctionDeclaration>> = Vec::new();

    functions.push(node(FunctionDeclaration {
            identifier: node(String::from("add")),
            parameters: vec![
                node(Parameter {
                    passed_by: PassedBy::Value,
                    parameter_type: node(Type::I64),
                    identifier: node(String::from("a")),
                }),
                node(Parameter {
                    passed_by: PassedBy::Value,
                    parameter_type: node(Type::I64),
                    identifier: node(String::from("b")),
                }),
            ],
            return_type: node(Type::I64),
            block: node(Block(vec![node(Statement::Return(Some(node(Expression::Addition(
                Box::new(node(Expression::Variable(String::from("a")))),
                Box::new(node(Expression::Variable(String::from("b")))),
            )))))])),
        }));

    let program = Program { statements: vec![], functions: functions, std_functions: vec![], extern_functions: vec![], types: vec![] };
    let mut interpreter = Interpreter::new(&program, Runtime);
    assert!(interpreter.visit_statement(&ast).is_ok());
    assert_eq!(interpreter.last_result, Some(Value::I64(7)));
    assert_eq!(interpreter.abort_state, None);
}

fn create_test_switch_case() -> Node<Statement> {
    // switch (x) {
    //      (x < 15) {
    //          result = 15;
    //      } (x < 10) {
    //          result = 10;
    //          break;
    //      } (x < 5) {
    //          result = 5;
    //      }
    // }

    fn create_assignment(val: i64) -> Node<Statement> {
        node(Statement::Assignment {
            identifier: node(String::from("result")),
            value: node(Expression::Literal(Literal::I64(val))),
            accessors: vec![]
        })
    }

    fn create_condition(val: i64) -> Node<Expression> {
        node(Expression::Less(
            Box::new(node(Expression::Variable(String::from("x")))),
            Box::new(node(Expression::Literal(Literal::I64(val)))),
        ))
    }

    node(Statement::Switch {
        expressions: vec![node(SwitchExpression {
            expression: node(Expression::Variable(String::from("x"))),
            alias: None,
        }),],
        cases: vec![
            node(SwitchCase {
                condition: create_condition(15),
                block: node(Block(vec![create_assignment(15)])),
            }),
            node(SwitchCase {
                condition: create_condition(10),
                block: node(Block(vec![create_assignment(10), node(Statement::Break),])),
            }),
            node(SwitchCase {
                condition: create_condition(5),
                block: node(Block(vec![create_assignment(5)])),
            }),
        ],
    })
}

#[test]
fn interpreter_switch_enters() {
    let program = setup_program();
    let mut interpreter = create_interpreter(&program);
    let _ = declare(&mut interpreter, "x", Value::I64(12));
    let _ = declare(&mut interpreter, "result", default_of(&Type::I64));

    let switch_case = &create_test_switch_case();
    let _ = interpreter.visit_statement(switch_case);

    assert_eq!(
        variable(&interpreter, "result"),
        Value::I64(15)
    );
    assert_eq!(interpreter.abort_state, None);
}

#[test]
fn interpreter_switch_breaks() {
    let program = setup_program();
    let mut interpreter = create_interpreter(&program);
    let _ = declare(&mut interpreter, "x", Value::I64(3));
    let _ = declare(&mut interpreter, "result", default_of(&Type::I64));

    let switch_case = &create_test_switch_case();
    let _ = interpreter.visit_statement(switch_case);

    assert_eq!(
        variable(&interpreter, "result"),
        Value::I64(10)
    );
    assert_eq!(interpreter.abort_state, None);
}

#[test]
fn interpreter_switch_no_entry() {
    let program = setup_program();
    let mut interpreter = create_interpreter(&program);
    let _ = declare(&mut interpreter, "x", Value::I64(2137));
    let _ = declare(&mut interpreter, "result", default_of(&Type::I64));

    let switch_case = &create_test_switch_case();
    let _ = interpreter.visit_statement(switch_case);

    assert_eq!(
        variable(&interpreter, "result"),
        Value::I64(0)
    );
    assert_eq!(interpreter.abort_state, None);
}

#[test]
fn interpreter_switch_bad_condition_type() {
    // switch () {
    //      (1) -> {}
    // }
    let program = setup_program();
    let mut interpreter = create_interpreter(&program);

    let ast = node(Statement::Switch {
        expressions: vec![],
        cases: vec![node(SwitchCase {
            condition: node(Expression::Literal(Literal::I64(1))),
            block: node(Block(vec![])),
        }),],
    });

    assert!(interpreter.visit_statement(&ast).is_err())
}

#[test]
fn interpreter_break_called_outside_for_or_switch() {
    let program = Program { statements: vec![node(Statement::Conditional {
            condition: node(Expression::Literal(Literal::True)),
            if_block: node(Block(vec![node(Statement::Break),])),
            else_block: None,
        })], functions: vec![], std_functions: vec![], extern_functions: vec![], types: vec![] };

    let mut interpreter = Interpreter::new(&program, Runtime);
    assert!(interpreter.interpret().is_err())
}

#[test]
fn interpreter_break_called_outside_for_or_switch_in_function() {
    let program = setup_program();
    let mut interpreter = create_interpreter(&program);

    let ast = FunctionDeclaration {
        identifier: node(String::from("fun")),
        parameters: vec![],
        return_type: node(Type::Void),
        block: node(Block(vec![node(Statement::Break),])),
    };

    assert!(interpreter.execute_function(&ast, sp()).is_err())
}

#[test]
fn interpreter_return_called_outside_for_or_switch() {
    let program = Program { statements: vec![node(Statement::Conditional {
            condition: node(Expression::Literal(Literal::True)),
            if_block: node(Block(vec![node(Statement::Return(None)),])),
            else_block: None,
        })], functions: vec![], std_functions: vec![], extern_functions: vec![], types: vec![] };

    let mut interpreter = Interpreter::new(&program, Runtime);
    assert!(interpreter.interpret().is_err())
}

#[test]
fn interpreter_bad_arg_type() {
    let program = setup_program();
    let mut interpreter = create_interpreter(&program);

    let ast = FunctionDeclaration {
        identifier: node(String::from("fun")),
        parameters: vec![node(Parameter {
            passed_by: PassedBy::Value,
            parameter_type: node(Type::I64),
            identifier: node(String::from("x")),
        })],
        return_type: node(Type::Void),
        block: node(Block(vec![])),
    };

    let c = interpreter.heap.alloc_cell(Value::F64(bits(3.2)));
    interpreter.last_arguments = vec![c];

    assert!(interpreter.execute_function(&ast, sp()).is_err())
}

#[test]
fn interpreter_bad_return_type() {
    let program = setup_program();
    let mut interpreter = create_interpreter(&program);

    let ast = FunctionDeclaration {
        identifier: node(String::from("fun")),
        parameters: vec![],
        return_type: node(Type::Void),
        block: node(Block(vec![node(Statement::Return(Some(node(Expression::Literal(
            Literal::I64(1)
        ))))),])),
    };

    assert!(interpreter.execute_function(&ast, sp()).is_err())
}

#[test]
fn interpreter_interpret_modulo() {
    let ast = node(Expression::Modulo(
        Box::new(node(Expression::Literal(Literal::I64(7)))),
        Box::new(node(Expression::Literal(Literal::I64(3))))
    ));

    let program = setup_program();
    let mut interpreter = create_interpreter(&program);

    let _ = interpreter.visit_expression(&ast);
    assert_eq!(interpreter.last_result, Some(Value::I64(1)));
}

#[test]
fn interpreter_while_loop() {
    // i64 i = 0;
    // while (i < 5) { i = i + 1; }
    let ast = node(Statement::WhileLoop {
        condition: node(Expression::Less(
            Box::new(node(Expression::Variable(String::from("i")))),
            Box::new(node(Expression::Literal(Literal::I64(5))))
        )),
        block: node(Block(vec![node(Statement::Assignment {
            identifier: node(String::from("i")),
            value: node(Expression::Addition(
                Box::new(node(Expression::Variable(String::from("i")))),
                Box::new(node(Expression::Literal(Literal::I64(1))))
            )),
            accessors: vec![]
        }),])),
    });

    let program = setup_program();
    let mut interpreter = create_interpreter(&program);
    let _ = declare(&mut interpreter, "i", Value::I64(0));

    assert!(interpreter.visit_statement(&ast).is_ok());
    assert_eq!(variable(&interpreter, "i"), Value::I64(5));
    assert_eq!(interpreter.abort_state, None);
}

#[test]
fn interpreter_for_loop_with_continue() {
    // i64 total = 0;
    // for (i64 i = 0; i < 5; i = i + 1) { if (i == 2) { continue; } total = total + i; }
    let ast = node(Statement::ForLoop {
        declaration: Some(Box::new(node(Statement::Declaration { identifier: node(String::from("i")), kind: VariableDeclarationKind::TYPE { var_type: node(Type::I64), value: Some(node(Expression::Literal(Literal::I64(0)))) } }))),
        condition: node(Expression::Less(
            Box::new(node(Expression::Variable(String::from("i")))),
            Box::new(node(Expression::Literal(Literal::I64(5))))
        )),
        assignment: Some(Box::new(node(Statement::Assignment {
            identifier: node(String::from("i")),
            value: node(Expression::Addition(
                Box::new(node(Expression::Variable(String::from("i")))),
                Box::new(node(Expression::Literal(Literal::I64(1))))
            )),
            accessors: vec![]
        }))),
        block: node(Block(vec![
            node(Statement::Conditional {
                condition: node(Expression::Equal(
                    Box::new(node(Expression::Variable(String::from("i")))),
                    Box::new(node(Expression::Literal(Literal::I64(2))))
                )),
                if_block: node(Block(vec![node(Statement::Continue)])),
                else_block: None,
            }),
            node(Statement::Assignment {
                identifier: node(String::from("total")),
                value: node(Expression::Addition(
                    Box::new(node(Expression::Variable(String::from("total")))),
                    Box::new(node(Expression::Variable(String::from("i"))))
                )),
                accessors: vec![]
            }),
        ])),
    });

    let program = setup_program();
    let mut interpreter = create_interpreter(&program);
    let _ = declare(&mut interpreter, "total", Value::I64(0));

    assert!(interpreter.visit_statement(&ast).is_ok());
    // 0+1+3+4 = 8 (pomija i == 2)
    assert_eq!(
        variable(&interpreter, "total"),
        Value::I64(8)
    );
    assert_eq!(interpreter.abort_state, None);
}

#[test]
fn interpreter_continue_called_outside_for_or_while() {
    let program = Program { statements: vec![node(Statement::Conditional {
            condition: node(Expression::Literal(Literal::True)),
            if_block: node(Block(vec![node(Statement::Continue),])),
            else_block: None,
        })], functions: vec![], std_functions: vec![], extern_functions: vec![], types: vec![] };

    let mut interpreter = Interpreter::new(&program, Runtime);
    assert!(interpreter.interpret().is_err())
}

#[test]
fn interpreter_continue_called_outside_for_or_while_in_function() {
    let program = setup_program();
    let mut interpreter = create_interpreter(&program);

    let ast = FunctionDeclaration {
        identifier: node(String::from("fun")),
        parameters: vec![],
        return_type: node(Type::Void),
        block: node(Block(vec![node(Statement::Continue),])),
    };

    assert!(interpreter.execute_function(&ast, sp()).is_err())
}

#[test]
fn interpreter_declare_vector_variable() {
    // i64[] x = [1, 2, 3];
    let ast = node(Statement::Declaration { identifier: node(String::from("x")), kind: VariableDeclarationKind::TYPE { var_type: node(Type::Vector(Box::new(Type::I64))), value: Some(node(Expression::Vector(vec![
            Box::new(node(Expression::Literal(Literal::I64(1)))),
            Box::new(node(Expression::Literal(Literal::I64(2)))),
            Box::new(node(Expression::Literal(Literal::I64(3)))),
        ]))) } });

    let program = setup_program();
    let mut interpreter = create_interpreter(&program);

    assert!(interpreter.visit_statement(&ast).is_ok());
}

#[test]
fn interpreter_declare_vector_variable_wrong_inner_type_fails() {
    // i64[] x = ["a"];
    let ast = node(Statement::Declaration { identifier: node(String::from("x")), kind: VariableDeclarationKind::TYPE { var_type: node(Type::Vector(Box::new(Type::I64))), value: Some(node(Expression::Vector(vec![Box::new(node(Expression::Literal(
            Literal::String(String::from("a"))
        ))),]))) } });

    let program = setup_program();
    let mut interpreter = create_interpreter(&program);

    assert!(interpreter.visit_statement(&ast).is_err());
}

#[test]
fn interpreter_index_into_vector() {
    // i64[] x = [10, 20, 30];
    // x[1]
    let ast = node(Expression::Index {
        collection: Box::new(node(Expression::Variable(String::from("x")))),
        index: Box::new(node(Expression::Literal(Literal::I64(1)))),
    });

    let program = setup_program();
    let mut interpreter = create_interpreter(&program);

    let values = new_vector(&mut interpreter, vec![
        Value::I64(10),
        Value::I64(20),
        Value::I64(30),
    ]);
    let _ = declare(&mut interpreter, "x", Value::Vector {
            kind: Box::new(Type::I64),
            values,
        });

    let _ = interpreter.visit_expression(&ast);
    assert_eq!(interpreter.last_result, Some(Value::I64(20)));
}

#[test]
fn interpreter_index_out_of_bounds_fails() {
    let ast = node(Expression::Index {
        collection: Box::new(node(Expression::Variable(String::from("x")))),
        index: Box::new(node(Expression::Literal(Literal::I64(5)))),
    });

    let program = setup_program();
    let mut interpreter = create_interpreter(&program);

    let values = new_vector(&mut interpreter, vec![Value::I64(10)]);
    let _ = declare(&mut interpreter, "x", Value::Vector {
            kind: Box::new(Type::I64),
            values,
        });

    assert!(interpreter.visit_expression(&ast).is_err());
}

#[test]
fn interpreter_assign_by_index() {
    // x[1] = 99;
    let ast = node(Statement::Assignment {
        identifier: node(String::from("x")),
        value: node(Expression::Literal(Literal::I64(99))),
        accessors: vec![node(Accessor::Index(node(Expression::Literal(Literal::I64(1)))))]
    });

    let program = setup_program();
    let mut interpreter = create_interpreter(&program);

    let values = new_vector(&mut interpreter, vec![
        Value::I64(10),
        Value::I64(20),
    ]);
    let _ = declare(&mut interpreter, "x", Value::Vector {
            kind: Box::new(Type::I64),
            values: values,
        });

    assert!(interpreter.visit_statement(&ast).is_ok());
    assert_eq!(element(&interpreter, values, 1), Value::I64(99));
}

#[test]
fn interpreter_call_undeclared_function_fails() {
    let ast = node(Statement::FunctionCall {
        identifier: node(String::from("does_not_exist")),
        arguments: vec![],
    });

    let program = setup_program();
    let mut interpreter = create_interpreter(&program);

    assert!(interpreter.visit_statement(&ast).is_err());
}

#[test]
fn interpreter_call_function_wrong_arg_count_fails() {
    let ast = node(Statement::FunctionCall {
        identifier: node(String::from("add")),
        arguments: vec![Box::new(node(Argument {
            value: node(Expression::Literal(Literal::I64(1))),
            passed_by: PassedBy::Value,
        })),],
    });

    let mut functions: Vec<Node<FunctionDeclaration>> = Vec::new();
    functions.push(node(FunctionDeclaration {
            identifier: node(String::from("add")),
            parameters: vec![
                node(Parameter {
                    passed_by: PassedBy::Value,
                    parameter_type: node(Type::I64),
                    identifier: node(String::from("a")),
                }),
                node(Parameter {
                    passed_by: PassedBy::Value,
                    parameter_type: node(Type::I64),
                    identifier: node(String::from("b")),
                }),
            ],
            return_type: node(Type::I64),
            block: node(Block(vec![])),
        }));

    let program = Program { statements: vec![], functions: functions, std_functions: vec![], extern_functions: vec![], types: vec![] };
    let mut interpreter = Interpreter::new(&program, Runtime);
    assert!(interpreter.visit_statement(&ast).is_err());
}

#[test]
fn interpreter_call_function_by_reference() {
    // fn increment(&i64 x): void { x = x + 1; }
    // i64 y = 5; increment(&y);
    let mut functions: Vec<Node<FunctionDeclaration>> = Vec::new();
    functions.push(node(FunctionDeclaration {
            identifier: node(String::from("increment")),
            parameters: vec![node(Parameter {
                passed_by: PassedBy::Reference,
                parameter_type: node(Type::I64),
                identifier: node(String::from("x")),
            }),],
            return_type: node(Type::Void),
            block: node(Block(vec![node(Statement::Assignment {
                identifier: node(String::from("x")),
                value: node(Expression::Addition(
                    Box::new(node(Expression::Variable(String::from("x")))),
                    Box::new(node(Expression::Literal(Literal::I64(1))))
                )),
                accessors: vec![]
            }),])),
        }));

    let ast = node(Statement::FunctionCall {
        identifier: node(String::from("increment")),
        arguments: vec![Box::new(node(Argument {
            value: node(Expression::Variable(String::from("y"))),
            passed_by: PassedBy::Reference,
        })),],
    });

    let program = Program { statements: vec![], functions: functions, std_functions: vec![], extern_functions: vec![], types: vec![] };
    let mut interpreter = Interpreter::new(&program, Runtime);
    let _ = declare(&mut interpreter, "y", Value::I64(5));

    assert!(interpreter.visit_statement(&ast).is_ok());
    assert_eq!(variable(&interpreter, "y"), Value::I64(6));
}
