#![allow(unused_imports)]
#![allow(dead_code)]

use raptor::alu::FloatUnit;
use raptor::ast::{
    Accessor, Argument, Block, Expression, FunctionDeclaration, Literal, Node, Parameter, PassedBy, Program, Statement,
    StdFunction, StructDeclaration, StructLiteralField, SwitchCase, SwitchExpression, VariableDeclarationKind,
};
use raptor::heap::Heap;
use raptor::interpreter::{AbortState, Host, Interpreter};
use raptor::span::Span;
use raptor::types::Type;
use raptor::value::Value;

/// Double arithmetic with Rust's `f64`; no host functions.
struct Runtime;

impl FloatUnit for Runtime {
    fn add(&self, a: u64, b: u64) -> u64 {
        (f64::from_bits(a) + f64::from_bits(b)).to_bits()
    }

    fn sub(&self, a: u64, b: u64) -> u64 {
        (f64::from_bits(a) - f64::from_bits(b)).to_bits()
    }

    fn mul(&self, a: u64, b: u64) -> u64 {
        (f64::from_bits(a) * f64::from_bits(b)).to_bits()
    }

    fn div(&self, a: u64, b: u64) -> u64 {
        (f64::from_bits(a) / f64::from_bits(b)).to_bits()
    }

    fn from_signed(&self, x: i64) -> u64 {
        (x as f64).to_bits()
    }

    fn from_unsigned(&self, x: u64) -> u64 {
        (x as f64).to_bits()
    }

    fn truncate(&self, a: u64) -> i128 {
        f64::from_bits(a).trunc() as i128
    }

    fn render(&self, a: u64) -> String {
        f64::from_bits(a).to_string()
    }

    fn parse(&self, s: &str) -> Option<u64> {
        s.parse::<f64>().ok().map(|x| x.to_bits())
    }
}

impl Host for Runtime {
    fn call_std(&mut self, name: &str, arguments: Vec<Value>, _heap: &Heap, _span: Span) -> Result<Option<Value>, String> {
        match (name, arguments.as_slice()) {
            ("double", [Value::I64(x)]) => Ok(Some(Value::I64(2 * x))),
            ("nothing", []) => Ok(None),
            _ => Err(format!("host refused `{}`", name)),
        }
    }
}

fn bits(x: f64) -> u64 {
    x.to_bits()
}

fn sp() -> Span {
    Span::default_span()
}

fn node<T>(value: T) -> Node<T> {
    Node { value, span: sp() }
}

fn setup_program() -> Program {
    Program { statements: vec![], functions: vec![], std_functions: vec![], extern_functions: vec![], types: vec![] }
}

fn create_interpreter(program: &Program) -> Interpreter<'_, Runtime> {
    Interpreter::new(program, Runtime)
}

fn program_with_functions(functions: Vec<Node<FunctionDeclaration>>) -> Program {
    Program { statements: vec![], functions, std_functions: vec![], extern_functions: vec![], types: vec![] }
}

fn program_with_statements(statements: Vec<Node<Statement>>) -> Program {
    Program { statements, functions: vec![], std_functions: vec![], extern_functions: vec![], types: vec![] }
}

/// Binds `name` to a new cell holding `value` in the innermost scope.
fn declare(interpreter: &mut Interpreter<'_, Runtime>, name: &str, value: Value) {
    let c = interpreter.heap.alloc_cell(value);
    let _ = interpreter.stack.declare_variable(name, c, sp());
}

/// The value held by the cell bound to `name`.
fn variable(interpreter: &Interpreter<'_, Runtime>, name: &str) -> Value {
    let c = interpreter.stack.get_variable(name, sp()).unwrap();
    interpreter.heap.read(c).clone()
}

/// A new vector whose elements are new cells holding `values`.
fn new_vector(interpreter: &mut Interpreter<'_, Runtime>, values: Vec<Value>) -> usize {
    let mut cells = Vec::new();
    for v in values {
        cells.push(interpreter.heap.alloc_cell(v));
    }
    interpreter.heap.alloc_vector(cells)
}

/// The value of element `i` of vector `id`.
fn element(interpreter: &Interpreter<'_, Runtime>, id: usize, i: usize) -> Value {
    interpreter.heap.read(interpreter.heap.vector_cell(id, i)).clone()
}

/// The default value of a scalar type.
fn default_of(t: &Type) -> Value {
    let mut heap = Heap::new();
    Value::default_value(t, sp(), &mut heap).unwrap()
}

fn lit(x: i64) -> Node<Expression> {
    node(Expression::Literal(Literal::I64(x)))
}

fn var(name: &str) -> Node<Expression> {
    node(Expression::Variable(String::from(name)))
}

fn by_value(e: Node<Expression>) -> Box<Node<Argument>> {
    Box::new(node(Argument { value: e, passed_by: PassedBy::Value }))
}

fn call(name: &str, arguments: Vec<Box<Node<Argument>>>) -> Node<Statement> {
    node(Statement::FunctionCall { identifier: node(String::from(name)), arguments })
}

fn assign_index(name: &str, indices: Vec<i64>, value: Node<Expression>) -> Node<Statement> {
    node(Statement::Assignment {
        identifier: node(String::from(name)),
        value,
        accessors: indices.into_iter().map(|i| node(Accessor::Index(lit(i)))).collect(),
    })
}

fn function(name: &str, parameters: Vec<(&str, Type)>, return_type: Type, body: Vec<Node<Statement>>) -> Node<FunctionDeclaration> {
    node(FunctionDeclaration {
        identifier: node(String::from(name)),
        parameters: parameters
            .into_iter()
            .map(|(p, t)| {
                node(Parameter { passed_by: PassedBy::Value, parameter_type: node(t), identifier: node(String::from(p)) })
            })
            .collect(),
        return_type: node(return_type),
        block: node(Block(body)),
    })
}

fn let_declaration(name: &str, var_type: Option<Type>, value: Node<Expression>) -> Node<Statement> {
    node(Statement::Declaration {
        identifier: node(String::from(name)),
        kind: VariableDeclarationKind::LET { var_type: var_type.map(node), value },
    })
}

fn error_message(r: Result<(), raptor::errors::InterpreterError>) -> String {
    r.err().unwrap().message()
}

#[test]
fn block_scope_is_closed_after_block() {
    let program = setup_program();
    let mut interpreter = create_interpreter(&program);
    let block = node(Block(vec![let_declaration("inner", None, lit(1))]));
    assert!(interpreter.visit_block(&block).is_ok());
    assert!(interpreter.stack.get_variable("inner", sp()).is_err());
    assert_eq!(interpreter.stack.scope_count(), 1);
}

#[test]
fn declared_variable_is_found_with_its_value() {
    let program = setup_program();
    let mut interpreter = create_interpreter(&program);
    assert!(interpreter.visit_statement(&let_declaration("x", Some(Type::I64), lit(7))).is_ok());
    assert_eq!(variable(&interpreter, "x"), Value::I64(7));
}

#[test]
fn let_empty_vector_takes_annotated_type() {
    let program = setup_program();
    let mut interpreter = create_interpreter(&program);
    let empty = node(Expression::Vector(vec![]));
    assert!(interpreter.visit_statement(&let_declaration("v", Some(Type::Vector(Box::new(Type::I64))), empty)).is_ok());
    assert_eq!(variable(&interpreter, "v").to_type(), Type::Vector(Box::new(Type::I64)));
}

#[test]
fn let_empty_vector_without_annotation_fails() {
    let program = setup_program();
    let mut interpreter = create_interpreter(&program);
    let empty = node(Expression::Vector(vec![]));
    assert_eq!(
        error_message(interpreter.visit_statement(&let_declaration("v", None, empty))),
        "Cannot infer type of empty vector. Consider adding a type annotation, e.g. `let v: i64[] = [];`."
    );
}

#[test]
fn let_empty_vector_with_scalar_annotation_fails() {
    let program = setup_program();
    let mut interpreter = create_interpreter(&program);
    let empty = node(Expression::Vector(vec![]));
    let e = interpreter.visit_statement(&let_declaration("v", Some(Type::I64), empty)).err().unwrap();
    assert_eq!(e.message, "Cannot assign value to variable 'v'.");
    assert_eq!(e.found, Some(String::from("empty vector")));
}

#[test]
fn let_with_wrong_annotation_fails() {
    let program = setup_program();
    let mut interpreter = create_interpreter(&program);
    let e = interpreter.visit_statement(&let_declaration("b", Some(Type::Bool), lit(1))).err().unwrap();
    assert_eq!(e.message, "Cannot assign value to variable 'b'.");
    assert_eq!(e.expected, Some(String::from("bool")));
    assert_eq!(e.found, Some(String::from("i64")));
}

#[test]
fn typed_vector_declaration_names_wrong_element() {
    let program = setup_program();
    let mut interpreter = create_interpreter(&program);
    let value = node(Expression::Vector(vec![Box::new(lit(1)), Box::new(node(Expression::Literal(Literal::True)))]));
    let statement = node(Statement::Declaration {
        identifier: node(String::from("v")),
        kind: VariableDeclarationKind::TYPE { var_type: node(Type::Vector(Box::new(Type::Bool))), value: Some(value) },
    });
    let e = interpreter.visit_statement(&statement).err().unwrap();
    assert_eq!(e.message, "Cannot assign value to vector 'v'.");
    assert_eq!(e.found, Some(String::from("i64")));
}

#[test]
fn declaration_without_value_fails_for_char() {
    let program = setup_program();
    let mut interpreter = create_interpreter(&program);
    let statement = node(Statement::Declaration {
        identifier: node(String::from("c")),
        kind: VariableDeclarationKind::TYPE { var_type: node(Type::Char), value: None },
    });
    assert_eq!(error_message(interpreter.visit_statement(&statement)), "Cannot create default value for type 'char'.");
}

#[test]
fn vector_passed_by_value_is_a_shallow_copy() {
    // fn set_first(i64[] v): void { v[0] = 99; }
    let functions = vec![function("set_first", vec![("v", Type::Vector(Box::new(Type::I64)))], Type::Void, vec![assign_index("v", vec![0], lit(99))])];
    let program = program_with_functions(functions);
    let mut interpreter = create_interpreter(&program);
    let values = new_vector(&mut interpreter, vec![Value::I64(1), Value::I64(2)]);
    declare(&mut interpreter, "x", Value::Vector { kind: Box::new(Type::Vector(Box::new(Type::I64))), values });
    assert!(interpreter.visit_statement(&call("set_first", vec![by_value(var("x"))])).is_ok());
    assert_eq!(element(&interpreter, values, 0), Value::I64(1));
}

#[test]
fn nested_vector_passed_by_value_shares_its_rows() {
    // fn set_corner(i64[][] m): void { m[0][0] = 99; }
    let matrix_type = Type::Vector(Box::new(Type::Vector(Box::new(Type::I64))));
    let functions = vec![function("set_corner", vec![("m", matrix_type.clone())], Type::Void, vec![assign_index("m", vec![0, 0], lit(99))])];
    let program = program_with_functions(functions);
    let mut interpreter = create_interpreter(&program);
    let row = new_vector(&mut interpreter, vec![Value::I64(1), Value::I64(2)]);
    let outer = new_vector(&mut interpreter, vec![Value::Vector { kind: Box::new(Type::Vector(Box::new(Type::I64))), values: row }]);
    declare(&mut interpreter, "m", Value::Vector { kind: Box::new(matrix_type), values: outer });
    assert!(interpreter.visit_statement(&call("set_corner", vec![by_value(var("m"))])).is_ok());
    assert_eq!(element(&interpreter, row, 0), Value::I64(99));
}

#[test]
fn host_function_result_becomes_pending_result() {
    let mut program = setup_program();
    program.std_functions.push(StdFunction { name: String::from("double"), param_count: 1 });
    let mut interpreter = create_interpreter(&program);
    assert!(interpreter.visit_statement(&call("double", vec![by_value(lit(21))])).is_ok());
    assert_eq!(interpreter.last_result, Some(Value::I64(42)));
    assert!(interpreter.last_arguments.is_empty());
}

#[test]
fn host_function_error_is_reported() {
    let mut program = setup_program();
    program.std_functions.push(StdFunction { name: String::from("double"), param_count: 1 });
    let mut interpreter = create_interpreter(&program);
    let literal = node(Expression::Literal(Literal::True));
    assert_eq!(error_message(interpreter.visit_statement(&call("double", vec![by_value(literal)]))), "host refused `double`");
}

#[test]
fn host_function_wrong_arity_is_reported() {
    let mut program = setup_program();
    program.std_functions.push(StdFunction { name: String::from("nothing"), param_count: 0 });
    let mut interpreter = create_interpreter(&program);
    let e = interpreter.visit_statement(&call("nothing", vec![by_value(lit(1))])).err().unwrap();
    assert_eq!(e.message, "invalid number of arguments for function `nothing`");
    assert_eq!(e.expected, Some(String::from("0")));
    assert_eq!(e.found, Some(String::from("1")));
    assert!(interpreter.last_arguments.is_empty());
}

#[test]
fn undeclared_function_message() {
    let program = setup_program();
    let mut interpreter = create_interpreter(&program);
    assert_eq!(error_message(interpreter.visit_statement(&call("missing", vec![]))), "use of undeclared function `missing`");
}

#[test]
fn declared_function_wrong_arity_message() {
    let functions = vec![function("one", vec![("a", Type::I64)], Type::Void, vec![])];
    let program = program_with_functions(functions);
    let mut interpreter = create_interpreter(&program);
    let e = interpreter.visit_statement(&call("one", vec![])).err().unwrap();
    assert_eq!(e.message, "invalid number of arguments for function `one`");
    assert_eq!(e.expected, Some(String::from("1")));
    assert_eq!(e.found, Some(String::from("0")));
}

#[test]
fn wrong_argument_type_message() {
    let functions = vec![function("takes_int", vec![("a", Type::I64)], Type::Void, vec![])];
    let program = program_with_functions(functions);
    let mut interpreter = create_interpreter(&program);
    let e = interpreter.visit_statement(&call("takes_int", vec![by_value(node(Expression::Literal(Literal::True)))])).err().unwrap();
    assert_eq!(e.message, "Function 'takes_int' parameter 'a': wrong argument type.");
    assert_eq!(interpreter.stack.frame_count(), 1);
}

#[test]
fn bad_return_type_message() {
    let functions = vec![function("gives_int", vec![], Type::Bool, vec![node(Statement::Return(Some(lit(1))))])];
    let program = program_with_functions(functions);
    let mut interpreter = create_interpreter(&program);
    let e = interpreter.visit_statement(&call("gives_int", vec![])).err().unwrap();
    assert_eq!(e.message, "Bad return type from function 'gives_int'.");
    assert_eq!(e.expected, Some(String::from("bool")));
    assert_eq!(e.found, Some(String::from("i64")));
}

#[test]
fn too_many_pending_arguments_message() {
    let program = setup_program();
    let mut interpreter = create_interpreter(&program);
    let c = interpreter.heap.alloc_cell(Value::I64(1));
    interpreter.last_arguments = vec![c];
    let declaration = FunctionDeclaration {
        identifier: node(String::from("none")),
        parameters: vec![],
        return_type: node(Type::Void),
        block: node(Block(vec![])),
    };
    assert_eq!(
        error_message(interpreter.execute_function(&declaration, sp())),
        "Invalid parameter index 0 while calling function 'none'."
    );
}

#[test]
fn function_call_leaves_the_stack_as_it_was() {
    let functions = vec![function("locals", vec![("a", Type::I64)], Type::Void, vec![let_declaration("b", None, lit(2))])];
    let program = program_with_functions(functions);
    let mut interpreter = create_interpreter(&program);
    assert!(interpreter.visit_statement(&call("locals", vec![by_value(lit(1))])).is_ok());
    assert_eq!(interpreter.stack.frame_count(), 1);
    assert!(interpreter.stack.get_variable("a", sp()).is_err());
    assert!(interpreter.stack.get_variable("b", sp()).is_err());
}

#[test]
fn unbounded_recursion_overflows_the_stack() {
    let functions = vec![function("forever", vec![], Type::Void, vec![call("forever", vec![])])];
    let program = program_with_functions(functions);
    let mut interpreter = create_interpreter(&program);
    assert_eq!(error_message(interpreter.visit_statement(&call("forever", vec![]))), "Stack overflow.");
}

#[test]
fn string_index_assignment_to_invalid_utf8_empties_the_string() {
    let program = setup_program();
    let mut interpreter = create_interpreter(&program);
    declare(&mut interpreter, "s", Value::String(String::from("\u{e9}")));
    let statement = assign_index("s", vec![0], node(Expression::Literal(Literal::Char('a'))));
    assert_eq!(error_message(interpreter.visit_statement(&statement)), "String index assignment produced invalid UTF-8.");
    assert_eq!(variable(&interpreter, "s"), Value::String(String::new()));
}

#[test]
fn string_index_assignment_past_end_empties_the_string() {
    let program = setup_program();
    let mut interpreter = create_interpreter(&program);
    declare(&mut interpreter, "s", Value::String(String::from("ab")));
    let statement = assign_index("s", vec![5], node(Expression::Literal(Literal::Char('z'))));
    assert_eq!(error_message(interpreter.visit_statement(&statement)), "Index 5 out of bounds.");
    assert_eq!(variable(&interpreter, "s"), Value::String(String::new()));
}

#[test]
fn string_index_assignment_replaces_a_byte() {
    let program = setup_program();
    let mut interpreter = create_interpreter(&program);
    declare(&mut interpreter, "s", Value::String(String::from("abc")));
    let statement = assign_index("s", vec![2], node(Expression::Literal(Literal::Char('Z'))));
    assert!(interpreter.visit_statement(&statement).is_ok());
    assert_eq!(variable(&interpreter, "s"), Value::String(String::from("abZ")));
}

#[test]
fn negative_index_is_refused() {
    let program = setup_program();
    let mut interpreter = create_interpreter(&program);
    let values = new_vector(&mut interpreter, vec![Value::I64(1)]);
    declare(&mut interpreter, "v", Value::Vector { kind: Box::new(Type::Vector(Box::new(Type::I64))), values });
    let e = node(Expression::Index { collection: Box::new(var("v")), index: Box::new(lit(-1)) });
    assert_eq!(error_message(interpreter.visit_expression(&e)), "Array index must be a non-negative i64.");
}

#[test]
fn string_indexing_gives_a_char() {
    let program = setup_program();
    let mut interpreter = create_interpreter(&program);
    declare(&mut interpreter, "s", Value::String(String::from("xyz")));
    let e = node(Expression::Index { collection: Box::new(var("s")), index: Box::new(lit(1)) });
    assert!(interpreter.visit_expression(&e).is_ok());
    assert_eq!(interpreter.last_result, Some(Value::Char('y')));
}

#[test]
fn switch_alias_is_scoped_to_the_switch() {
    let program = setup_program();
    let mut interpreter = create_interpreter(&program);
    declare(&mut interpreter, "seen", Value::I64(0));
    let switch = node(Statement::Switch {
        expressions: vec![node(SwitchExpression { expression: lit(4), alias: Some(node(String::from("a"))) })],
        cases: vec![node(SwitchCase {
            condition: node(Expression::Equal(Box::new(var("a")), Box::new(lit(4)))),
            block: node(Block(vec![node(Statement::Assignment { identifier: node(String::from("seen")), value: var("a"), accessors: vec![] })])),
        })],
    });
    assert!(interpreter.visit_statement(&switch).is_ok());
    assert_eq!(variable(&interpreter, "seen"), Value::I64(4));
    assert!(interpreter.stack.get_variable("a", sp()).is_err());
}

#[test]
fn top_level_break_message() {
    let program = program_with_statements(vec![node(Statement::Break)]);
    let mut interpreter = create_interpreter(&program);
    assert_eq!(error_message(interpreter.interpret()), "Break called outside 'for' or 'switch'.");
}

#[test]
fn top_level_continue_message() {
    let program = program_with_statements(vec![node(Statement::Continue)]);
    let mut interpreter = create_interpreter(&program);
    assert_eq!(error_message(interpreter.interpret()), "Continue called outside 'for' or 'while'.");
}

#[test]
fn top_level_return_message() {
    let program = program_with_statements(vec![node(Statement::Return(None))]);
    let mut interpreter = create_interpreter(&program);
    assert_eq!(error_message(interpreter.interpret()), "Return called outside a function.");
}

#[test]
fn extern_functions_are_refused() {
    let mut program = setup_program();
    program.extern_functions.push(raptor::ast::ExternFunction { name: String::from("ext"), span: sp() });
    let mut interpreter = create_interpreter(&program);
    assert_eq!(error_message(interpreter.interpret()), "Extern function `ext` cannot be used in interpretation mode.");
}

#[test]
fn condition_must_be_boolean_message() {
    let program = setup_program();
    let mut interpreter = create_interpreter(&program);
    let statement = node(Statement::WhileLoop { condition: lit(1), block: node(Block(vec![])) });
    let e = interpreter.visit_statement(&statement).err().unwrap();
    assert_eq!(e.message, "Condition in 'while statement' has to evaluate to a valid boolean.");
    assert_eq!(e.expected, Some(String::from("bool")));
    assert_eq!(e.found, Some(String::from("i64")));
}

#[test]
fn assignment_of_nothing_message() {
    let mut program = setup_program();
    program.std_functions.push(StdFunction { name: String::from("nothing"), param_count: 0 });
    let mut interpreter = create_interpreter(&program);
    declare(&mut interpreter, "x", Value::I64(0));
    let value = node(Expression::FunctionCall { identifier: node(String::from("nothing")), arguments: vec![] });
    let statement = node(Statement::Assignment { identifier: node(String::from("x")), value, accessors: vec![] });
    assert_eq!(error_message(interpreter.visit_statement(&statement)), "Cannot assign no value to variable 'x'.");
}

#[test]
fn passing_a_literal_by_reference_is_refused() {
    let functions = vec![function("f", vec![("a", Type::I64)], Type::Void, vec![])];
    let program = program_with_functions(functions);
    let mut interpreter = create_interpreter(&program);
    let argument = Box::new(node(Argument { value: lit(1), passed_by: PassedBy::Reference }));
    assert_eq!(
        error_message(interpreter.visit_statement(&call("f", vec![argument]))),
        "Cannot pass this kind of expression by reference \u{2014} expected a variable or indexed value."
    );
}

#[test]
fn vector_element_passed_by_reference_is_updated() {
    // fn bump(&i64 a): void { a = a + 1; }  bump(&v[1]);
    let body = vec![node(Statement::Assignment {
        identifier: node(String::from("a")),
        value: node(Expression::Addition(Box::new(var("a")), Box::new(lit(1)))),
        accessors: vec![],
    })];
    let functions = vec![function("bump", vec![("a", Type::I64)], Type::Void, body)];
    let program = program_with_functions(functions);
    let mut interpreter = create_interpreter(&program);
    let values = new_vector(&mut interpreter, vec![Value::I64(10), Value::I64(20)]);
    declare(&mut interpreter, "v", Value::Vector { kind: Box::new(Type::Vector(Box::new(Type::I64))), values });
    let element_expression = node(Expression::Index { collection: Box::new(var("v")), index: Box::new(lit(1)) });
    let argument = Box::new(node(Argument { value: element_expression, passed_by: PassedBy::Reference }));
    assert!(interpreter.visit_statement(&call("bump", vec![argument])).is_ok());
    assert_eq!(element(&interpreter, values, 1), Value::I64(21));
}

#[test]
fn stack_copy_matches_the_stack() {
    let program = setup_program();
    let mut interpreter = create_interpreter(&program);
    declare(&mut interpreter, "x", Value::I64(3));
    let copy = interpreter.stack();
    assert_eq!(copy.frame_count(), 1);
    assert_eq!(copy.get_variable("x", sp()).unwrap(), interpreter.stack.get_variable("x", sp()).unwrap());
}

fn point_program(functions: Vec<Node<FunctionDeclaration>>) -> Program {
    let mut program = program_with_functions(functions);
    program.types.push(StructDeclaration {
        name: String::from("Point"),
        fields: vec![
            (String::from("x"), Type::I64),
            (String::from("tags"), Type::Vector(Box::new(Type::Str))),
        ],
    });
    program
}

fn point_literal(x: i64) -> Node<Expression> {
    node(Expression::StructLiteral {
        identifier: node(String::from("Point")),
        fields: vec![
            node(StructLiteralField { identifier: node(String::from("x")), value: lit(x) }),
            node(StructLiteralField { identifier: node(String::from("tags")), value: node(Expression::Vector(vec![])) }),
        ],
    })
}

fn field_of(instance: Node<Expression>, field: &str) -> Node<Expression> {
    node(Expression::FieldAccess { instance: Box::new(instance), field: node(String::from(field)) })
}

#[test]
fn struct_literal_and_field_access() {
    let program = point_program(vec![]);
    let mut interpreter = create_interpreter(&program);
    assert!(interpreter.visit_statement(&let_declaration("p", None, point_literal(3))).is_ok());
    assert_eq!(variable(&interpreter, "p").to_type(), Type::Struct(0));
    assert!(interpreter.visit_expression(&field_of(var("p"), "x")).is_ok());
    assert_eq!(interpreter.last_result, Some(Value::I64(3)));
    assert!(interpreter.visit_expression(&field_of(var("p"), "tags")).is_ok());
    assert_eq!(interpreter.last_result.clone().unwrap().to_type(), Type::Vector(Box::new(Type::Str)));
}

#[test]
fn struct_literal_of_unknown_type_fails() {
    let program = setup_program();
    let mut interpreter = create_interpreter(&program);
    assert_eq!(error_message(interpreter.visit_expression(&point_literal(1))), "Unknown type 'Point'.");
}

#[test]
fn struct_literal_with_undeclared_field_fails() {
    let program = point_program(vec![]);
    let mut interpreter = create_interpreter(&program);
    let literal = node(Expression::StructLiteral {
        identifier: node(String::from("Point")),
        fields: vec![node(StructLiteralField { identifier: node(String::from("z")), value: lit(1) })],
    });
    assert_eq!(error_message(interpreter.visit_expression(&literal)), "Struct `Point` has no field `z`.");
}

#[test]
fn field_access_errors() {
    let program = point_program(vec![]);
    let mut interpreter = create_interpreter(&program);
    assert!(interpreter.visit_statement(&let_declaration("p", None, point_literal(3))).is_ok());
    assert_eq!(error_message(interpreter.visit_expression(&field_of(var("p"), "y"))), "Struct has no field 'y'.");
    let e = interpreter.visit_expression(&field_of(lit(1), "x")).err().unwrap();
    assert_eq!(e.message, "Cannot access field 'x' on this value.");
    assert_eq!(e.found, Some(String::from("i64")));
}

#[test]
fn field_assignment_replaces_the_field() {
    let program = point_program(vec![]);
    let mut interpreter = create_interpreter(&program);
    assert!(interpreter.visit_statement(&let_declaration("p", None, point_literal(3))).is_ok());
    let statement = node(Statement::Assignment {
        identifier: node(String::from("p")),
        value: lit(10),
        accessors: vec![node(Accessor::Field(node(String::from("x"))))],
    });
    assert!(interpreter.visit_statement(&statement).is_ok());
    assert!(interpreter.visit_expression(&field_of(var("p"), "x")).is_ok());
    assert_eq!(interpreter.last_result, Some(Value::I64(10)));
    let missing = node(Statement::Assignment {
        identifier: node(String::from("p")),
        value: lit(10),
        accessors: vec![node(Accessor::Field(node(String::from("w"))))],
    });
    assert_eq!(error_message(interpreter.visit_statement(&missing)), "Struct has no field `w`.");
}

#[test]
fn struct_passed_by_value_copies_scalar_fields() {
    // fn reset(Point q): void { q.x = 0; }
    let body = vec![node(Statement::Assignment {
        identifier: node(String::from("q")),
        value: lit(0),
        accessors: vec![node(Accessor::Field(node(String::from("x"))))],
    })];
    let program = point_program(vec![function("reset", vec![("q", Type::Struct(0))], Type::Void, body)]);
    let mut interpreter = create_interpreter(&program);
    assert!(interpreter.visit_statement(&let_declaration("p", None, point_literal(5))).is_ok());
    assert!(interpreter.visit_statement(&call("reset", vec![by_value(var("p"))])).is_ok());
    assert!(interpreter.visit_expression(&field_of(var("p"), "x")).is_ok());
    assert_eq!(interpreter.last_result, Some(Value::I64(5)));
}

#[test]
fn while_with_false_condition_runs_nothing() {
    let program = setup_program();
    let mut interpreter = create_interpreter(&program);
    declare(&mut interpreter, "x", Value::I64(1));
    let body = node(Block(vec![node(Statement::Assignment { identifier: node(String::from("x")), value: lit(2), accessors: vec![] })]));
    let statement = node(Statement::WhileLoop { condition: node(Expression::Literal(Literal::False)), block: body });
    assert!(interpreter.visit_statement(&statement).is_ok());
    assert_eq!(variable(&interpreter, "x"), Value::I64(1));
    assert_eq!(interpreter.abort_state, None);
}

#[test]
fn if_with_false_condition_and_no_else_changes_nothing() {
    let program = setup_program();
    let mut interpreter = create_interpreter(&program);
    declare(&mut interpreter, "x", Value::I64(1));
    let body = node(Block(vec![node(Statement::Assignment { identifier: node(String::from("x")), value: lit(2), accessors: vec![] })]));
    let condition = node(Expression::Less(Box::new(var("x")), Box::new(lit(0))));
    let statement = node(Statement::Conditional { condition, if_block: body, else_block: None });
    assert!(interpreter.visit_statement(&statement).is_ok());
    assert_eq!(variable(&interpreter, "x"), Value::I64(1));
    assert_eq!(interpreter.abort_state, None);
}

#[test]
fn if_condition_must_be_boolean_message() {
    let program = setup_program();
    let mut interpreter = create_interpreter(&program);
    let statement = node(Statement::Conditional { condition: lit(1), if_block: node(Block(vec![])), else_block: None });
    let e = interpreter.visit_statement(&statement).err().unwrap();
    assert_eq!(e.message, "Condition in 'if statement' has to evaluate to a valid boolean.");
}

#[test]
fn return_of_pure_expression_holds_its_value() {
    let program = setup_program();
    let mut interpreter = create_interpreter(&program);
    declare(&mut interpreter, "x", Value::I64(5));
    let value = node(Expression::Addition(Box::new(var("x")), Box::new(lit(3))));
    assert!(interpreter.visit_statement(&node(Statement::Return(Some(value)))).is_ok());
    assert_eq!(interpreter.last_result, Some(Value::I64(8)));
    assert_eq!(interpreter.abort_state, Some(AbortState::Return));
}

#[test]
fn index_past_the_end_of_a_vector_is_refused() {
    let program = setup_program();
    let mut interpreter = create_interpreter(&program);
    let values = new_vector(&mut interpreter, vec![Value::I64(1), Value::I64(2)]);
    declare(&mut interpreter, "v", Value::Vector { kind: Box::new(Type::Vector(Box::new(Type::I64))), values });
    let e = node(Expression::Index { collection: Box::new(var("v")), index: Box::new(lit(2)) });
    assert!(interpreter.visit_expression(&e).is_err());
}

#[test]
fn vector_literal_of_constants_holds_their_values() {
    let program = setup_program();
    let mut interpreter = create_interpreter(&program);
    let sum = node(Expression::Addition(Box::new(lit(1)), Box::new(lit(1))));
    let e = node(Expression::Vector(vec![Box::new(sum), Box::new(lit(3))]));
    assert!(interpreter.visit_expression(&e).is_ok());
    let id = match interpreter.last_result.clone() {
        Some(Value::Vector { values, .. }) => values,
        other => panic!("expected a vector, got {:?}", other),
    };
    assert_eq!(element(&interpreter, id, 0), Value::I64(2));
    assert_eq!(element(&interpreter, id, 1), Value::I64(3));
}

#[test]
fn function_returning_a_constant_gives_its_value() {
    let body = vec![node(Statement::Return(Some(node(Expression::Multiplication(Box::new(lit(2)), Box::new(lit(3)))))))];
    let program = program_with_functions(vec![function("six", vec![], Type::I64, body)]);
    let mut interpreter = create_interpreter(&program);
    let e = node(Expression::FunctionCall { identifier: node(String::from("six")), arguments: vec![] });
    assert!(interpreter.visit_expression(&e).is_ok());
    assert_eq!(interpreter.last_result, Some(Value::I64(6)));
    assert_eq!(interpreter.abort_state, None);
}

#[test]
fn empty_program_runs_and_changes_nothing() {
    let program = setup_program();
    let mut interpreter = create_interpreter(&program);
    assert!(interpreter.visit_program().is_ok());
    assert_eq!(interpreter.stack.scope_count(), 1);
    assert_eq!(interpreter.last_result, None);
}

fn by_reference(e: Node<Expression>) -> Box<Node<Argument>> {
    Box::new(node(Argument { value: e, passed_by: PassedBy::Reference }))
}

fn assign(name: &str, value: Node<Expression>) -> Node<Statement> {
    node(Statement::Assignment { identifier: node(String::from(name)), value, accessors: vec![] })
}

#[test]
fn argument_by_reference_aliases_the_callers_variable() {
    let functions = vec![function("set", vec![("p", Type::I64)], Type::Void, vec![assign("p", lit(5))])];
    let program = program_with_functions(functions);
    let mut interpreter = create_interpreter(&program);
    declare(&mut interpreter, "x", Value::I64(1));
    assert!(interpreter.visit_statement(&call("set", vec![by_reference(var("x"))])).is_ok());
    assert_eq!(variable(&interpreter, "x"), Value::I64(5));
}

#[test]
fn argument_by_value_leaves_the_callers_variable() {
    let functions = vec![function("set", vec![("p", Type::I64)], Type::Void, vec![assign("p", lit(5))])];
    let program = program_with_functions(functions);
    let mut interpreter = create_interpreter(&program);
    declare(&mut interpreter, "x", Value::I64(1));
    assert!(interpreter.visit_statement(&call("set", vec![by_value(var("x"))])).is_ok());
    assert_eq!(variable(&interpreter, "x"), Value::I64(1));
}

#[test]
fn add_of_three_and_four_gives_seven() {
    let body = vec![node(Statement::Return(Some(node(Expression::Addition(Box::new(var("a")), Box::new(var("b")))))))];
    let functions = vec![function("add", vec![("a", Type::I64), ("b", Type::I64)], Type::I64, body)];
    let program = program_with_functions(functions);
    let mut interpreter = create_interpreter(&program);
    let e = node(Expression::FunctionCall { identifier: node(String::from("add")), arguments: vec![by_value(lit(3)), by_value(lit(4))] });
    assert!(interpreter.visit_expression(&e).is_ok());
    assert_eq!(interpreter.last_result, Some(Value::I64(7)));
}

#[test]
fn break_in_function_body_is_refused() {
    let functions = vec![function("f", vec![], Type::Void, vec![node(Statement::Break)])];
    let program = program_with_functions(functions);
    let mut interpreter = create_interpreter(&program);
    assert_eq!(error_message(interpreter.visit_statement(&call("f", vec![]))), "Break called outside 'for' or 'switch'.");
    assert_eq!(interpreter.stack.scope_count(), 1);
}

#[test]
fn for_condition_must_be_boolean_message() {
    let program = setup_program();
    let mut interpreter = create_interpreter(&program);
    let statement = node(Statement::ForLoop { declaration: None, condition: lit(1), assignment: None, block: node(Block(vec![])) });
    assert_eq!(
        error_message(interpreter.visit_statement(&statement)),
        "Condition in 'for statement' has to evaluate to a valid boolean."
    );
}

#[test]
fn switch_case_condition_must_be_boolean_message() {
    let program = setup_program();
    let mut interpreter = create_interpreter(&program);
    let statement = node(Statement::Switch {
        expressions: vec![],
        cases: vec![node(SwitchCase { condition: lit(1), block: node(Block(vec![])) })],
    });
    assert_eq!(
        error_message(interpreter.visit_statement(&statement)),
        "Condition in 'switch case' has to evaluate to a valid boolean."
    );
}

#[test]
fn redeclaring_a_name_is_refused() {
    let program = setup_program();
    let mut interpreter = create_interpreter(&program);
    assert!(interpreter.visit_statement(&let_declaration("x", None, lit(1))).is_ok());
    assert_eq!(error_message(interpreter.visit_statement(&let_declaration("x", None, lit(2)))), "Cannot redeclare variable 'x'.");
    assert_eq!(variable(&interpreter, "x"), Value::I64(1));
}

#[test]
fn top_level_break_inside_if_message() {
    let statement = node(Statement::Conditional {
        condition: node(Expression::Literal(Literal::True)),
        if_block: node(Block(vec![node(Statement::Break)])),
        else_block: None,
    });
    let program = program_with_statements(vec![statement]);
    let mut interpreter = create_interpreter(&program);
    assert_eq!(error_message(interpreter.interpret()), "Break called outside 'for' or 'switch'.");
}

#[test]
fn continue_inside_top_level_if_after_a_declaration_is_refused() {
    let body = node(Block(vec![node(Statement::Continue)]));
    let statements = vec![
        let_declaration("x", Some(Type::I64), lit(1)),
        node(Statement::Conditional { condition: node(Expression::Literal(Literal::True)), if_block: body, else_block: None }),
    ];
    let program = program_with_statements(statements);
    let mut interpreter = create_interpreter(&program);
    assert_eq!(error_message(interpreter.interpret()), "Continue called outside 'for' or 'while'.");
}

#[test]
fn return_inside_top_level_if_is_refused() {
    let body = node(Block(vec![node(Statement::Return(None))]));
    let statements = vec![node(Statement::Conditional {
        condition: node(Expression::Literal(Literal::True)),
        if_block: body,
        else_block: None,
    })];
    let program = program_with_statements(statements);
    let mut interpreter = create_interpreter(&program);
    assert_eq!(error_message(interpreter.interpret()), "Return called outside a function.");
}
