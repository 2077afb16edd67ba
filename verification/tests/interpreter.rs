use glass::arithmetic::{NumOp, Task};
use glass::context::Context;
use glass::error::GlassError;
use glass::interpreter::Interpreter;
use glass::lexer::tokenize;
use glass::node::Node;
use glass::parser::Parser;
use glass::run::{run_script, try_main};
use glass::span::Span;
use glass::token::{NumberLiteral, Token};
use glass::value::{same_value, Value};
use std::cell::RefCell;

const FILE: &str = "test.glass";

fn num(task: Task) -> u64 {
    match task {
        Task::Decimal(text) => text.parse::<f64>().unwrap().to_bits(),
        Task::Binary(op, a, b) => {
            let a = f64::from_bits(a);
            let b = f64::from_bits(b);
            let r = match op {
                NumOp::Add => a + b,
                NumOp::Sub => a - b,
                NumOp::Mul => a * b,
                NumOp::Div => a / b,
                NumOp::Rem => a % b,
                NumOp::Pow => a.powf(b),
            };
            r.to_bits()
        }
    }
}

fn show(bits: u64) -> String {
    f64::from_bits(bits).to_string()
}

fn run(source: &str) -> Result<Value, GlassError> {
    run_script(FILE.to_string(), Some(source.to_string()), &num, &show)
}

fn number(source: &str) -> f64 {
    match run(source) {
        Ok(Value::Num(bits)) => f64::from_bits(bits),
        other => panic!("{} is not a number: {:?}", source, other),
    }
}

fn truth(source: &str) -> bool {
    match run(source) {
        Ok(Value::Bool(b)) => b,
        other => panic!("{} is not a boolean: {:?}", source, other),
    }
}

fn text(source: &str) -> String {
    match run(source) {
        Ok(Value::Str(text)) => text,
        other => panic!("{} is not a text: {:?}", source, other),
    }
}

fn error(source: &str) -> GlassError {
    match run(source) {
        Err(error) => error,
        Ok(value) => panic!("{} is not an error: {:?}", source, value),
    }
}

fn lit(text: &str) -> Node {
    Node::Number { value: NumberLiteral::Decimal(text.to_string()) }
}

fn bin(op: Token, left: Node, right: Node) -> Node {
    Node::BinaryOp { op, left: Box::new(left), right: Box::new(right) }
}

fn un(op: Token, expr: Node) -> Node {
    Node::UnaryOp { op, expr: Box::new(expr) }
}

fn eval(node: Node) -> Result<Value, GlassError> {
    Interpreter::new(String::new(), FILE.to_string(), &num, &show).visit_node(node)
}

fn unknown(message: &str) -> GlassError {
    GlassError::UnknownError { error_message: message.to_string() }
}

#[test]
fn precedence_of_factor_over_term() {
    assert_eq!(number("2 + 3 * 4"), 14.0);
}

#[test]
fn parentheses_override_precedence() {
    assert_eq!(number("(2 + 3) * 4"), 20.0);
}

#[test]
fn power_is_left_associative() {
    assert_eq!(number("2 ** 3 ** 2"), 64.0);
    assert_eq!(number("2 ** (3 ** 2)"), 512.0);
}

#[test]
fn comparison_is_evaluated_before_equality() {
    assert!(truth("1 < 2 == 2 < 3"));
    assert!(truth("1 < 2 == (1 < 2)"));
    assert!(!truth("1 < 2 == 3 < 2"));
    assert!(truth("1 < 2 != 3 < 2"));
}

#[test]
fn not_applies_before_and() {
    let is_true = || bin(Token::LessThan, lit("1"), lit("2"));
    let is_false = || bin(Token::LessThan, lit("2"), lit("1"));
    let tree = bin(Token::And, un(Token::Not, is_true()), is_false());
    assert!(matches!(eval(tree), Ok(Value::Bool(false))));
    let tree = bin(Token::And, un(Token::Not, is_false()), is_true());
    assert!(matches!(eval(tree), Ok(Value::Bool(true))));
    let tree = bin(Token::Or, un(Token::Not, is_true()), is_true());
    assert!(matches!(eval(tree), Ok(Value::Bool(true))));
}

#[test]
fn boolean_keywords_do_not_parse_as_operands() {
    assert!(matches!(
        error("1 < 2 == true"),
        GlassError::UnexpectedToken { expected: None, actual: Token::True, span: Span { start: 9, end: 13 }, .. }
    ));
    assert!(matches!(
        error("not true and false"),
        GlassError::UnexpectedToken { expected: None, actual: Token::True, span: Span { start: 4, end: 8 }, .. }
    ));
}

#[test]
fn unary_not_binds_tighter_than_comparison() {
    assert_eq!(
        error("not 1 < 2"),
        GlassError::InvalidUnaryOperation { operation: "not".to_string(), operand: "number".to_string() }
    );
    assert!(!truth("not (1 < 2)"));
}

#[test]
fn type_error_names_operator_and_types() {
    assert_eq!(
        error("1 + (1 < 2)"),
        GlassError::InvalidOperation {
            operation: "+".to_string(),
            left: "number".to_string(),
            right: "boolean".to_string(),
        }
    );
    assert_eq!(
        Value::Num(1.0f64.to_bits()).add(Value::Bool(true), &num, &show).unwrap_err(),
        GlassError::InvalidOperation {
            operation: "+".to_string(),
            left: "number".to_string(),
            right: "boolean".to_string(),
        }
    );
    assert_eq!(
        error("\"a\" - 1"),
        GlassError::InvalidOperation {
            operation: "-".to_string(),
            left: "string".to_string(),
            right: "number".to_string(),
        }
    );
}

#[test]
fn unclosed_string_fails_at_the_opening_quote() {
    assert_eq!(
        tokenize("\"abc").into_iter().collect::<Vec<_>>(),
        vec![(Token::UnclosedString, Span { start: 0, end: 4 })]
    );
    assert_eq!(
        error("\"abc"),
        GlassError::UnclosedString {
            src: "\"abc".to_string(),
            span: Span { start: 0, end: 4 },
            filename: FILE.to_string(),
        }
    );
    assert!(matches!(
        error("1 + \"abc"),
        GlassError::UnclosedString { span: Span { start: 4, end: 8 }, .. }
    ));
}

#[test]
fn evaluating_twice_gives_equal_values() {
    let interpreter = Interpreter::new(String::new(), FILE.to_string(), &num, &show);
    let tree = bin(
        Token::Plus,
        Node::String { value: "n = ".to_string() },
        bin(Token::StarStar, lit("1.5"), un(Token::Minus, lit("3"))),
    );
    let first = tree.visit(&interpreter).unwrap();
    let second = tree.visit(&interpreter).unwrap();
    assert!(same_value(&first, &second));
    assert!(matches!(first, Value::Str(ref text) if text == "n = 0.2962962962962963"));
    let failing = bin(Token::Minus, lit("1"), Node::String { value: "x".to_string() });
    assert_eq!(failing.visit(&interpreter).unwrap_err(), failing.visit(&interpreter).unwrap_err());
}

#[test]
fn numeric_literals_become_the_nearest_number() {
    assert_eq!(number("42"), 42.0);
    assert_eq!(number("0.1"), 0.1);
    assert_eq!(number("3.25"), 3.25);
    assert_eq!(number("123456789012345678901234567890"), 1.2345678901234568e29);
    assert_eq!(number("0xff"), 255.0);
    assert_eq!(number("0o17"), 15.0);
    assert_eq!(number("0b1011"), 11.0);
    assert_eq!(number("0x7fffffffffffffff"), 9223372036854775807i64 as f64);
    assert_eq!(number("0x20000000000001"), 9007199254740992.0);
    assert_eq!(number("0x8000000000000000"), 9223372036854775808.0);
    assert_eq!(number("0xffffffffffffffffffffffffffffffffffff"), 2f64.powi(144));
}

#[test]
fn arithmetic_expressions() {
    assert_eq!(number("7 - 2 - 1"), 4.0);
    assert_eq!(number("7 / 2"), 3.5);
    assert_eq!(number("7 % 4"), 3.0);
    assert_eq!(number("-3 + +5"), 2.0);
    assert_eq!(number("- - 3"), 3.0);
    assert_eq!(number("1 / 0"), f64::INFINITY);
    assert!(number("0 / 0").is_nan());
    assert!(truth("0 / 0 != 0 / 0"));
}

#[test]
fn text_expressions() {
    assert_eq!(text("\"foo\" + \"bar\""), "foobar");
    assert_eq!(text("\"a\" + 1 + 2"), "a12");
    assert_eq!(text("1 + 2 + \"a\""), "3a");
    assert_eq!(text("\"ab\" * 2 + \"!\""), "abab!");
    assert_eq!(text("\"tab\\there\""), "tab\there");
    assert!(truth("\"a\" + \"b\" == \"ab\""));
}

#[test]
fn both_operands_are_evaluated_left_first() {
    let asked: RefCell<Vec<String>> = RefCell::new(Vec::new());
    let recording = |task: Task| {
        if let Task::Decimal(text) = &task {
            asked.borrow_mut().push(text.clone());
        }
        num(task)
    };
    let false_then_true = bin(
        Token::And,
        bin(Token::LessThan, lit("2"), lit("1")),
        bin(Token::LessThan, lit("3"), lit("4")),
    );
    let result = Interpreter::new(String::new(), FILE.to_string(), &recording, &show)
        .visit_node(false_then_true);
    assert!(matches!(result, Ok(Value::Bool(false))));
    assert_eq!(*asked.borrow(), vec!["2", "1", "3", "4"]);
}

#[test]
fn error_in_the_left_operand_ends_the_evaluation() {
    let asked: RefCell<Vec<String>> = RefCell::new(Vec::new());
    let recording = |task: Task| {
        if let Task::Decimal(text) = &task {
            asked.borrow_mut().push(text.clone());
        }
        num(task)
    };
    let tree = bin(Token::Plus, un(Token::Not, lit("1")), lit("2"));
    let result =
        Interpreter::new(String::new(), FILE.to_string(), &recording, &show).visit_node(tree);
    assert_eq!(
        result.unwrap_err(),
        GlassError::InvalidUnaryOperation { operation: "not".to_string(), operand: "number".to_string() }
    );
    assert_eq!(*asked.borrow(), vec!["1"]);
}

#[test]
fn token_that_is_no_operator_is_an_unknown_error() {
    let asked: RefCell<Vec<String>> = RefCell::new(Vec::new());
    let recording = |task: Task| {
        if let Task::Decimal(text) = &task {
            asked.borrow_mut().push(text.clone());
        }
        num(task)
    };
    let interpreter = Interpreter::new(String::new(), FILE.to_string(), &recording, &show);
    assert_eq!(
        interpreter.visit_node(bin(Token::Comma, lit("1"), lit("2"))).unwrap_err(),
        unknown("Parsed invalid binary operation expression")
    );
    assert_eq!(
        interpreter.visit_node(un(Token::Star, lit("1"))).unwrap_err(),
        unknown("Parsed invalid unary expression")
    );
    assert!(asked.borrow().is_empty());
}

#[test]
fn block_evaluates_its_statements_and_is_void() {
    assert!(matches!(eval(Node::Block { statements: vec![] }), Ok(Value::Void)));
    assert!(matches!(
        eval(Node::Block { statements: vec![lit("1"), bin(Token::Plus, lit("1"), lit("2"))] }),
        Ok(Value::Void)
    ));
    let failing = Node::Block {
        statements: vec![
            lit("1"),
            un(Token::Not, lit("2")),
            un(Token::Minus, Node::String { value: "x".to_string() }),
        ],
    };
    assert_eq!(
        eval(failing).unwrap_err(),
        GlassError::InvalidUnaryOperation { operation: "not".to_string(), operand: "number".to_string() }
    );
}

#[test]
fn forms_without_semantics_are_reported() {
    let one = || Box::new(lit("1"));
    assert_eq!(
        eval(Node::Identifier { name: "x".to_string() }).unwrap_err(),
        unknown("not yet implemented: identifier")
    );
    assert_eq!(error("x + 1"), unknown("not yet implemented: identifier"));
    assert_eq!(
        eval(Node::Assignment { op: Token::Equal, left: one(), right: one() }).unwrap_err(),
        unknown("not yet implemented: assignment")
    );
    assert_eq!(
        eval(Node::FunctionCall { name: "f".to_string(), args: vec![] }).unwrap_err(),
        unknown("not yet implemented: function call")
    );
    assert_eq!(
        eval(Node::FunctionDefinition { name: "f".to_string(), args: vec![], body: one() })
            .unwrap_err(),
        unknown("not yet implemented: function definition")
    );
    assert_eq!(
        eval(Node::Return { value: one() }).unwrap_err(),
        unknown("not yet implemented: return")
    );
    assert_eq!(
        eval(Node::If { condition: one(), body: one(), else_body: None }).unwrap_err(),
        unknown("not yet implemented: if")
    );
    assert_eq!(
        eval(Node::While { condition: one(), body: one() }).unwrap_err(),
        unknown("not yet implemented: while")
    );
    assert_eq!(
        eval(Node::For { variable: "i".to_string(), start: one(), end: one(), step: None, body: one() })
            .unwrap_err(),
        unknown("not yet implemented: for")
    );
}

#[test]
fn visit_methods_of_the_interpreter() {
    let interpreter = Interpreter::new(String::new(), FILE.to_string(), &num, &show);
    let two = Box::new(lit("2"));
    let three = Box::new(lit("3"));
    assert!(matches!(
        interpreter.visit_bin_op_node(&Token::Star, &two, &three),
        Ok(Value::Num(bits)) if f64::from_bits(bits) == 6.0
    ));
    assert!(matches!(
        interpreter.visit_unary_op_node(&Token::Minus, &two),
        Ok(Value::Num(bits)) if f64::from_bits(bits) == -2.0
    ));
    assert!(matches!(
        interpreter.visit_unary_op_node(&Token::Plus, &two),
        Ok(Value::Num(bits)) if f64::from_bits(bits) == 2.0
    ));
    assert!(matches!(interpreter.visit_block_node(&vec![lit("1")]), Ok(Value::Void)));
    assert_eq!(interpreter.number(Task::Decimal("3.5".to_string())), 3.5f64.to_bits());
}

#[test]
fn child_interpreter_shares_the_arithmetic() {
    let interpreter = Interpreter::new("1".to_string(), FILE.to_string(), &num, &show);
    let child = interpreter.new_child_context("inner");
    assert!(matches!(
        child.visit_node(bin(Token::Plus, lit("1"), lit("2"))),
        Ok(Value::Num(bits)) if f64::from_bits(bits) == 3.0
    ));
}

#[test]
fn contexts_can_be_made() {
    let global = Context::new();
    let child = global.new_child("inner");
    assert!(format!("{:?}", global).contains("global"));
    assert!(format!("{:?}", child).contains("inner"));
}

#[test]
fn script_that_could_not_be_read_is_not_found() {
    assert_eq!(
        run_script("missing.glass".to_string(), None, &num, &show).unwrap_err(),
        GlassError::FileNotFound { filename: "missing.glass".to_string() }
    );
}

#[test]
fn try_main_without_a_file_has_nothing_to_run() {
    assert_eq!(
        try_main(None, &num, &show).unwrap_err(),
        GlassError::PlaceholderError { message: "REPL not implemented yet".to_string() }
    );
}

#[test]
fn try_main_runs_the_script() {
    let file = Some((FILE.to_string(), Some("1 + 2 * 3 // seven".to_string())));
    assert!(matches!(
        try_main(file, &num, &show),
        Ok(Value::Num(bits)) if f64::from_bits(bits) == 7.0
    ));
    let file = Some((FILE.to_string(), None));
    assert_eq!(
        try_main(file, &num, &show).unwrap_err(),
        GlassError::FileNotFound { filename: FILE.to_string() }
    );
    let file = Some((FILE.to_string(), Some("(1".to_string())));
    assert_eq!(
        try_main(file, &num, &show).unwrap_err(),
        GlassError::UnexpectedEndOfInput { filename: FILE.to_string() }
    );
}

#[test]
fn parser_and_evaluator_by_hand() {
    let source = "(1 + 2) * 3";
    let mut parser = Parser::new(tokenize(source), source.to_string(), FILE.to_string());
    let tree = parser.parse().unwrap();
    assert!(matches!(eval(tree), Ok(Value::Num(bits)) if f64::from_bits(bits) == 9.0));
}
