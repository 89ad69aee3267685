//! End-to-end tests: source text through the lexer, parser and evaluator.

use monkey::ast::Program;
use monkey::error::Error;
use monkey::interpreter::Evaluate;
use monkey::lexer::MonkeyLexer;
use monkey::object::{HashKey, Object};
use monkey::parser::Parser;

fn parse(source: &str) -> Result<Box<Program>, Error> {
    let lexer = MonkeyLexer::new(source);
    let mut parser = Parser::new(lexer)?;
    parser.parse_program()
}

fn run(source: &str) -> Result<Object, Error> {
    let program = parse(source)?;
    let eval = Evaluate::new();
    eval.evaluate(&program)
}

fn eval_ok(source: &str) -> Object {
    run(source).unwrap()
}

fn assert_int(source: &str, expected: i64) {
    assert_eq!(eval_ok(source), Object::Int(expected), "on {source}");
}

fn assert_bool(source: &str, expected: bool) {
    assert_eq!(eval_ok(source), Object::Bool(expected), "on {source}");
}

fn assert_null(source: &str) {
    assert_eq!(eval_ok(source), Object::Null, "on {source}");
}

fn assert_error(source: &str, message: &str) {
    match eval_ok(source) {
        Object::Error(m) => assert_eq!(m, message, "on {source}"),
        other => panic!("expected an error value for {source}, got {other:?}"),
    }
}

#[test]
fn text_eval_expression() {
    assert_int("10", 10);
    assert_int("152", 152);
    assert_int("-5", -5);
    assert_int("-1523", -1523);

    assert_bool("true", true);
    assert_bool("false", false);

    assert_bool("!true", false);
    assert_bool("!false", true);
    assert_bool("!5", false);
    assert_bool("!0", true);
    assert_bool("!-5", false);
    assert_bool("!-0", true);
    assert_bool("!!5", true);
    assert_bool("!!true", true);
    assert_bool("!!false", false);

    assert_int("5 + 5 + 5 + 5 - 10", 10);
    assert_int("2 * 2 * 2 * 2 * 2", 32);
    assert_int("-50 + 100 + -50", 0);
    assert_int("5 * 2 + 10", 20);
    assert_int("5 + 2 * 10", 25);
    assert_int("20 + 2 * -10", 0);
    assert_int("50 / 2 * 2 + 10", 60);
    assert_int("2 * (5 + 10)", 30);
    assert_int("3 * 3 * 3 + 10", 37);
    assert_int("3 * (3 * 3) + 10", 37);
    assert_int("(5 + 10 * 2 + 15 / 3) * 2 + -10", 50);

    assert_bool("1 < 2", true);
    assert_bool("1 > 2", false);
    assert_bool("1 < 1", false);
    assert_bool("1 > 1", false);
    assert_bool("1 == 1", true);
    assert_bool("1 != 1", false);
    assert_bool("1 == 2", false);
    assert_bool("1 != 2", true);

    assert_int("if (true) { 10 }", 10);
    assert_null("if (false) { 10 }");
    assert_int("if (1) { 10 }", 10);
    assert_int("if (1 < 2) { 10 }", 10);
    assert_null("if (1 > 2) { 10 }");
    assert_int("if (1 > 2) { 10 } else { 20 }", 20);
    assert_int("if (1 < 2) { 10 } else { 20 }", 10);

    assert_int("return 10;", 10);
    assert_int("return 10; 9;", 10);
    assert_int("return 2 * 5; 9;", 10);
    assert_int("9; return 2 * 5; 9;", 10);

    assert_int("if (10 > 1) { if (10 > 1) { return 10; } } return 1;", 10);

    assert_error("5 + true;", "Expected number, got Int and Bool");
    assert_error("-true;", "Unexpected value type");
    assert_error("true + false", "Expected number, got Bool and Bool");
    assert_error("if (10 > 1) { true + false; }", "Expected number, got Bool and Bool");

    assert_int("let x = 5", 5);
    assert_bool("let x = 3 > 5", false);
    assert_bool("let x = 100 > 5", true);
    assert_bool("let x = 100 > 5; x", true);
    assert_error("let x = 100 > 5; y", "identifier not found: y");
    assert_int("let x = 100; let y = 200; x + y", 300);
}

#[test]
fn test_eval_function() {
    match eval_ok("fn() { let x = 5 }") {
        Object::Function { ident, .. } => assert_eq!(ident.len(), 0),
        other => panic!("expected a function, got {other:?}"),
    }
    match eval_ok("fn(a, b, c) { let x = 5 }") {
        Object::Function { ident, .. } => {
            let names: Vec<String> = ident.into_iter().map(|i| i.0).collect();
            assert_eq!(names, vec!["a", "b", "c"]);
        },
        other => panic!("expected a function, got {other:?}"),
    }
    match eval_ok("let a = 5; let c = fn() { a }; let b = 5; c;") {
        Object::Function { ident, .. } => assert_eq!(ident.len(), 0),
        other => panic!("expected a function, got {other:?}"),
    }
    match eval_ok("fn(a) { fn() { } }") {
        Object::Function { .. } => {},
        other => panic!("expected a function, got {other:?}"),
    }
    assert_int("let a = 5; let c = fn() { a }; c();", 5);
    assert_int("let a = 5; let c = fn(b) { b + 10 }; c(a);", 15);
    assert_int("let a = 5; let c = fn(b) { b + 10 }; c(2);", 12);
    assert_int("let o = 5; let a = fn() { o }; let b = fn(m) { m() }; b(a);", 5);
}

#[test]
fn test_eval_string() {
    assert_eq!(eval_ok("\"This is a test\""), Object::String(String::from("This is a test")));
    assert_eq!(eval_ok("\"This \" + \"is\\n\""), Object::String(String::from("This is\n")));
    assert_eq!(eval_ok("\"This \" + 5"), Object::String(String::from("This 5")));
}

#[test]
fn test_len() {
    assert_int("len(\"This is a test\")", 14);
    assert_error("len(12345)", "len(): Invalid argument");
    assert_error(
        "len(\"This is\", \"a test\")",
        "len(): Invalid number of argument - expected 1 got 2",
    );
}

#[test]
fn test_array() {
    assert_eq!(
        eval_ok("[0, 1, 3]"),
        Object::Array(vec![Object::Int(0), Object::Int(1), Object::Int(3)])
    );
    assert_int("[0, 1, 3][1]", 1);
    assert_null("[0, 1, 3][-1]");
    assert_null("[0, 1, 3][5]");
    assert_int("let a = 2; [0, 1, 3][a]", 3);
    assert_int("let myArray = [1, 2, 3]; myArray[0] + myArray[1] + myArray[2];", 6);
    assert_int(
        "let myArray = [1, 2, 3]; myArray[0] + myArray[myArray[0]] + myArray[myArray[0] + myArray[0]];",
        6,
    );
    assert_int("len([1, 2, 3, 4])", 4);
    assert_int("let myArray = [1, 2, 3]; len(myArray);", 3);
    assert_int("first([1, 2, 3, 4])", 1);
    assert_int("last([1, 2, 3, 4])", 4);
    assert_eq!(
        eval_ok("push([1, 2], 5)"),
        Object::Array(vec![Object::Int(1), Object::Int(2), Object::Int(5)])
    );
    assert_eq!(eval_ok("rest([1, 2, 3])"), Object::Array(vec![Object::Int(1), Object::Int(2)]));
}

#[test]
fn test_hash() {
    assert_eq!(
        eval_ok("{\"a\": 5, \"b\": \"a\"}[\"b\"]"),
        Object::String(String::from("a"))
    );
    assert_int("{10: 5, 13: 5}[10]", 5);
    assert_int("{true: 15, false: 65}[false]", 65);
    assert_int("put({1: 15, 2: 65}, 3, 16)[3]", 16);
}

#[test]
fn test_truthiness_of_zero() {
    assert_null("if (0) { 10 }");
    assert_int("if (1) { 10 }", 10);
}

#[test]
fn test_hash_key_restriction() {
    assert_error("{[1]: 2}", "unusable as hash key");
    assert_error("put({1: 2}, [1], 3)", "put(): unusable as hash key");
    assert_error("{1: 2}[[1]]", "unusable as hash key");
}

#[test]
fn test_builtins_leave_their_arguments_unchanged() {
    assert_eq!(
        eval_ok("let a = [1, 2]; push(a, 5); a"),
        Object::Array(vec![Object::Int(1), Object::Int(2)])
    );
    assert_eq!(
        eval_ok("let h = {1: 2}; put(h, 3, 4); h"),
        Object::Hash(vec![(HashKey::Int(1), Object::Int(2))])
    );
    assert_error("let h = {1: 2}; put(h, 3, 4); h[3]", "key not found");
    assert_int("let h = {1: 2}; put(h, 3, 4)[3]", 4);
}

#[test]
fn test_checked_arithmetic() {
    assert_error("9223372036854775806 + 2", "integer overflow");
    assert_error("0 - 9223372036854775807 - 9223372036854775807", "integer overflow");
    assert_error("5 / 0", "division by zero");
    assert_int("7 / 2", 3);
    assert_int("0 - 7 / 2", -3);
    assert_error("hole", "identifier not found: hole");
}

#[test]
fn test_hash_miss_is_defined() {
    assert_error("{1: 2}[5]", "key not found");
    assert_error("5[0]", "Can not index object type");
    assert_error("[1, 2][true]", "Invalid index value");
}

#[test]
fn test_fatal_faults() {
    match run("5()") {
        Err(Error::FatalError(_)) => {},
        other => panic!("expected a fatal fault, got {other:?}"),
    }
    match run("nosuch(1)") {
        Err(Error::FatalError(m)) => assert_eq!(m, "identifier not found: nosuch"),
        other => panic!("expected a fatal fault, got {other:?}"),
    }
}

#[test]
fn test_parse_failures() {
    match parse("let x 5;") {
        Err(Error::InvalidTokenError(t)) => assert_eq!(t.literal, "5"),
        other => panic!("expected a parse failure, got {other:?}"),
    }
    match parse("9223372036854775808") {
        Err(Error::InvalidTokenError(t)) => assert_eq!(t.literal, "9223372036854775808"),
        other => panic!("expected a parse failure, got {other:?}"),
    }
    match parse("let x = @;") {
        Err(Error::TodoError(m)) => assert_eq!(m, "unsupported token @"),
        other => panic!("expected a lex failure, got {other:?}"),
    }
    match parse("\"bad \\q escape\"") {
        Err(Error::InvalidCharError(c)) => assert_eq!(c, 'q'),
        other => panic!("expected an escape failure, got {other:?}"),
    }
}

#[test]
fn test_render() {
    assert_eq!(eval_ok("[1, \"a\"]").render(), "Array([Int(1), String(\"a\")])");
    assert_eq!(eval_ok("{1: \"x\\n\"}").render(), "Hash({1: String(\"x\\n\")})");
    assert_eq!(eval_ok("len(1)").render(), "Error(\"len(): Invalid argument\")");
    assert_eq!(eval_ok("fn(a, b) { a }").render(), "Function(a, b)");
    assert_eq!(eval_ok("len").render(), "BuiltIn { name: \"len\", params: 1 }");
}
