//! Unit tests of the individual components: character classes, the lexer
//! snapshot, scope frames, and the built-in library.

use monkey::builtin::{first, last, push, put, rest, str_len};
use monkey::env::Environment;
use monkey::helper::{is_digit, is_identifier, is_whitespace};
use monkey::lexer::eval_lexer;
use monkey::object::{HashKey, Object};

#[test]
fn test_is_identifier() {
    assert_eq!(is_identifier('a'), true);
    assert_eq!(is_identifier('_'), true);
    assert_eq!(is_identifier('あ'), false);
    assert_eq!(is_identifier('1'), false);
}

#[test]
fn test_is_digit() {
    assert_eq!(is_digit('1'), true);
    assert_eq!(is_digit('2'), true);
    assert_eq!(is_digit('3'), true);
    assert_eq!(is_digit('4'), true);
    assert_eq!(is_digit('_'), false);
    assert_eq!(is_digit('%'), false);
    assert_eq!(is_digit('１'), false); // non ascii 1
}

#[test]
fn test_is_whitespace() {
    assert_eq!(is_whitespace(' '), true);
    assert_eq!(is_whitespace('\n'), true);
    assert_eq!(is_whitespace('\t'), true);
    assert_eq!(is_whitespace('　'), true); // non-ascii space
}

#[test]
fn test_lexer() {
    let source = String::from("let a = 1;\n");
    let snapshot = eval_lexer(&source).unwrap();
    let expected = "let a = 1;\n^^^ Token(Let, \"let\" [L0-0:3])\n    ^ Token(Identifier, \"a\" [L0-4:5])\n      ^ Token(Assign, \"=\" [L0-6:7])\n        ^ Token(Integer, \"1\" [L0-8:9])\n         ^ Token(Semicolon, \";\" [L0-9:10])\n            Token(EndOfFile, \"\" [L0-11:11])\n";
    assert_eq!(snapshot, expected);
}

#[test]
fn test_lexer_rejects_unknown_characters() {
    let source = String::from("let a = @;");
    assert!(eval_lexer(&source).is_err());
}

#[test]
fn test_environment_frames() {
    let mut env = Environment::new();
    assert!(matches!(env.get("len"), Some(Object::BuiltIn { .. })));
    assert!(env.get("missing").is_none());
    env.store("x", &Object::Int(3));
    assert_eq!(env.get("x"), Some(Object::Int(3)));
    env.store("x", &Object::Int(4));
    assert_eq!(env.get("x"), Some(Object::Int(4)));
}

#[test]
fn test_builtin_library() {
    let arr = Object::Array(vec![Object::Int(1), Object::Int(2), Object::Int(3)]);
    assert_eq!(str_len(vec![arr.clone()]).unwrap(), Object::Int(3));
    assert_eq!(
        str_len(vec![Object::String(String::from("abcd"))]).unwrap(),
        Object::Int(4)
    );
    assert_eq!(first(vec![arr.clone()]).unwrap(), Object::Int(1));
    assert_eq!(last(vec![arr.clone()]).unwrap(), Object::Int(3));
    assert_eq!(
        push(vec![arr.clone(), Object::Int(9)]).unwrap(),
        Object::Array(vec![Object::Int(1), Object::Int(2), Object::Int(3), Object::Int(9)])
    );
    assert_eq!(
        rest(vec![arr.clone()]).unwrap(),
        Object::Array(vec![Object::Int(1), Object::Int(2)])
    );
    let hash = Object::Hash(vec![(HashKey::Int(1), Object::Int(10))]);
    assert_eq!(
        put(vec![hash.clone(), Object::Int(2), Object::Int(20)]).unwrap(),
        Object::Hash(vec![
            (HashKey::Int(1), Object::Int(10)),
            (HashKey::Int(2), Object::Int(20)),
        ])
    );
    assert_eq!(
        put(vec![hash.clone(), Object::Int(1), Object::Int(30)]).unwrap(),
        Object::Hash(vec![(HashKey::Int(1), Object::Int(30))])
    );
    // the inputs are untouched
    assert_eq!(arr, Object::Array(vec![Object::Int(1), Object::Int(2), Object::Int(3)]));
    assert_eq!(hash, Object::Hash(vec![(HashKey::Int(1), Object::Int(10))]));
}

#[test]
fn test_empty_collections() {
    assert!(matches!(first(vec![Object::Array(vec![])]).unwrap(), Object::Null));
    assert!(matches!(last(vec![Object::Array(vec![])]).unwrap(), Object::Null));
    assert_eq!(rest(vec![Object::Array(vec![])]).unwrap(), Object::Array(vec![]));
    assert!(matches!(first(vec![Object::Int(1)]).unwrap(), Object::Error(_)));
    assert!(matches!(rest(vec![Object::Int(1)]).unwrap(), Object::Error(_)));
    assert!(matches!(push(vec![Object::Int(1), Object::Int(2)]).unwrap(), Object::Error(_)));
    assert!(matches!(put(vec![Object::Int(1)]).unwrap(), Object::Error(_)));
}
