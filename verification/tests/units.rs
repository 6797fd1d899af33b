//! Unit tests for the environment arena, the expression printer, the
//! scanner and the value model.
use rlox::callable::Callable;
use rlox::environment::Environment;
use rlox::expr::{Expr, LiteralValue};
use rlox::rlvalue::RlValue;
use rlox::scanner::Scanner;
use rlox::token::{Literal, Token, TokenType};
use rlox::ErrorReporter;

#[test]
fn simple_read() {
    let mut envs: Vec<Environment> = vec![Environment::new(None)];

    let key = Token::simple_token(TokenType::Var, String::from("k1"), 1);
    let value = RlValue::Boolean(true);

    envs[0].define(key.clone(), Some(value));
    let res = Environment::get(&envs, 0, &key).expect("should be bound");
    assert!(matches!(res, RlValue::Boolean(true)));
}

#[test]
fn nested_read() {
    let mut envs: Vec<Environment> = vec![Environment::new(None), Environment::new(Some(0))];

    let key = Token::simple_token(TokenType::Var, String::from("k1"), 1);
    let value = RlValue::Boolean(true);

    envs[0].define(key.clone(), Some(value));
    let res = Environment::get(&envs, 0, &key).expect("outer read");
    assert!(matches!(res, RlValue::Boolean(true)));

    let res = Environment::get(&envs, 1, &key).expect("nested read");
    assert!(matches!(res, RlValue::Boolean(true)));

    let res = envs[1].values.get("k1");
    assert!(res.is_none());
}

#[test]
fn simple_literal() {
    let s = Expr::Literal(LiteralValue::String("asdf".to_string()));
    println!("{:?}", Expr::sorta_pretty_print(&s));
}

#[test]
fn simple_negative() {
    let n = Box::new(Expr::Literal(LiteralValue::Number(42)));
    let neg = Token::simple_token(TokenType::Bang, "!".to_string(), 0);
    let unary = Expr::Unary(neg, n);
    println!("{:?}", Expr::sorta_pretty_print(&unary));
}

#[test]
fn simple_add() {
    let left = Box::new(Expr::Literal(LiteralValue::Number(42)));
    let right = Box::new(Expr::Literal(LiteralValue::Number(3)));
    let plus = Token::simple_token(TokenType::Plus, "+".to_string(), 0);
    let binary = Expr::Binary(left, plus, right);
    println!("{:?}", Expr::sorta_pretty_print(&binary));
}

#[test]
fn pretty_print_renders_prefix_terms() {
    let left = Box::new(Expr::Literal(LiteralValue::Number(42)));
    let right = Box::new(Expr::Literal(LiteralValue::Number(3)));
    let plus = Token::simple_token(TokenType::Plus, "+".to_string(), 0);
    let binary = Expr::Binary(left, plus, right);
    assert_eq!(Expr::sorta_pretty_print(&binary), "(+ 42 3)");

    let inner = Box::new(Expr::Literal(LiteralValue::Number(-7)));
    let neg = Token::simple_token(TokenType::Minus, "-".to_string(), 0);
    assert_eq!(Expr::sorta_pretty_print(&Expr::Unary(neg, inner)), "(- -7)");

    let grouped = Expr::Grouping(Box::new(Expr::Literal(LiteralValue::Boolean(true))));
    assert_eq!(Expr::sorta_pretty_print(&grouped), "( true)");

    let nil = Expr::Literal(LiteralValue::Nil());
    assert_eq!(Expr::sorta_pretty_print(&nil), "nil");
}

#[test]
fn environment_get_at_walks_exact_hops() {
    let mut envs: Vec<Environment> = vec![
        Environment::new(None),
        Environment::new(Some(0)),
        Environment::new(Some(1)),
    ];
    let key = Token::simple_token(TokenType::Identifier, String::from("x"), 1);
    envs[1].define(key.clone(), Some(RlValue::Number(5)));

    let res = Environment::get_at(&envs, 2, 1, &key).expect("one hop up");
    assert!(matches!(res, RlValue::Number(5)));
    assert!(Environment::get_at(&envs, 2, 0, &key).is_err());
    assert!(Environment::get_at(&envs, 2, 3, &key).is_err());
}

#[test]
fn environment_assign_never_creates_bindings() {
    let mut envs: Vec<Environment> = vec![Environment::new(None), Environment::new(Some(0))];
    let key = Token::simple_token(TokenType::Identifier, String::from("x"), 1);
    envs[0].define(key.clone(), Some(RlValue::Number(1)));

    Environment::assign(&mut envs, 1, &key, RlValue::Number(2)).expect("assign through parent");
    let res = Environment::get(&envs, 1, &key).expect("read back");
    assert!(matches!(res, RlValue::Number(2)));

    let other = Token::simple_token(TokenType::Identifier, String::from("y"), 1);
    let r = Environment::assign(&mut envs, 1, &other, RlValue::Number(3));
    assert!(r.is_err());
}

#[test]
fn uninitialized_binding_reads_as_nil() {
    let mut envs: Vec<Environment> = vec![Environment::new(None)];
    let key = Token::simple_token(TokenType::Identifier, String::from("u"), 1);
    envs[0].define(key.clone(), None);
    let res = Environment::get(&envs, 0, &key).expect("declared name");
    assert!(matches!(res, RlValue::Nil));
}

#[test]
fn builtin_clock_found_at_the_root() {
    let envs: Vec<Environment> = vec![Environment::new(None)];
    let key = Token::simple_token(TokenType::Identifier, String::from("clock"), 1);
    let res = Environment::get(&envs, 0, &key).expect("builtin");
    assert!(matches!(res, RlValue::Callable(Callable::BuiltIn(_))));
    assert!(Callable::find_builtin("clock").is_some());
    assert!(Callable::find_builtin("tick").is_none());
}

#[test]
fn truthiness_only_nil_and_false_are_falsy() {
    assert!(!RlValue::Nil.is_truthy());
    assert!(!RlValue::Boolean(false).is_truthy());
    assert!(RlValue::Boolean(true).is_truthy());
    assert!(RlValue::Number(0).is_truthy());
    assert!(RlValue::String(String::new()).is_truthy());
}

#[test]
fn value_predicates_and_conversions() {
    assert!(RlValue::Nil.is_nil());
    assert!(RlValue::Boolean(true).is_bool());
    assert!(RlValue::Number(3).is_numeric());
    assert!(RlValue::String("s".to_string()).is_string());
    assert_eq!(RlValue::Number(3).as_numeric(), Some(3));
    assert_eq!(RlValue::Nil.as_numeric(), None);
    assert_eq!(RlValue::String("s".to_string()).as_string(), Some("s".to_string()));
    let v = RlValue::from(LiteralValue::Number(9));
    assert!(matches!(v, RlValue::Number(9)));
    let v = RlValue::from(LiteralValue::Nil());
    assert!(v.is_nil());
}

#[test]
fn scanner_produces_eof_terminated_tokens() {
    let mut scanner = Scanner::new("var x = 12; // note\nprint x;".to_string(), ErrorReporter::new());
    scanner.scan_tokens().expect("scan");
    let tokens = scanner.tokens();
    let types: Vec<TokenType> = tokens.iter().map(|t| t.token_type).collect();
    assert_eq!(
        types,
        vec![
            TokenType::Var,
            TokenType::Identifier,
            TokenType::Equal,
            TokenType::Number,
            TokenType::Semicolon,
            TokenType::Print,
            TokenType::Identifier,
            TokenType::Semicolon,
            TokenType::Eof,
        ]
    );
    match &tokens[3].literal {
        Some(Literal::NumberLiteral(n)) => assert_eq!(*n, 12),
        other => panic!("expected a number payload, got {:?}", other),
    }
    assert!(!scanner.error_reporter.had_error());
}

#[test]
fn scanner_reads_string_literals_across_lines() {
    let mut scanner = Scanner::new("\"ab\ncd\"".to_string(), ErrorReporter::new());
    scanner.scan_tokens().expect("scan");
    let tokens = scanner.tokens();
    assert_eq!(tokens[0].token_type, TokenType::String);
    match &tokens[0].literal {
        Some(Literal::StringLiteral(s)) => assert_eq!(s, "ab\ncd"),
        other => panic!("expected a string payload, got {:?}", other),
    }
}

#[test]
fn error_reporter_records_and_resets() {
    let mut reporter = ErrorReporter::new();
    assert!(!reporter.had_error());
    reporter.error(3, "something went wrong");
    assert!(reporter.had_error());
    assert_eq!(reporter.log.len(), 1);
    assert_eq!(reporter.log[0], "[line 3] Error : something went wrong");
    reporter.reset();
    assert!(!reporter.had_error());
}
