//! End-to-end runs of whole programs through scan, parse, resolve and
//! execute.
use rlox::error::RloxError;
use rlox::interpreter::Interpreter;
use rlox::parser::Parser;
use rlox::resolver::Resolver;
use rlox::scanner::Scanner;
use rlox::ErrorReporter;
use rlox::RLox;

const FUEL: u64 = 100_000;

fn run(source: &str) -> Result<Vec<String>, RloxError> {
    let mut lox = RLox::new(ErrorReporter::new());
    lox.run(source, 0, FUEL)
}

fn run_ok(source: &str) -> Vec<String> {
    run(source).expect("program should run")
}

#[test]
fn arithmetic_precedence() {
    assert_eq!(run_ok("print (1 + 2) * 3 - 4 / 2;"), vec!["7"]);
}

#[test]
fn string_concat() {
    assert_eq!(run_ok("print \"foo\" + \"bar\";"), vec!["foobar"]);
}

#[test]
fn global_assignment() {
    assert_eq!(run_ok("var a = 1; a = a + 2; print a;"), vec!["3"]);
}

#[test]
fn closure_capture() {
    let source = "fun makeCounter() { var i = 0; fun count() { i = i + 1; print i; } return count; }\n\
                  var c = makeCounter(); c(); c(); c();";
    assert_eq!(run_ok(source), vec!["1", "2", "3"]);
}

#[test]
fn lexical_scoping() {
    let source = "var a = \"global\";\n\
                  { fun show() { print a; } show(); var a = \"local\"; show(); }";
    assert_eq!(run_ok(source), vec!["global", "global"]);
}

#[test]
fn for_loop_desugaring() {
    assert_eq!(
        run_ok("for (var i = 0; i < 3; i = i + 1) print i;"),
        vec!["0", "1", "2"]
    );
}

#[test]
fn return_early_exit() {
    assert_eq!(
        run_ok("fun f() { if (true) return 42; return 0; } print f();"),
        vec!["42"]
    );
}

#[test]
fn return_unwinds_to_the_function_call() {
    assert_eq!(
        run_ok("fun f() { { return 42; } return 0; } print f();"),
        vec!["42"]
    );
    assert_eq!(run_ok("fun g() { var x = 1; } print g();"), vec!["nil"]);
}

#[test]
fn return_outside_a_function_is_an_error_not_a_signal() {
    let r = run("{ return 1; }");
    assert!(matches!(r, Err(RloxError::Unreachable(_))));
    let r = run("return;");
    assert!(matches!(r, Err(RloxError::Unreachable(_))));
    let r = run("print 1; return 2;");
    assert!(matches!(r, Err(RloxError::Unreachable(_))));
}

#[test]
fn binary_operators_associate_left() {
    assert_eq!(run_ok("print 10 - 2 - 3; print 24 / 4 / 2;"), vec!["5", "3"]);
}

#[test]
fn recursive_function_computes() {
    assert_eq!(
        run_ok("fun fib(n) { if (n < 2) return n; return fib(n - 1) + fib(n - 2); } print fib(10);"),
        vec!["55"]
    );
}

#[test]
fn self_initializer_error() {
    let r = run("{ var a = a; }");
    assert!(matches!(r, Err(RloxError::ResolveError(_))));
}

#[test]
fn arity_mismatch() {
    let r = run("fun g(x) { print x; } g(1, 2);");
    match r {
        Err(RloxError::ArityError(expected, got)) => {
            assert_eq!(expected, 1);
            assert_eq!(got, 2);
        }
        other => panic!("expected an arity error, got {:?}", other),
    }
}

#[test]
fn undefined_symbol() {
    let r = run("print bogus;");
    match r {
        Err(RloxError::UndefinedSymbol(name)) => assert_eq!(name, "bogus"),
        other => panic!("expected an undefined symbol, got {:?}", other),
    }
}

#[test]
fn truthiness_of_values() {
    assert_eq!(
        run_ok("print !nil; print !false; print !0; print !\"\"; print !true;"),
        vec!["true", "true", "false", "false", "false"]
    );
}

#[test]
fn short_circuit_skips_right_operand() {
    let source = "var a = 0; fun side() { a = a + 1; return true; }\n\
                  var r1 = true or side(); print a;\n\
                  var r2 = false and side(); print a;\n\
                  var r3 = false or side(); print a;\n\
                  var r4 = true and side(); print a;";
    assert_eq!(run_ok(source), vec!["0", "0", "1", "2"]);
}

#[test]
fn logical_result_is_operand_value() {
    assert_eq!(
        run_ok("print nil or \"x\"; print 1 and 2; print nil and 3; print 4 or 5;"),
        vec!["x", "2", "nil", "4"]
    );
}

#[test]
fn block_scoping_restores_outer_binding() {
    assert_eq!(
        run_ok("var x = 1; { var x = 2; print x; } print x;"),
        vec!["2", "1"]
    );
}

#[test]
fn clock_returns_embedder_time() {
    let mut lox = RLox::new(ErrorReporter::new());
    let out = lox.run("print clock();", 12345, FUEL).expect("should run");
    assert_eq!(out, vec!["12345"]);
}

#[test]
fn incorrect_type_for_plus() {
    let r = run("print 1 + \"a\";");
    assert!(matches!(r, Err(RloxError::IncorrectType(_))));
}

#[test]
fn incorrect_type_for_call_target() {
    let r = run("var a = 1; a(2);");
    assert!(matches!(r, Err(RloxError::IncorrectType(_))));
}

#[test]
fn division_by_zero_is_an_error() {
    let r = run("print 1 / 0;");
    assert!(matches!(r, Err(RloxError::IncorrectType(_))));
}

#[test]
fn assignment_to_undeclared_name() {
    let r = run("b = 1;");
    match r {
        Err(RloxError::UndefinedVariable(name)) => assert_eq!(name, "b"),
        other => panic!("expected an undefined variable, got {:?}", other),
    }
}

#[test]
fn malformed_stream_is_a_parse_error() {
    assert!(matches!(run("print ;"), Err(RloxError::ParseError(_))));
    assert!(matches!(run("var = 3;"), Err(RloxError::ParseError(_))));
    assert!(matches!(run("(1 + 2"), Err(RloxError::ParseError(_))));
}

#[test]
fn scanner_rejects_what_it_cannot_represent() {
    assert!(matches!(run("print 1.5;"), Err(RloxError::ParseError(_))));
    assert!(matches!(
        run("print 99999999999999999999;"),
        Err(RloxError::ParseError(_))
    ));
    assert!(matches!(run("print @;"), Err(RloxError::ParseError(_))));
    assert!(matches!(run("print \"open"), Err(RloxError::ParseError(_))));
}

#[test]
fn unbounded_recursion_hits_the_limit() {
    let mut lox = RLox::new(ErrorReporter::new());
    let r = lox.run("fun f() { return f(); } f();", 0, 500);
    assert!(matches!(r, Err(RloxError::RecursionLimit)));
}

#[test]
fn arithmetic_wraps_at_the_edges() {
    assert_eq!(
        run_ok("print 9223372036854775807 + 1;"),
        vec!["-9223372036854775808"]
    );
    assert_eq!(run_ok("print 0 - 9223372036854775807 - 1;"), vec!["-9223372036854775808"]);
}

#[test]
fn negative_numbers_and_comparisons() {
    assert_eq!(
        run_ok("print -5; print 3 < 4; print 4 <= 3; print 5 > 1; print 1 >= 2; print 2 == 2; print 2 != 2;"),
        vec!["-5", "true", "false", "true", "false", "true", "false"]
    );
}

#[test]
fn while_loop_runs_until_falsy() {
    assert_eq!(
        run_ok("var i = 0; while (i < 2) { print i; i = i + 1; }"),
        vec!["0", "1"]
    );
}

#[test]
fn if_else_branches() {
    assert_eq!(
        run_ok("if (1 > 2) print \"then\"; else print \"else\"; if (true) print \"t\";"),
        vec!["else", "t"]
    );
}

#[test]
fn function_value_prints_as_placeholder() {
    assert_eq!(run_ok("fun f() {} print f;"), vec!["<fn>"]);
}

#[test]
fn resolver_runs_are_idempotent() {
    let source = "var a = 1; { var b = a; { print b; print a; } }";
    let mut scanner = Scanner::new(source.to_string(), ErrorReporter::new());
    scanner.scan_tokens().expect("scan");
    let mut parser = Parser::new(scanner.tokens(), ErrorReporter::new());
    let stmts = parser.parse().expect("parse");

    let mut interp = Interpreter::new();
    let mut resolver = Resolver::new();
    for s in &stmts {
        resolver.resolve(&mut interp, s).expect("resolve once");
    }
    let first = interp.locals.entries.clone();
    let mut resolver2 = Resolver::new();
    for s in &stmts {
        resolver2.resolve(&mut interp, s).expect("resolve twice");
    }
    assert_eq!(interp.locals.entries, first);
}

#[test]
fn resolution_distances_count_enclosing_scopes() {
    // inner print sees `b` at distance 1 and `a` at distance 2;
    // the initializer of `b` sees `a` at distance 0 of its own scope.
    let source = "{ var a = 1; { var b = a; { print b; } } }";
    let mut scanner = Scanner::new(source.to_string(), ErrorReporter::new());
    scanner.scan_tokens().expect("scan");
    let mut parser = Parser::new(scanner.tokens(), ErrorReporter::new());
    let stmts = parser.parse().expect("parse");
    let mut interp = Interpreter::new();
    let mut resolver = Resolver::new();
    for s in &stmts {
        resolver.resolve(&mut interp, s).expect("resolve");
    }
    let mut distances: Vec<u32> = interp.locals.entries.iter().map(|e| e.1).collect();
    distances.sort_unstable();
    assert_eq!(distances, vec![1, 1]);
}
