use rlox::ast::Stmt;
use rlox::callable::{Callable, Clock, LoxFunction};
use rlox::err::LoxError;
use rlox::interpreter::{ControlFlow, Interpreter, Value};
use rlox::number::Number;
use rlox::parser::Parser;
use rlox::scanner::Scanner;

fn run(source: &str) -> (Vec<String>, Result<(), LoxError>) {
    let (tokens, errors) = Scanner::new(source.to_string()).scan_tokens();
    assert!(errors.is_empty(), "lexical errors: {:?}", errors);
    let stmts = Parser::new(tokens).parse().expect("the program parses");
    Interpreter::new(stmts).interpret()
}

fn prints(source: &str) -> Vec<String> {
    let (lines, result) = run(source);
    assert_eq!(result, Ok(()));
    lines
}

fn fails(source: &str) -> LoxError {
    let (_, result) = run(source);
    result.expect_err("the program fails")
}

#[test]
fn shadowing_prints_inner_then_outer() {
    assert_eq!(prints("var x = 1; { var x = 2; print x; } print x;"), vec!["2", "1"]);
}

#[test]
fn closure_sees_the_scope_it_was_declared_in() {
    let source = "var x = \"global\";\n\
                  { var x = \"outer\"; fun show() { print x; } { var x = \"inner\"; show(); } }";
    assert_eq!(prints(source), vec!["outer"]);
}

#[test]
fn closure_keeps_its_scope_after_the_block_is_left() {
    let source = "fun counter() { var n = 0; fun next() { n = n + 1; return n; } return next; }\n\
                  var c = counter(); print c(); print c(); var d = counter(); print d();";
    assert_eq!(prints(source), vec!["1", "2", "1"]);
}

#[test]
fn and_or_short_circuit() {
    let source = "fun effect() { print \"called\"; return true; }\n\
                  print false and effect(); print true or effect();\n\
                  print true and effect(); print nil or \"x\";";
    assert_eq!(prints(source), vec!["false", "true", "called", "true", "x"]);
}

#[test]
fn break_leaves_as_many_loops_as_it_says() {
    let source = "var i = 0; while (i < 3) { var j = 0; while (true) { j = j + 1; if (j == 2) break; } \
                  print j; i = i + 1; }\n\
                  var a = 0; while (a < 3) { while (true) { break 2; } a = a + 1; } print a;";
    assert_eq!(prints(source), vec!["2", "2", "2", "0"]);
}

#[test]
fn arithmetic_on_wrong_types_is_an_error() {
    let e = fails("print \"a\" - 1;");
    assert_eq!(e.msg, "Operand must be number");
    assert_eq!(e.where_, "-");
    assert_eq!(e.line, 1);
    let e = fails("print 1 + \"a\";");
    assert_eq!(e.msg, "Operand must be number or str");
    assert_eq!(prints("print \"a\" + \"b\";"), vec!["ab"]);
}

#[test]
fn equality_converts_nothing() {
    assert_eq!(
        prints("print 1 == \"1\"; print nil == false; print 1 == 1; print \"a\" != \"a\"; print nil == nil;"),
        vec!["false", "false", "true", "false", "true"]
    );
}

#[test]
fn call_with_wrong_argument_count_names_both_counts() {
    let e = fails("fun f(a, b) { return a; } f(1);");
    assert_eq!(e.msg, "Expected 2 args but got 1.");
    let e = fails("fun f(a, b) { return a; } f(1, 2, 3);");
    assert_eq!(e.msg, "Expected 2 args but got 3.");
    assert_eq!(prints("fun f(a, b) { return a + b; } print f(1, 2);"), vec!["3"]);
}

#[test]
fn for_loop_counts_and_keeps_its_variable() {
    assert_eq!(prints("for (var i = 0; i < 3; i = i + 1) print i;"), vec!["0", "1", "2"]);
    let e = fails("for (var i = 0; i < 3; i = i + 1) print i; print i;");
    assert_eq!(e.msg, "Undefined variable");
    assert_eq!(e.where_, "i");
}

#[test]
fn numbers_print_exactly() {
    assert_eq!(
        prints("print 1.5 + 2.25; print 10 / 4; print 1 / 3; print -0.5 * 3; print 7 - 10; print 2 * 3.5;"),
        vec!["3.75", "2.5", "0.333333333", "-1.5", "-3", "7"]
    );
}

#[test]
fn recursion_works_and_is_bounded() {
    assert_eq!(
        prints("fun fib(n) { if (n < 2) return n; return fib(n - 1) + fib(n - 2); } print fib(15);"),
        vec!["610"]
    );
    let e = fails("fun down(n) { return down(n + 1); } down(0);");
    assert_eq!(e.msg, "Stack overflow");
}

#[test]
fn division_by_zero_is_an_error() {
    let e = fails("print 1 / 0;");
    assert_eq!(e.msg, "Division by zero");
}

#[test]
fn calling_what_is_no_function_is_an_error() {
    let e = fails("var x = 1; x();");
    assert_eq!(e.msg, "Can only call functions and classes.");
}

#[test]
fn statements_run_one_by_one_and_hand_out_their_lines() {
    let (tokens, _) = Scanner::new("var t = clock(); print t; print clock; break 3; return 4;".to_string())
        .scan_tokens();
    let stmts = Parser::new(tokens).parse().expect("the program parses");
    let mut interpreter = Interpreter::new(Vec::new());
    assert!(interpreter.ast().is_empty());
    interpreter.set_time(Number::from_parts(false, 12, 500_000_000).unwrap());
    assert_eq!(interpreter.time(), Number::from_units(12_500_000_000).unwrap());
    assert!(matches!(interpreter.execute(&stmts[0]), Ok(ControlFlow::Normal)));
    interpreter.set_time(Number::from_i64(99));
    assert!(matches!(interpreter.execute(&stmts[1]), Ok(ControlFlow::Normal)));
    assert_eq!(interpreter.take_output(), vec!["12.5"]);
    assert!(interpreter.take_output().is_empty());
    assert!(matches!(interpreter.execute(&stmts[2]), Ok(ControlFlow::Normal)));
    assert_eq!(interpreter.take_output(), vec!["Native function"]);
    assert!(matches!(interpreter.execute(&stmts[3]), Ok(ControlFlow::Break(3))));
    match interpreter.execute(&stmts[4]) {
        Ok(ControlFlow::Return(v)) => assert_eq!(v.to_string(), "4"),
        other => panic!("unexpected {other:?}"),
    }
}

#[test]
fn a_runtime_error_ends_the_run_and_keeps_what_was_printed() {
    let (lines, result) = run("print 1; print x; print 2;");
    assert_eq!(lines, vec!["1"]);
    assert_eq!(result, Err(LoxError::new(1, "x".to_string(), "Undefined variable")));
    let e = fails("x = 1;");
    assert_eq!(e.msg, "Undefined variable");
    let e = fails("print -\"a\";");
    assert_eq!(e.msg, "Operand of '-' must be a number");
    let e = fails("while (true) { break 0; }");
    assert_eq!(e.msg, "Break level must be at least one");
    let e = fails("clock(1);");
    assert_eq!(e.msg, "Expected 0 args but got 1.");
}

#[test]
fn the_bounds_end_loops_and_calls() {
    let (tokens, _) =
        Scanner::new("var n = 0; while (true) n = n + 1; fun f(d) { if (d > 0) f(d - 1); } f(2); f(3);".to_string())
            .scan_tokens();
    let stmts = Parser::new(tokens).parse().expect("the program parses");
    let mut interpreter = Interpreter::new(stmts.clone());
    interpreter.set_limits(3, 10);
    assert!(interpreter.execute(&stmts[0]).is_ok());
    assert_eq!(
        interpreter.execute(&stmts[1]).map(|_| ()),
        Err(LoxError::new(0, "while".to_string(), "Loop ran too long"))
    );
    assert!(interpreter.execute(&stmts[2]).is_ok());
    assert!(interpreter.execute(&stmts[3]).is_ok());
    assert_eq!(
        interpreter.execute(&stmts[4]).map(|_| ()),
        Err(LoxError::new(1, ")".to_string(), "Stack overflow"))
    );
    let mut bounded = Interpreter::new(stmts);
    bounded.set_limits(64, 1000);
    let (lines, result) = bounded.interpret();
    assert!(lines.is_empty());
    assert_eq!(result.map_err(|e| e.msg), Err("Loop ran too long".to_string()));
}

#[test]
fn scopes_are_left_on_every_way_out() {
    let source = "var x = 0; while (true) { var x = 1; { var x = 2; break; } } print x;\n\
                  fun f() { var x = 3; { var x = 4; { return x; } } } print f(); print x;\n\
                  { var x = 5; { print y; } }";
    let (lines, result) = run(source);
    assert_eq!(lines, vec!["0", "4", "0"]);
    assert_eq!(result.map_err(|e| e.msg), Err("Undefined variable".to_string()));
    let (tokens, _) = Scanner::new("{ var x = 5; { print y; } } print 6;".to_string()).scan_tokens();
    let stmts = Parser::new(tokens).parse().expect("the program parses");
    let mut interpreter = Interpreter::new(Vec::new());
    assert!(interpreter.execute(&stmts[0]).is_err());
    assert!(interpreter.execute(&stmts[1]).is_ok());
    let e = interpreter.execute(&Parser::new(
        Scanner::new("print x;".to_string()).scan_tokens().0,
    ).parse().unwrap()[0]);
    assert_eq!(e.map(|_| ()).map_err(|e| e.msg), Err("Undefined variable".to_string()));
}

#[test]
fn functions_can_be_called_from_outside() {
    let (tokens, _) = Scanner::new("fun twice(a) { return a + a; }".to_string()).scan_tokens();
    let stmts = Parser::new(tokens).parse().expect("the program parses");
    let function = match &stmts[0] {
        Stmt::Func { name, params, body } => {
            LoxFunction { name: name.clone(), params: params.clone(), body: body.clone(), closure: 0 }
        }
        other => panic!("unexpected {other:?}"),
    };
    let mut interpreter = Interpreter::new(Vec::new());
    assert_eq!(function.arity(), 1);
    let v = function.call(&mut interpreter, vec![Value::Str("ab".to_string())]);
    assert_eq!(v.map(|v| v.to_string()), Ok("abab".to_string()));
    let e = interpreter.call(&function, vec![]);
    assert_eq!(e.map(|v| v.to_string()).map_err(|e| e.msg), Err("Expected 1 args but got 0.".to_string()));
    let lost = LoxFunction { closure: 7, ..function };
    let e = interpreter.call(&lost, vec![Value::Nil]);
    assert_eq!(
        e.map(|v| v.to_string()),
        Err(LoxError::new(1, "twice".to_string(), "Function outlived its scope"))
    );
    assert_eq!(Clock.arity(), 0);
    interpreter.set_time(Number::from_i64(5));
    assert_eq!(Clock.call(&mut interpreter, vec![]).map(|v| v.to_string()), Ok("5".to_string()));
    let now = Clock::now().expect("the clock is past 1970");
    assert!(now.units() > 1_600_000_000_000_000_000);
}
