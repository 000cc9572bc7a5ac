use lox_rs::ast::{Expr, ExprVisitor, Interpreter, Stmt, StmtVisitor};
use lox_rs::atom::Atom;
use lox_rs::errors::LanguageError;
use lox_rs::parser::Parser;
use lox_rs::scanner::{Scanner, Token};

fn scan_ok(source: &str) -> Vec<Token> {
    let mut scanner = Scanner::new(String::from(source));
    match scanner.scan_tokens() {
        Ok(tokens) => tokens.clone(),
        Err(errs) => panic!("unexpected lexical errors: {:?}", errs),
    }
}

fn parse_program(source: &str) -> Vec<Stmt> {
    let tokens = scan_ok(source);
    let mut parser = Parser::new(&tokens);
    parser.parse_program().expect("expected a clean parse")
}

fn eval_source(source: &str, intp: &mut Interpreter) -> Atom {
    let stmts = parse_program(source);
    let mut last = Atom::Nil;
    for stmt in &stmts {
        match stmt {
            Stmt::Expr(e) => last = intp.visit_expr(e),
            other => intp.visit_stmt(other),
        }
    }
    last
}

#[test]
fn one_plus_two_times_three_is_seven() {
    let mut intp = Interpreter::default();
    let r = eval_source("1 + 2 * 3;", &mut intp);
    match r {
        Atom::Number(bits) => assert_eq!(bits, 7f64.to_bits()),
        other => panic!("expected a number, got {:?}", other),
    }
    assert!(intp.error.is_none());
}

#[test]
fn literal_evaluation_is_a_round_trip() {
    let mut intp = Interpreter::default();
    let r = intp.evaluate(Expr::Literal(Atom::Nil));
    assert!(matches!(r, Atom::Nil));
    let r = intp.evaluate(Expr::Literal(Atom::Bool(true)));
    assert!(matches!(r, Atom::Bool(true)));
    let r = intp.evaluate(Expr::Literal(Atom::Bool(false)));
    assert!(matches!(r, Atom::Bool(false)));
    let r = intp.evaluate(Expr::Literal(Atom::Number(2.5f64.to_bits())));
    assert!(matches!(r, Atom::Number(bits) if bits == 2.5f64.to_bits()));
    let r = intp.evaluate(Expr::Literal(Atom::String(String::from("s"))));
    assert!(matches!(r, Atom::String(s) if s == "s"));
    assert!(intp.error.is_none());
}

#[test]
fn declarations_bind_eagerly_and_the_environment_persists() {
    let mut intp = Interpreter::default();
    let r = eval_source("var x = 5; x + 1;", &mut intp);
    match r {
        Atom::Number(bits) => assert_eq!(bits, 6f64.to_bits()),
        other => panic!("expected a number, got {:?}", other),
    }
    // a later read from the same environment still sees the binding
    match intp.env.get(String::from("x")) {
        Some(Atom::Number(bits)) => assert_eq!(bits, 5f64.to_bits()),
        other => panic!("expected the stored number, got {:?}", other),
    }
}

#[test]
fn assignment_like_redeclaration_overwrites() {
    let mut intp = Interpreter::default();
    eval_source("var x = 1; var x = 2;", &mut intp);
    match intp.env.get(String::from("x")) {
        Some(Atom::Number(bits)) => assert_eq!(bits, 2f64.to_bits()),
        other => panic!("expected the stored number, got {:?}", other),
    }
}

#[test]
fn first_type_error_halts_every_later_evaluation() {
    let mut intp = Interpreter::default();
    let r = eval_source("true + false;", &mut intp);
    assert!(matches!(r, Atom::Nil));
    match &intp.error {
        Some(LanguageError::TypeError(msg)) => {
            assert_eq!(msg, "Addition not supported for Bool and Bool");
        }
        other => panic!("expected the sticky type error, got {:?}", other),
    }
    // every further evaluation short-circuits to nil, raising nothing new
    let r = intp.evaluate(Expr::Literal(Atom::Number(1f64.to_bits())));
    assert!(matches!(r, Atom::Nil));
    for stmt in &parse_program("1 + 1; print 2;") {
        intp.visit_stmt(stmt);
    }
    match &intp.error {
        Some(LanguageError::TypeError(msg)) => {
            assert_eq!(msg, "Addition not supported for Bool and Bool");
        }
        other => panic!("expected the same sticky error, got {:?}", other),
    }
}

#[test]
fn print_appends_the_debug_form_to_the_output() {
    let mut intp = Interpreter::default();
    eval_source("print 1 + 2 * 3; print \"hi\"; print nil;", &mut intp);
    let expected: Vec<String> = vec![String::from("Number(7.0)"), String::from("String(\"hi\")"), String::from("Nil")];
    assert_eq!(intp.output, expected);
}

#[test]
fn halted_print_still_prints_nil() {
    let mut intp = Interpreter::default();
    eval_source("true + false; print 1;", &mut intp);
    let expected: Vec<String> = vec![String::from("Nil")];
    assert_eq!(intp.output, expected);
}

#[test]
fn undefined_variable_is_a_recoverable_runtime_error() {
    let mut intp = Interpreter::default();
    let r = eval_source("missing;", &mut intp);
    assert!(matches!(r, Atom::Nil));
    match &intp.error {
        Some(LanguageError::UndefinedVariable(name)) => assert_eq!(name, "missing"),
        other => panic!("expected an undefined-variable error, got {:?}", other),
    }
}

#[test]
fn comparisons_and_equality_evaluate() {
    let mut intp = Interpreter::default();
    assert!(matches!(eval_source("1 < 2;", &mut intp), Atom::Bool(true)));
    assert!(matches!(eval_source("2 <= 1;", &mut intp), Atom::Bool(false)));
    assert!(matches!(eval_source("3 > 2;", &mut intp), Atom::Bool(true)));
    assert!(matches!(eval_source("3 >= 4;", &mut intp), Atom::Bool(false)));
    assert!(matches!(eval_source("1 == 1;", &mut intp), Atom::Bool(true)));
    assert!(matches!(eval_source("1 != 1;", &mut intp), Atom::Bool(false)));
    assert!(matches!(eval_source("\"a\" == \"a\";", &mut intp), Atom::Bool(true)));
    assert!(matches!(eval_source("1 == \"1\";", &mut intp), Atom::Bool(false)));
    // equality never raises a type error
    assert!(intp.error.is_none());
}

#[test]
fn comparing_a_string_is_a_runtime_type_error() {
    let mut intp = Interpreter::default();
    let r = eval_source("\"a\" < 1;", &mut intp);
    assert!(matches!(r, Atom::Nil));
    match &intp.error {
        Some(LanguageError::TypeError(msg)) => {
            assert_eq!(msg, "LESS not supported between String and Number");
        }
        other => panic!("expected a type error, got {:?}", other),
    }
}

#[test]
fn division_by_zero_yields_infinity_not_an_error() {
    let mut intp = Interpreter::default();
    let r = eval_source("1 / 0;", &mut intp);
    match r {
        Atom::Number(bits) => assert_eq!(bits, f64::INFINITY.to_bits()),
        other => panic!("expected a number, got {:?}", other),
    }
    assert!(intp.error.is_none());
}

#[test]
fn grouping_overrides_precedence() {
    let mut intp = Interpreter::default();
    let r = eval_source("(1 + 2) * 3;", &mut intp);
    assert!(matches!(r, Atom::Number(bits) if bits == 9f64.to_bits()));
}

#[test]
fn environment_set_and_get_round_trip() {
    let mut intp = Interpreter::default();
    let env = &mut intp.env;
    assert!(env.get(String::from("a")).is_none());
    env.set(String::from("a"), Atom::Number(1f64.to_bits()));
    env.set(String::from("b"), Atom::String(String::from("s")));
    env.set(String::from("a"), Atom::Nil);
    assert!(matches!(env.get(String::from("a")), Some(Atom::Nil)));
    assert!(matches!(env.get(String::from("b")), Some(Atom::String(s)) if s == "s"));
    assert!(env.get(String::from("c")).is_none());
}

#[test]
fn string_concatenation_through_the_evaluator() {
    let mut intp = Interpreter::default();
    let r = eval_source("1 + \"x\";", &mut intp);
    assert!(matches!(r, Atom::String(s) if s == "1x"));
    let r = eval_source("\"v=\" + 12.5;", &mut intp);
    assert!(matches!(r, Atom::String(s) if s == "v=12.5"));
}
