use lox_rs::ast::{AstPrinter, Expr, ExprVisitor, Stmt};
use lox_rs::atom::Atom;
use lox_rs::parser::Parser;
use lox_rs::scanner::{Scanner, Token, TokenType};

fn scan_ok(source: &str) -> Vec<Token> {
    let mut scanner = Scanner::new(String::from(source));
    match scanner.scan_tokens() {
        Ok(tokens) => tokens.clone(),
        Err(errs) => panic!("unexpected lexical errors: {:?}", errs),
    }
}

fn parse_one(source: &str) -> Stmt {
    let tokens = scan_ok(source);
    let mut parser = Parser::new(&tokens);
    let mut stmts = parser.parse().expect("expected a clean parse");
    assert_eq!(stmts.len(), 1);
    stmts.remove(0)
}

fn num_bits(e: &Expr) -> u64 {
    match e {
        Expr::Literal(Atom::Number(bits)) => *bits,
        other => panic!("expected a number literal, got {:?}", other),
    }
}

#[test]
fn multiplication_binds_tighter_than_addition() {
    let stmt = parse_one("1 + 2 * 3;");
    let expr = match &stmt {
        Stmt::Expr(e) => &**e,
        other => panic!("expected an expression statement, got {:?}", other),
    };
    match expr {
        Expr::Binary(left, op, right) => {
            assert!(matches!(op.token_type, TokenType::PLUS));
            assert_eq!(num_bits(left), 1f64.to_bits());
            match &**right {
                Expr::Binary(l2, op2, r2) => {
                    assert!(matches!(op2.token_type, TokenType::STAR));
                    assert_eq!(num_bits(l2), 2f64.to_bits());
                    assert_eq!(num_bits(r2), 3f64.to_bits());
                }
                other => panic!("expected a multiplication on the right, got {:?}", other),
            }
        }
        other => panic!("expected an addition at the top, got {:?}", other),
    }
}

#[test]
fn binary_chains_lean_left() {
    let stmt = parse_one("1 - 2 - 3;");
    let expr = match &stmt {
        Stmt::Expr(e) => &**e,
        other => panic!("expected an expression statement, got {:?}", other),
    };
    match expr {
        Expr::Binary(left, op, right) => {
            assert!(matches!(op.token_type, TokenType::MINUS));
            assert_eq!(num_bits(right), 3f64.to_bits());
            match &**left {
                Expr::Binary(l2, op2, r2) => {
                    assert!(matches!(op2.token_type, TokenType::MINUS));
                    assert_eq!(num_bits(l2), 1f64.to_bits());
                    assert_eq!(num_bits(r2), 2f64.to_bits());
                }
                other => panic!("expected the first subtraction on the left, got {:?}", other),
            }
        }
        other => panic!("expected a subtraction at the top, got {:?}", other),
    }
}

#[test]
fn var_declaration_parses_name_and_initializer() {
    let stmt = parse_one("var x = 5;");
    match &stmt {
        Stmt::Var(name, init) => {
            assert_eq!(&**name, "x");
            assert_eq!(num_bits(init), 5f64.to_bits());
        }
        other => panic!("expected a declaration, got {:?}", other),
    }
}

#[test]
fn var_declaration_without_initializer_binds_nil() {
    let stmt = parse_one("var y;");
    match &stmt {
        Stmt::Var(name, init) => {
            assert_eq!(&**name, "y");
            assert!(matches!(&**init, Expr::Literal(Atom::Nil)));
        }
        other => panic!("expected a declaration, got {:?}", other),
    }
}

#[test]
fn print_statement_parses_its_expression() {
    let stmt = parse_one("print \"hi\";");
    match &stmt {
        Stmt::Print(e) => match &**e {
            Expr::Literal(Atom::String(s)) => assert_eq!(s, "hi"),
            other => panic!("expected a string literal, got {:?}", other),
        },
        other => panic!("expected a print statement, got {:?}", other),
    }
}

#[test]
fn grouping_and_unary_parse() {
    let stmt = parse_one("-(1 + 2);");
    let expr = match &stmt {
        Stmt::Expr(e) => &**e,
        other => panic!("expected an expression statement, got {:?}", other),
    };
    match expr {
        Expr::Unary(op, inner) => {
            assert!(matches!(op.token_type, TokenType::MINUS));
            assert!(matches!(&**inner, Expr::Grouping(_)));
        }
        other => panic!("expected a unary node, got {:?}", other),
    }
}

#[test]
fn identifier_reference_parses_to_a_variable_node() {
    let stmt = parse_one("x;");
    match &stmt {
        Stmt::Expr(e) => match &**e {
            Expr::Var(name) => assert_eq!(&**name, "x"),
            other => panic!("expected a variable reference, got {:?}", other),
        },
        other => panic!("expected an expression statement, got {:?}", other),
    }
}

#[test]
fn missing_semicolon_fails_the_parse() {
    let tokens = scan_ok("1 + 2");
    let mut parser = Parser::new(&tokens);
    match parser.parse() {
        Err(msg) => assert_eq!(msg, "Error for some reason"),
        Ok(stmts) => panic!("expected a parse failure, got {:?}", stmts),
    }
}

#[test]
fn missing_closing_paren_fails_the_parse() {
    let tokens = scan_ok("(1 + 2;");
    let mut parser = Parser::new(&tokens);
    assert!(parser.parse().is_err());
}

#[test]
fn var_without_identifier_fails_the_parse() {
    let tokens = scan_ok("var = 5;");
    let mut parser = Parser::new(&tokens);
    assert!(parser.parse().is_err());
}

#[test]
fn parse_handles_one_statement_per_call() {
    let tokens = scan_ok("1; 2;");
    let mut parser = Parser::new(&tokens);
    let stmts = parser.parse().expect("expected a clean parse");
    assert_eq!(stmts.len(), 1);
    let stmts2 = parser.parse().expect("expected a clean parse");
    assert_eq!(stmts2.len(), 1);
}

#[test]
fn parse_program_loops_until_end_of_input() {
    let tokens = scan_ok("var x = 1; print x; x + 1;");
    let mut parser = Parser::new(&tokens);
    let stmts = parser.parse_program().expect("expected a clean parse");
    assert_eq!(stmts.len(), 3);
    assert!(matches!(stmts[0], Stmt::Var(_, _)));
    assert!(matches!(stmts[1], Stmt::Print(_)));
    assert!(matches!(stmts[2], Stmt::Expr(_)));
}

#[test]
fn parse_program_of_empty_source_is_empty() {
    let tokens = scan_ok("");
    let mut parser = Parser::new(&tokens);
    let stmts = parser.parse_program().expect("expected a clean parse");
    assert_eq!(stmts.len(), 0);
}

#[test]
fn ast_printer_renders_the_tree() {
    let stmt = parse_one("1 + 2 * 3;");
    let expr = match stmt {
        Stmt::Expr(e) => *e,
        other => panic!("expected an expression statement, got {:?}", other),
    };
    let mut printer = AstPrinter;
    let text = printer.visit_expr(&expr);
    assert_eq!(text, "[(+) Number(1.0) [(*) Number(2.0) Number(3.0)]]");
}

#[test]
fn ast_printer_renders_groupings_and_variables() {
    let stmt = parse_one("(x);");
    let expr = match stmt {
        Stmt::Expr(e) => *e,
        other => panic!("expected an expression statement, got {:?}", other),
    };
    let mut printer = AstPrinter;
    assert_eq!(printer.visit_expr(&expr), "(group x )");
}
