use lox_rs::errors::LanguageError;
use lox_rs::scanner::{is_alpha, is_digit, Scanner, Token, TokenType};

fn scan(source: &str) -> Vec<Token> {
    let mut scanner = Scanner::new(String::from(source));
    match scanner.scan_tokens() {
        Ok(tokens) => tokens.clone(),
        Err(errs) => panic!("unexpected lexical errors: {:?}", errs),
    }
}

fn scan_errors(source: &str) -> Vec<LanguageError> {
    let mut scanner = Scanner::new(String::from(source));
    match scanner.scan_tokens() {
        Ok(tokens) => panic!("expected lexical errors, got tokens: {:?}", tokens),
        Err(errs) => errs.clone(),
    }
}

#[test]
fn single_char_operators_scan_to_expected_kinds() {
    let toks = scan("(){},.-+;*/");
    assert!(matches!(toks[0].token_type, TokenType::LEFTPAREN));
    assert!(matches!(toks[1].token_type, TokenType::RIGHTPAREN));
    assert!(matches!(toks[2].token_type, TokenType::LEFTBRACE));
    assert!(matches!(toks[3].token_type, TokenType::RIGHTBRACE));
    assert!(matches!(toks[4].token_type, TokenType::COMMA));
    assert!(matches!(toks[5].token_type, TokenType::DOT));
    assert!(matches!(toks[6].token_type, TokenType::MINUS));
    assert!(matches!(toks[7].token_type, TokenType::PLUS));
    assert!(matches!(toks[8].token_type, TokenType::SEMICOLON));
    assert!(matches!(toks[9].token_type, TokenType::STAR));
    assert!(matches!(toks[10].token_type, TokenType::SLASH));
    assert!(matches!(toks[11].token_type, TokenType::EOF));
    assert_eq!(toks.len(), 12);
}

#[test]
fn two_char_operators_scan_as_one_token() {
    let toks = scan("!= == >= <=");
    assert!(matches!(toks[0].token_type, TokenType::BANGEQUAL));
    assert_eq!(toks[0].lexeme, "!=");
    assert!(matches!(toks[1].token_type, TokenType::EQUALEQUAL));
    assert_eq!(toks[1].lexeme, "==");
    assert!(matches!(toks[2].token_type, TokenType::GREATEREQUAL));
    assert_eq!(toks[2].lexeme, ">=");
    assert!(matches!(toks[3].token_type, TokenType::LESSEQUAL));
    assert_eq!(toks[3].lexeme, "<=");
    assert!(matches!(toks[4].token_type, TokenType::EOF));
    assert_eq!(toks.len(), 5);
}

#[test]
fn one_char_fallback_when_equal_does_not_follow() {
    let toks = scan("! = > <");
    assert!(matches!(toks[0].token_type, TokenType::BANG));
    assert!(matches!(toks[1].token_type, TokenType::EQUAL));
    assert!(matches!(toks[2].token_type, TokenType::GREATER));
    assert!(matches!(toks[3].token_type, TokenType::LESS));
    assert_eq!(toks.len(), 5);
}

#[test]
fn bang_equal_is_one_token_not_two() {
    let toks = scan("!=");
    assert_eq!(toks.len(), 2);
    assert!(matches!(toks[0].token_type, TokenType::BANGEQUAL));
}

#[test]
fn decimal_literal_scans_to_its_double_value() {
    let toks = scan("123.45");
    match &toks[0].token_type {
        TokenType::NUMBER(bits) => assert_eq!(*bits, 123.45f64.to_bits()),
        other => panic!("expected a number token, got {:?}", other),
    }
    assert_eq!(toks[0].lexeme, "123.45");
}

#[test]
fn trailing_dot_is_not_part_of_the_number() {
    let toks = scan("123.");
    match &toks[0].token_type {
        TokenType::NUMBER(bits) => assert_eq!(*bits, 123f64.to_bits()),
        other => panic!("expected a number token, got {:?}", other),
    }
    assert!(matches!(toks[1].token_type, TokenType::DOT));
    assert!(matches!(toks[2].token_type, TokenType::EOF));
    assert_eq!(toks.len(), 3);
}

#[test]
fn unterminated_string_is_a_lexical_error() {
    let errs = scan_errors("\"abc");
    assert_eq!(errs.len(), 1);
    match &errs[0] {
        LanguageError::SyntaxError(msg) => assert_eq!(msg, "Unterminated String"),
        other => panic!("expected a syntax error, got {:?}", other),
    }
}

#[test]
fn string_literal_keeps_contents_and_quoted_lexeme() {
    let toks = scan("\"hello\"");
    match &toks[0].token_type {
        TokenType::STRING(s) => assert_eq!(s, "hello"),
        other => panic!("expected a string token, got {:?}", other),
    }
    assert_eq!(toks[0].lexeme, "\"hello\"");
}

#[test]
fn newline_inside_string_advances_the_line_counter() {
    let toks = scan("\"a\nb\" x");
    match &toks[0].token_type {
        TokenType::STRING(s) => assert_eq!(s, "a\nb"),
        other => panic!("expected a string token, got {:?}", other),
    }
    assert_eq!(toks[0].line, 2);
    assert_eq!(toks[1].line, 2);
}

#[test]
fn keywords_scan_to_keyword_tokens() {
    let toks = scan("and class else false for fun if nil or print return super this true var while");
    assert!(matches!(toks[0].token_type, TokenType::AND));
    assert!(matches!(toks[1].token_type, TokenType::CLASS));
    assert!(matches!(toks[2].token_type, TokenType::ELSE));
    assert!(matches!(toks[3].token_type, TokenType::FALSE));
    assert!(matches!(toks[4].token_type, TokenType::FOR));
    assert!(matches!(toks[5].token_type, TokenType::FUN));
    assert!(matches!(toks[6].token_type, TokenType::IF));
    assert!(matches!(toks[7].token_type, TokenType::NIL));
    assert!(matches!(toks[8].token_type, TokenType::OR));
    assert!(matches!(toks[9].token_type, TokenType::PRINT));
    assert!(matches!(toks[10].token_type, TokenType::RETURN));
    assert!(matches!(toks[11].token_type, TokenType::SUPER));
    assert!(matches!(toks[12].token_type, TokenType::THIS));
    assert!(matches!(toks[13].token_type, TokenType::TRUE));
    assert!(matches!(toks[14].token_type, TokenType::VAR));
    assert!(matches!(toks[15].token_type, TokenType::WHILE));
    assert!(matches!(toks[16].token_type, TokenType::EOF));
}

#[test]
fn words_near_keywords_are_identifiers() {
    let toks = scan("android varx printer x_1");
    for i in 0..4 {
        match &toks[i].token_type {
            TokenType::IDENTIFIER(_) => {}
            other => panic!("expected an identifier, got {:?}", other),
        }
    }
    match &toks[3].token_type {
        TokenType::IDENTIFIER(name) => assert_eq!(name, "x_1"),
        _ => unreachable!(),
    }
}

#[test]
fn line_comment_runs_to_end_of_line() {
    let toks = scan("1 // comment + * \"\n2");
    match &toks[0].token_type {
        TokenType::NUMBER(bits) => assert_eq!(*bits, 1f64.to_bits()),
        other => panic!("expected a number token, got {:?}", other),
    }
    match &toks[1].token_type {
        TokenType::NUMBER(bits) => assert_eq!(*bits, 2f64.to_bits()),
        other => panic!("expected a number token, got {:?}", other),
    }
    assert_eq!(toks[1].line, 2);
    assert_eq!(toks.len(), 3);
}

#[test]
fn unknown_character_is_a_lexical_error() {
    let errs = scan_errors("@");
    assert_eq!(errs.len(), 1);
    assert!(matches!(errs[0], LanguageError::SyntaxError(_)));
}

#[test]
fn whitespace_is_discarded_and_newline_counts_lines() {
    let toks = scan(" \t\r\n x");
    assert_eq!(toks[0].line, 2);
    assert!(matches!(toks[0].token_type, TokenType::IDENTIFIER(_)));
}

#[test]
fn empty_source_yields_only_end_of_input() {
    let toks = scan("");
    assert_eq!(toks.len(), 1);
    assert!(matches!(toks[0].token_type, TokenType::EOF));
    assert_eq!(toks[0].line, 1);
}

#[test]
fn is_digit_accepts_exactly_the_ten_digits() {
    for c in '0'..='9' {
        assert!(is_digit(c));
    }
    assert!(!is_digit('a'));
    assert!(!is_digit('.'));
    assert!(!is_digit('/'));
    assert!(!is_digit(':'));
}

#[test]
fn is_alpha_looks_at_the_first_character() {
    assert!(is_alpha("abc"));
    assert!(is_alpha("z1"));
    assert!(!is_alpha("1ab"));
    assert!(!is_alpha("_x"));
    assert!(!is_alpha(""));
}
