//! The lexical scanner: one left-to-right pass over the source text that
//! produces the token sequence, or the list of lexical errors found on the
//! way.
//!
//! The whole pass is modelled by [`scan_spec`], a recursive spec function
//! that consumes the source character by character; [`Scanner::scan_tokens`]
//! is proved to produce exactly what the model says.

use crate::errors::{LanguageError, LanguageErrorSpec};
use crate::numeric::{dbl_of_decimal, decimal_shape, double_of_decimal, spec_is_digit};
use vstd::prelude::*;
use vstd::string::StrSliceExecFns;
use vstd::string::StringExecFns;

verus! {

/// The Unicode `Alphabetic` property of a character.
pub uninterp spec fn spec_alphabetic(c: char) -> bool;

/// The Unicode alphanumeric property of a character.
pub uninterp spec fn spec_alphanumeric(c: char) -> bool;

/// Relies on `char::is_alphabetic`: the Unicode `Alphabetic` property, a
/// function of the character alone.
pub assume_specification[ char::is_alphabetic ](c: char) -> (r: bool)
    ensures
        r == spec_alphabetic(c),
;

/// Relies on `char::is_alphanumeric`: the Unicode alphanumeric property, a
/// function of the character alone.
pub assume_specification[ char::is_alphanumeric ](c: char) -> (r: bool)
    ensures
        r == spec_alphanumeric(c),
;

/// The classified kind of a lexical unit. Three variants carry a literal
/// payload: an identifier's name, a string literal's contents, and a numeric
/// literal's value (as IEEE-754 binary64 bits).
#[derive(Debug, Clone)]
#[allow(non_camel_case_types)]
pub enum TokenType {
    // Single-char tokens
    LEFTPAREN,
    RIGHTPAREN,
    LEFTBRACE,
    RIGHTBRACE,
    COMMA,
    DOT,
    MINUS,
    PLUS,
    SEMICOLON,
    SLASH,
    STAR,
    // One or two char tokens
    BANG,
    BANGEQUAL,
    EQUAL,
    EQUALEQUAL,
    GREATER,
    GREATEREQUAL,
    LESS,
    LESSEQUAL,
    // Literals
    IDENTIFIER(String),
    STRING(String),
    NUMBER(u64),
    // Keywords
    AND,
    CLASS,
    ELSE,
    FALSE,
    FUN,
    FOR,
    IF,
    NIL,
    OR,
    PRINT,
    RETURN,
    SUPER,
    THIS,
    TRUE,
    VAR,
    WHILE,
    EOF,
}

/// Mathematical image of a [`TokenType`]: the same variants over character
/// sequences.
pub enum TokenTypeSpec {
    LeftParen,
    RightParen,
    LeftBrace,
    RightBrace,
    Comma,
    Dot,
    Minus,
    Plus,
    Semicolon,
    Slash,
    Star,
    Bang,
    BangEqual,
    Equal,
    EqualEqual,
    Greater,
    GreaterEqual,
    Less,
    LessEqual,
    Identifier(Seq<char>),
    StringLit(Seq<char>),
    Number(u64),
    And,
    Class,
    Else,
    False,
    Fun,
    For,
    If,
    Nil,
    Or,
    Print,
    Return,
    Super,
    This,
    True,
    Var,
    While,
    Eof,
}

impl View for TokenType {
    type V = TokenTypeSpec;

    open spec fn view(&self) -> TokenTypeSpec {
        match self {
            TokenType::LEFTPAREN => TokenTypeSpec::LeftParen,
            TokenType::RIGHTPAREN => TokenTypeSpec::RightParen,
            TokenType::LEFTBRACE => TokenTypeSpec::LeftBrace,
            TokenType::RIGHTBRACE => TokenTypeSpec::RightBrace,
            TokenType::COMMA => TokenTypeSpec::Comma,
            TokenType::DOT => TokenTypeSpec::Dot,
            TokenType::MINUS => TokenTypeSpec::Minus,
            TokenType::PLUS => TokenTypeSpec::Plus,
            TokenType::SEMICOLON => TokenTypeSpec::Semicolon,
            TokenType::SLASH => TokenTypeSpec::Slash,
            TokenType::STAR => TokenTypeSpec::Star,
            TokenType::BANG => TokenTypeSpec::Bang,
            TokenType::BANGEQUAL => TokenTypeSpec::BangEqual,
            TokenType::EQUAL => TokenTypeSpec::Equal,
            TokenType::EQUALEQUAL => TokenTypeSpec::EqualEqual,
            TokenType::GREATER => TokenTypeSpec::Greater,
            TokenType::GREATEREQUAL => TokenTypeSpec::GreaterEqual,
            TokenType::LESS => TokenTypeSpec::Less,
            TokenType::LESSEQUAL => TokenTypeSpec::LessEqual,
            TokenType::IDENTIFIER(s) => TokenTypeSpec::Identifier(s@),
            TokenType::STRING(s) => TokenTypeSpec::StringLit(s@),
            TokenType::NUMBER(n) => TokenTypeSpec::Number(*n),
            TokenType::AND => TokenTypeSpec::And,
            TokenType::CLASS => TokenTypeSpec::Class,
            TokenType::ELSE => TokenTypeSpec::Else,
            TokenType::FALSE => TokenTypeSpec::False,
            TokenType::FUN => TokenTypeSpec::Fun,
            TokenType::FOR => TokenTypeSpec::For,
            TokenType::IF => TokenTypeSpec::If,
            TokenType::NIL => TokenTypeSpec::Nil,
            TokenType::OR => TokenTypeSpec::Or,
            TokenType::PRINT => TokenTypeSpec::Print,
            TokenType::RETURN => TokenTypeSpec::Return,
            TokenType::SUPER => TokenTypeSpec::Super,
            TokenType::THIS => TokenTypeSpec::This,
            TokenType::TRUE => TokenTypeSpec::True,
            TokenType::VAR => TokenTypeSpec::Var,
            TokenType::WHILE => TokenTypeSpec::While,
            TokenType::EOF => TokenTypeSpec::Eof,
        }
    }
}

/// A classified lexical unit: its kind, the slice of source text it came
/// from, and the line it ended on.
#[derive(Debug, Clone)]
pub struct Token {
    pub token_type: TokenType,
    pub lexeme: String,
    pub line: i32,
}

/// Mathematical image of a [`Token`].
pub struct TokenSpec {
    pub token_type: TokenTypeSpec,
    pub lexeme: Seq<char>,
    pub line: int,
}

impl View for Token {
    type V = TokenSpec;

    open spec fn view(&self) -> TokenSpec {
        TokenSpec { token_type: self.token_type@, lexeme: self.lexeme@, line: self.line as int }
    }
}

impl Token {
    /// A copy of the token.
    pub fn duplicate(&self) -> (r: Token)
        ensures
            r@ == self@,
    {
        let token_type = match &self.token_type {
            TokenType::LEFTPAREN => TokenType::LEFTPAREN,
            TokenType::RIGHTPAREN => TokenType::RIGHTPAREN,
            TokenType::LEFTBRACE => TokenType::LEFTBRACE,
            TokenType::RIGHTBRACE => TokenType::RIGHTBRACE,
            TokenType::COMMA => TokenType::COMMA,
            TokenType::DOT => TokenType::DOT,
            TokenType::MINUS => TokenType::MINUS,
            TokenType::PLUS => TokenType::PLUS,
            TokenType::SEMICOLON => TokenType::SEMICOLON,
            TokenType::SLASH => TokenType::SLASH,
            TokenType::STAR => TokenType::STAR,
            TokenType::BANG => TokenType::BANG,
            TokenType::BANGEQUAL => TokenType::BANGEQUAL,
            TokenType::EQUAL => TokenType::EQUAL,
            TokenType::EQUALEQUAL => TokenType::EQUALEQUAL,
            TokenType::GREATER => TokenType::GREATER,
            TokenType::GREATEREQUAL => TokenType::GREATEREQUAL,
            TokenType::LESS => TokenType::LESS,
            TokenType::LESSEQUAL => TokenType::LESSEQUAL,
            TokenType::IDENTIFIER(s) => TokenType::IDENTIFIER(s.clone()),
            TokenType::STRING(s) => TokenType::STRING(s.clone()),
            TokenType::NUMBER(n) => TokenType::NUMBER(*n),
            TokenType::AND => TokenType::AND,
            TokenType::CLASS => TokenType::CLASS,
            TokenType::ELSE => TokenType::ELSE,
            TokenType::FALSE => TokenType::FALSE,
            TokenType::FUN => TokenType::FUN,
            TokenType::FOR => TokenType::FOR,
            TokenType::IF => TokenType::IF,
            TokenType::NIL => TokenType::NIL,
            TokenType::OR => TokenType::OR,
            TokenType::PRINT => TokenType::PRINT,
            TokenType::RETURN => TokenType::RETURN,
            TokenType::SUPER => TokenType::SUPER,
            TokenType::THIS => TokenType::THIS,
            TokenType::TRUE => TokenType::TRUE,
            TokenType::VAR => TokenType::VAR,
            TokenType::WHILE => TokenType::WHILE,
            TokenType::EOF => TokenType::EOF,
        };
        Token { token_type, lexeme: self.lexeme.clone(), line: self.line }
    }
}

/// Whether the first character of `chs` is alphabetic; false for an empty
/// slice. An identifier begins with such a character.
pub fn is_alpha(chs: &str) -> (r: bool)
    ensures
        r == (chs@.len() > 0 && spec_alphabetic(chs@[0])),
{
    if chs.unicode_len() > 0 {
        let ch = chs.get_char(0);
        ch.is_alphabetic()
    } else {
        false
    }
}

/// Whether `ch` is a decimal digit.
pub fn is_digit(ch: char) -> (r: bool)
    ensures
        r == spec_is_digit(ch),
{
    ch >= '0' && ch <= '9'
}

/// The first position at or after `i` whose character fails `p`, or the end
/// of the text.
pub open spec fn scan_end(s: Seq<char>, i: int, p: spec_fn(char) -> bool) -> int
    decreases s.len() - i,
{
    if i < 0 || i >= s.len() || !p(s[i]) {
        i
    } else {
        scan_end(s, i + 1, p)
    }
}

pub proof fn lemma_scan_end(s: Seq<char>, i: int, p: spec_fn(char) -> bool)
    requires
        0 <= i <= s.len(),
    ensures
        i <= scan_end(s, i, p) <= s.len(),
        forall|k: int| i <= k < scan_end(s, i, p) ==> p(#[trigger] s[k]),
        scan_end(s, i, p) < s.len() ==> !p(s[scan_end(s, i, p)]),
    decreases s.len() - i,
{
    if i < s.len() && p(s[i]) {
        lemma_scan_end(s, i + 1, p);
    }
}

/// The predicate satisfied by the body of a line comment.
pub open spec fn not_newline_pred() -> spec_fn(char) -> bool {
    |c: char| c != '\n'
}

/// The predicate satisfied by the body of a string literal.
pub open spec fn not_quote_pred() -> spec_fn(char) -> bool {
    |c: char| c != '"'
}

/// The predicate satisfied by the digits of a numeric literal.
pub open spec fn digit_pred() -> spec_fn(char) -> bool {
    |c: char| spec_is_digit(c)
}

/// The predicate satisfied by the continuation of an identifier.
pub open spec fn ident_pred() -> spec_fn(char) -> bool {
    |c: char| spec_alphanumeric(c) || c == '_'
}

/// How many newline characters `s` holds in `[from, to)`.
pub open spec fn count_newlines(s: Seq<char>, from: int, to: int) -> int
    decreases to - from,
{
    if from >= to {
        0
    } else {
        (if s[from] == '\n' {
            1int
        } else {
            0int
        }) + count_newlines(s, from + 1, to)
    }
}

pub proof fn lemma_count_newlines_bounds(s: Seq<char>, from: int, to: int)
    requires
        from <= to,
    ensures
        0 <= count_newlines(s, from, to) <= to - from,
    decreases to - from,
{
    if from < to {
        lemma_count_newlines_bounds(s, from + 1, to);
    }
}

pub proof fn lemma_count_newlines_step(s: Seq<char>, from: int, mid: int, to: int)
    requires
        from <= mid <= to,
    ensures
        count_newlines(s, from, to) == count_newlines(s, from, mid) + count_newlines(s, mid, to),
    decreases mid - from,
{
    if from < mid {
        lemma_count_newlines_step(s, from + 1, mid, to);
    }
}

/// The keyword kind a completed word scans to, or an identifier token for
/// any other word.
pub open spec fn keyword_kind(w: Seq<char>) -> TokenTypeSpec {
    if w == "and"@ {
        TokenTypeSpec::And
    } else if w == "class"@ {
        TokenTypeSpec::Class
    } else if w == "else"@ {
        TokenTypeSpec::Else
    } else if w == "false"@ {
        TokenTypeSpec::False
    } else if w == "for"@ {
        TokenTypeSpec::For
    } else if w == "fun"@ {
        TokenTypeSpec::Fun
    } else if w == "if"@ {
        TokenTypeSpec::If
    } else if w == "nil"@ {
        TokenTypeSpec::Nil
    } else if w == "or"@ {
        TokenTypeSpec::Or
    } else if w == "print"@ {
        TokenTypeSpec::Print
    } else if w == "return"@ {
        TokenTypeSpec::Return
    } else if w == "super"@ {
        TokenTypeSpec::Super
    } else if w == "this"@ {
        TokenTypeSpec::This
    } else if w == "true"@ {
        TokenTypeSpec::True
    } else if w == "var"@ {
        TokenTypeSpec::Var
    } else if w == "while"@ {
        TokenTypeSpec::While
    } else {
        TokenTypeSpec::Identifier(w)
    }
}

/// What one scanning step produced: a token, a lexical error, or nothing
/// (whitespace, comments, unknown characters after their error is recorded).
pub enum ScanOut {
    Tok(TokenSpec),
    Lex(LanguageErrorSpec),
    Skip,
}

/// One scanning step: what it produced, the position after it, and the line
/// counter after it.
pub struct ScanStep {
    pub out: ScanOut,
    pub next: int,
    pub line: int,
}

/// An emitted token whose lexeme is `s[i..j]`.
pub open spec fn emit(s: Seq<char>, i: int, j: int, line: int, k: TokenTypeSpec) -> ScanStep {
    ScanStep {
        out: ScanOut::Tok(TokenSpec { token_type: k, lexeme: s.subrange(i, j), line }),
        next: j,
        line,
    }
}

/// One step of the scanner at position `i`: classifies the character there
/// and consumes everything that belongs to its lexical unit.
pub open spec fn scan_step(s: Seq<char>, i: int, line: int) -> ScanStep
    recommends
        0 <= i < s.len(),
{
    let c = s[i];
    if c == '(' {
        emit(s, i, i + 1, line, TokenTypeSpec::LeftParen)
    } else if c == ')' {
        emit(s, i, i + 1, line, TokenTypeSpec::RightParen)
    } else if c == '{' {
        emit(s, i, i + 1, line, TokenTypeSpec::LeftBrace)
    } else if c == '}' {
        emit(s, i, i + 1, line, TokenTypeSpec::RightBrace)
    } else if c == ',' {
        emit(s, i, i + 1, line, TokenTypeSpec::Comma)
    } else if c == '.' {
        emit(s, i, i + 1, line, TokenTypeSpec::Dot)
    } else if c == '-' {
        emit(s, i, i + 1, line, TokenTypeSpec::Minus)
    } else if c == '+' {
        emit(s, i, i + 1, line, TokenTypeSpec::Plus)
    } else if c == ';' {
        emit(s, i, i + 1, line, TokenTypeSpec::Semicolon)
    } else if c == '*' {
        emit(s, i, i + 1, line, TokenTypeSpec::Star)
    } else if c == '!' {
        if i + 1 < s.len() && s[i + 1] == '=' {
            emit(s, i, i + 2, line, TokenTypeSpec::BangEqual)
        } else {
            emit(s, i, i + 1, line, TokenTypeSpec::Bang)
        }
    } else if c == '=' {
        if i + 1 < s.len() && s[i + 1] == '=' {
            emit(s, i, i + 2, line, TokenTypeSpec::EqualEqual)
        } else {
            emit(s, i, i + 1, line, TokenTypeSpec::Equal)
        }
    } else if c == '>' {
        if i + 1 < s.len() && s[i + 1] == '=' {
            emit(s, i, i + 2, line, TokenTypeSpec::GreaterEqual)
        } else {
            emit(s, i, i + 1, line, TokenTypeSpec::Greater)
        }
    } else if c == '<' {
        if i + 1 < s.len() && s[i + 1] == '=' {
            emit(s, i, i + 2, line, TokenTypeSpec::LessEqual)
        } else {
            emit(s, i, i + 1, line, TokenTypeSpec::Less)
        }
    } else if c == '/' {
        if i + 1 < s.len() && s[i + 1] == '/' {
            ScanStep { out: ScanOut::Skip, next: scan_end(s, i + 2, not_newline_pred()), line }
        } else {
            emit(s, i, i + 1, line, TokenTypeSpec::Slash)
        }
    } else if c == ' ' || c == '\r' || c == '\t' {
        ScanStep { out: ScanOut::Skip, next: i + 1, line }
    } else if c == '\n' {
        ScanStep { out: ScanOut::Skip, next: i + 1, line: line + 1 }
    } else if c == '"' {
        let j = scan_end(s, i + 1, not_quote_pred());
        let line2 = line + count_newlines(s, i + 1, j);
        if j >= s.len() {
            ScanStep {
                out: ScanOut::Lex(LanguageErrorSpec::SyntaxError("Unterminated String"@)),
                next: j,
                line: line2,
            }
        } else {
            ScanStep {
                out: ScanOut::Tok(
                    TokenSpec {
                        token_type: TokenTypeSpec::StringLit(s.subrange(i + 1, j)),
                        lexeme: s.subrange(i, j + 1),
                        line: line2,
                    },
                ),
                next: j + 1,
                line: line2,
            }
        }
    } else if spec_is_digit(c) {
        let j1 = scan_end(s, i + 1, digit_pred());
        let end = if j1 < s.len() && s[j1] == '.' && j1 + 1 < s.len() && spec_is_digit(s[j1 + 1]) {
            scan_end(s, j1 + 1, digit_pred())
        } else {
            j1
        };
        ScanStep {
            out: ScanOut::Tok(
                TokenSpec {
                    token_type: TokenTypeSpec::Number(dbl_of_decimal(s.subrange(i, end))),
                    lexeme: s.subrange(i, end),
                    line,
                },
            ),
            next: end,
            line,
        }
    } else if spec_alphabetic(c) {
        let j = scan_end(s, i + 1, ident_pred());
        emit(s, i, j, line, keyword_kind(s.subrange(i, j)))
    } else {
        ScanStep {
            out: ScanOut::Lex(LanguageErrorSpec::SyntaxError("Unexpected character"@)),
            next: i + 1,
            line,
        }
    }
}

pub proof fn lemma_scan_step(s: Seq<char>, i: int, line: int)
    requires
        0 <= i < s.len(),
    ensures
        i < scan_step(s, i, line).next <= s.len(),
        line <= scan_step(s, i, line).line <= line + (scan_step(s, i, line).next - i),
{
    if s[i] == '/' && i + 1 < s.len() && s[i + 1] == '/' {
        lemma_scan_end(s, i + 2, not_newline_pred());
    }
    if spec_is_digit(s[i]) {
        let j1 = scan_end(s, i + 1, digit_pred());
        lemma_scan_end(s, i + 1, digit_pred());
        if j1 < s.len() && s[j1] == '.' && j1 + 1 < s.len() && spec_is_digit(s[j1 + 1]) {
            lemma_scan_end(s, j1 + 1, digit_pred());
        }
    }
    if spec_alphabetic(s[i]) {
        lemma_scan_end(s, i + 1, ident_pred());
    }
    if s[i] == '"' {
        let j = scan_end(s, i + 1, not_quote_pred());
        lemma_scan_end(s, i + 1, not_quote_pred());
        lemma_count_newlines_bounds(s, i + 1, j);
    }
}

/// What a whole scan from position `i` onward produces: the tokens (ending
/// with the end-of-input token), the lexical errors, and the final line
/// counter.
pub struct ScanModel {
    pub tokens: Seq<TokenSpec>,
    pub errors: Seq<LanguageErrorSpec>,
    pub line: int,
}

/// The scanner's full pass from position `i`: applies [`scan_step`] until
/// the text is exhausted, then appends the end-of-input token.
pub open spec fn scan_spec(s: Seq<char>, i: int, line: int) -> ScanModel
    decreases s.len() - i,
    when i >= 0
    via scan_spec_decreases
{
    if i >= s.len() {
        ScanModel {
            tokens: seq![
                TokenSpec { token_type: TokenTypeSpec::Eof, lexeme: Seq::empty(), line },
            ],
            errors: Seq::empty(),
            line,
        }
    } else {
        let st = scan_step(s, i, line);
        let rest = scan_spec(s, st.next, st.line);
        match st.out {
            ScanOut::Tok(t) => ScanModel {
                tokens: seq![t] + rest.tokens,
                errors: rest.errors,
                line: rest.line,
            },
            ScanOut::Lex(e) => ScanModel {
                tokens: rest.tokens,
                errors: seq![e] + rest.errors,
                line: rest.line,
            },
            ScanOut::Skip => rest,
        }
    }
}

#[via_fn]
proof fn scan_spec_decreases(s: Seq<char>, i: int, line: int) {
    if 0 <= i < s.len() {
        lemma_scan_step(s, i, line);
    }
}

/// The first position at or after `from` that does not hold a decimal
/// digit.
fn find_digits_end(s: &str, from: usize) -> (r: usize)
    requires
        from <= s@.len(),
    ensures
        r == scan_end(s@, from as int, digit_pred()),
        from <= r <= s@.len(),
{
    proof {
        lemma_scan_end(s@, from as int, digit_pred());
    }
    let n = s.unicode_len();
    let mut i = from;
    while i < n
        invariant
            from <= i <= n,
            n == s@.len(),
            scan_end(s@, from as int, digit_pred()) == scan_end(s@, i as int, digit_pred()),
            i as int <= scan_end(s@, i as int, digit_pred()) <= s@.len(),
        decreases n - i,
    {
        let c = s.get_char(i);
        if !is_digit(c) {
            return i;
        }
        i = i + 1;
        proof {
            lemma_scan_end(s@, i as int, digit_pred());
        }
    }
    i
}

/// The first position at or after `from` that cannot continue an
/// identifier.
fn find_ident_end(s: &str, from: usize) -> (r: usize)
    requires
        from <= s@.len(),
    ensures
        r == scan_end(s@, from as int, ident_pred()),
        from <= r <= s@.len(),
{
    proof {
        lemma_scan_end(s@, from as int, ident_pred());
    }
    let n = s.unicode_len();
    let mut i = from;
    while i < n
        invariant
            from <= i <= n,
            n == s@.len(),
            scan_end(s@, from as int, ident_pred()) == scan_end(s@, i as int, ident_pred()),
            i as int <= scan_end(s@, i as int, ident_pred()) <= s@.len(),
        decreases n - i,
    {
        let c = s.get_char(i);
        if !(c.is_alphanumeric() || c == '_') {
            return i;
        }
        i = i + 1;
        proof {
            lemma_scan_end(s@, i as int, ident_pred());
        }
    }
    i
}

/// The position of the first closing quote at or after `from`, or the end
/// of the text.
fn find_quote(s: &str, from: usize) -> (r: usize)
    requires
        from <= s@.len(),
    ensures
        r == scan_end(s@, from as int, not_quote_pred()),
        from <= r <= s@.len(),
{
    proof {
        lemma_scan_end(s@, from as int, not_quote_pred());
    }
    let n = s.unicode_len();
    let mut i = from;
    while i < n
        invariant
            from <= i <= n,
            n == s@.len(),
            scan_end(s@, from as int, not_quote_pred()) == scan_end(s@, i as int, not_quote_pred()),
            i as int <= scan_end(s@, i as int, not_quote_pred()) <= s@.len(),
        decreases n - i,
    {
        let c = s.get_char(i);
        if c == '"' {
            return i;
        }
        i = i + 1;
        proof {
            lemma_scan_end(s@, i as int, not_quote_pred());
        }
    }
    i
}

/// The position of the first newline at or after `from`, or the end of the
/// text.
fn find_newline(s: &str, from: usize) -> (r: usize)
    requires
        from <= s@.len(),
    ensures
        r == scan_end(s@, from as int, not_newline_pred()),
        from <= r <= s@.len(),
{
    proof {
        lemma_scan_end(s@, from as int, not_newline_pred());
    }
    let n = s.unicode_len();
    let mut i = from;
    while i < n
        invariant
            from <= i <= n,
            n == s@.len(),
            scan_end(s@, from as int, not_newline_pred()) == scan_end(s@, i as int, not_newline_pred()),
            i as int <= scan_end(s@, i as int, not_newline_pred()) <= s@.len(),
        decreases n - i,
    {
        let c = s.get_char(i);
        if c == '\n' {
            return i;
        }
        i = i + 1;
        proof {
            lemma_scan_end(s@, i as int, not_newline_pred());
        }
    }
    i
}

/// How many newlines `s` holds in `[from, to)`.
fn newline_count(s: &str, from: usize, to: usize) -> (r: usize)
    requires
        from <= to <= s@.len(),
    ensures
        r == count_newlines(s@, from as int, to as int),
{
    proof {
        lemma_count_newlines_bounds(s@, from as int, to as int);
    }
    let mut i = from;
    let mut count: usize = 0;
    while i < to
        invariant
            from <= i <= to,
            to <= s@.len(),
            count == count_newlines(s@, from as int, i as int),
            count <= i - from,
        decreases to - i,
    {
        let c = s.get_char(i);
        proof {
            lemma_count_newlines_step(s@, from as int, i as int, i as int + 1);
            lemma_count_newlines_bounds(s@, from as int, i as int);
            lemma_count_newlines_bounds(s@, i as int + 1, i as int + 1);
        }
        if c == '\n' {
            count = count + 1;
        }
        i = i + 1;
    }
    proof {
        lemma_count_newlines_step(s@, from as int, i as int, to as int);
    }
    count
}

/// Mathematical image of a [`Scanner`]: the source, what has been produced
/// so far, and the cursor state.
pub struct ScannerModel {
    pub source: Seq<char>,
    pub tokens: Seq<TokenSpec>,
    pub errors: Seq<LanguageErrorSpec>,
    pub start: int,
    pub current: int,
    pub line: int,
}

/// The cursor of a scanner never runs ahead of the text, and the line
/// counter starts at one and only grows.
pub open spec fn scanner_wf(m: ScannerModel) -> bool {
    &&& 0 <= m.start <= m.current <= m.source.len()
    &&& 1 <= m.line
}

/// The scanner: the source text, an explicit cursor (`start`, `current`),
/// a line counter, and the tokens and lexical errors produced so far.
pub struct Scanner {
    source: String,
    tokens: Vec<Token>,
    start: usize,
    current: usize,
    line: i32,
    errors: Vec<LanguageError>,
}

impl View for Scanner {
    type V = ScannerModel;

    closed spec fn view(&self) -> ScannerModel {
        ScannerModel {
            source: self.source@,
            tokens: self.tokens@.map_values(|t: Token| t@),
            errors: self.errors@.map_values(|e: LanguageError| e@),
            start: self.start as int,
            current: self.current as int,
            line: self.line as int,
        }
    }
}

impl Scanner {
    /// A fresh scanner over `source`, with the cursor at the beginning and
    /// the line counter at one.
    pub fn new(source: String) -> (s: Scanner)
        ensures
            s@.source == source@,
            s@.tokens == Seq::<TokenSpec>::empty(),
            s@.errors == Seq::<LanguageErrorSpec>::empty(),
            s@.start == 0,
            s@.current == 0,
            s@.line == 1,
    {
        let s = Scanner {
            source,
            tokens: Vec::new(),
            start: 0,
            current: 0,
            line: 1,
            errors: Vec::new(),
        };
        proof {
            assert(s@.tokens =~= Seq::<TokenSpec>::empty());
            assert(s@.errors =~= Seq::<LanguageErrorSpec>::empty());
        }
        s
    }

    /// Emits a token of the given kind whose lexeme is the source text
    /// between `start` and `current`, then moves `start` up to `current`.
    fn add_token(&mut self, token: TokenType)
        requires
            scanner_wf(old(self)@),
        ensures
            final(self)@ == (ScannerModel {
                tokens: old(self)@.tokens.push(
                    TokenSpec {
                        token_type: token@,
                        lexeme: old(self)@.source.subrange(old(self)@.start, old(self)@.current),
                        line: old(self)@.line,
                    },
                ),
                start: old(self)@.current,
                ..old(self)@
            }),
    {
        let lexeme: String = self.source.as_str().substring_char(self.start, self.current).to_owned();
        let line = self.line;
        self.tokens.push(Token { token_type: token, lexeme, line });
        self.start = self.current;
        proof {
            assert(self@.tokens =~= old(self)@.tokens.push(
                TokenSpec {
                    token_type: token@,
                    lexeme: old(self)@.source.subrange(old(self)@.start, old(self)@.current),
                    line: old(self)@.line,
                },
            ));
            assert(final(self)@ == (ScannerModel {
                tokens: final(self)@.tokens,
                start: old(self)@.current,
                ..old(self)@
            }));
        }
    }

    /// Records a lexical error without producing a token.
    fn add_error(&mut self, err: LanguageError)
        ensures
            final(self)@ == (ScannerModel {
                errors: old(self)@.errors.push(err@),
                ..old(self)@
            }),
    {
        self.errors.push(err);
        proof {
            assert(self@.errors =~= old(self)@.errors.push(err@));
            assert(final(self)@ == (ScannerModel { errors: final(self)@.errors, ..old(self)@ }));
        }
    }

    /// Scans the body of a string literal whose opening quote has just been
    /// consumed, emitting the string token or recording the unterminated
    /// string error.
    fn seek_string(&mut self)
        requires
            scanner_wf(old(self)@),
            old(self)@.current == old(self)@.start + 1,
            old(self)@.start < old(self)@.source.len(),
            old(self)@.source[old(self)@.start] == '"',
            old(self)@.line + (old(self)@.source.len() - old(self)@.start) <= i32::MAX as int,
        ensures
            ({
                let st = scan_step(old(self)@.source, old(self)@.start, old(self)@.line);
                &&& final(self)@.source == old(self)@.source
                &&& final(self)@.current == st.next
                &&& final(self)@.start == st.next
                &&& final(self)@.line == st.line
                &&& match st.out {
                    ScanOut::Tok(t) => final(self)@.tokens == old(self)@.tokens.push(t)
                        && final(self)@.errors == old(self)@.errors,
                    ScanOut::Lex(e) => final(self)@.errors == old(self)@.errors.push(e)
                        && final(self)@.tokens == old(self)@.tokens,
                    ScanOut::Skip => false,
                }
            }),
    {
        let j = find_quote(self.source.as_str(), self.current);
        let nl = newline_count(self.source.as_str(), self.current, j);
        proof {
            lemma_count_newlines_bounds(self@.source, self@.current, j as int);
        }
        self.line = self.line + nl as i32;
        let n = self.source.as_str().unicode_len();
        if j == n {
            self.current = j;
            self.start = j;
            self.add_error(LanguageError::SyntaxError(String::from_str("Unterminated String")));
        } else {
            let contents = self.source.as_str().substring_char(self.start + 1, j).to_owned();
            self.current = j + 1;
            self.add_token(TokenType::STRING(contents));
        }
    }

    /// Scans the rest of a numeric literal whose first digit has just been
    /// consumed: further digits, then a fractional part only if a digit
    /// follows the dot. Emits the number token.
    fn seek_number(&mut self)
        requires
            scanner_wf(old(self)@),
            old(self)@.current == old(self)@.start + 1,
            old(self)@.start < old(self)@.source.len(),
            spec_is_digit(old(self)@.source[old(self)@.start]),
        ensures
            ({
                let st = scan_step(old(self)@.source, old(self)@.start, old(self)@.line);
                &&& final(self)@.source == old(self)@.source
                &&& final(self)@.current == st.next
                &&& final(self)@.start == st.next
                &&& final(self)@.line == st.line
                &&& match st.out {
                    ScanOut::Tok(t) => final(self)@.tokens == old(self)@.tokens.push(t)
                        && final(self)@.errors == old(self)@.errors,
                    ScanOut::Lex(e) => false,
                    ScanOut::Skip => false,
                }
            }),
    {
        let ghost src = self@.source;
        let ghost i = self@.start;
        let j1 = find_digits_end(self.source.as_str(), self.current);
        let n = self.source.as_str().unicode_len();
        let mut end = j1;
        if j1 < n {
            let c = self.source.as_str().get_char(j1);
            if c == '.' && j1 + 1 < n {
                let c2 = self.source.as_str().get_char(j1 + 1);
                if is_digit(c2) {
                    end = find_digits_end(self.source.as_str(), j1 + 1);
                    proof {
                        lemma_scan_end(src, j1 + 2, digit_pred());
                        assert(scan_end(src, j1 + 1, digit_pred()) == scan_end(
                            src,
                            j1 + 2,
                            digit_pred(),
                        ));
                        assert(end >= j1 + 2);
                    }
                }
            }
        }
        self.current = end;
        let lex = self.source.as_str().substring_char(self.start, self.current);
        proof {
            lemma_scan_end(src, i + 1, digit_pred());
            let w = src.subrange(i, end as int);
            assert(w.len() > 0);
            assert(spec_is_digit(w[0]));
            assert forall|k: int| 0 <= k < w.len() implies spec_is_digit(#[trigger] w[k]) || w[k]
                == '.' by {
                assert(w[k] == src[i + k]);
            }
            assert(spec_is_digit(w[w.len() - 1])) by {
                assert(w[w.len() - 1] == src[end - 1]);
            }
            assert forall|a: int, b: int|
                0 <= a < b < w.len() && #[trigger] w[a] == '.' implies #[trigger] w[b] != '.' by {
                assert(w[a] == src[i + a]);
                assert(w[b] == src[i + b]);
            }
            assert(decimal_shape(lex@));
        }
        let bits = double_of_decimal(lex);
        self.add_token(TokenType::NUMBER(bits));
    }

    /// Classifies the completed word between `start` and `current` against
    /// the keyword table and emits the keyword token, or an identifier token
    /// for any other word.
    fn keyword_or_identifier(&mut self)
        requires
            scanner_wf(old(self)@),
        ensures
            final(self)@ == (ScannerModel {
                tokens: old(self)@.tokens.push(
                    TokenSpec {
                        token_type: keyword_kind(
                            old(self)@.source.subrange(old(self)@.start, old(self)@.current),
                        ),
                        lexeme: old(self)@.source.subrange(old(self)@.start, old(self)@.current),
                        line: old(self)@.line,
                    },
                ),
                start: old(self)@.current,
                ..old(self)@
            }),
    {
        let w: String = self.source.as_str().substring_char(self.start, self.current).to_owned();
        if w == String::from_str("and") {
            self.add_token(TokenType::AND)
        } else if w == String::from_str("class") {
            self.add_token(TokenType::CLASS)
        } else if w == String::from_str("else") {
            self.add_token(TokenType::ELSE)
        } else if w == String::from_str("false") {
            self.add_token(TokenType::FALSE)
        } else if w == String::from_str("for") {
            self.add_token(TokenType::FOR)
        } else if w == String::from_str("fun") {
            self.add_token(TokenType::FUN)
        } else if w == String::from_str("if") {
            self.add_token(TokenType::IF)
        } else if w == String::from_str("nil") {
            self.add_token(TokenType::NIL)
        } else if w == String::from_str("or") {
            self.add_token(TokenType::OR)
        } else if w == String::from_str("print") {
            self.add_token(TokenType::PRINT)
        } else if w == String::from_str("return") {
            self.add_token(TokenType::RETURN)
        } else if w == String::from_str("super") {
            self.add_token(TokenType::SUPER)
        } else if w == String::from_str("this") {
            self.add_token(TokenType::THIS)
        } else if w == String::from_str("true") {
            self.add_token(TokenType::TRUE)
        } else if w == String::from_str("var") {
            self.add_token(TokenType::VAR)
        } else if w == String::from_str("while") {
            self.add_token(TokenType::WHILE)
        } else {
            self.add_token(TokenType::IDENTIFIER(w))
        }
    }

    /// One step of the scanner: consumes one lexical unit starting at
    /// `current` and does to the token and error lists exactly what
    /// [`scan_step`] says.
    fn scan_one(&mut self)
        requires
            scanner_wf(old(self)@),
            old(self)@.start == old(self)@.current,
            old(self)@.current < old(self)@.source.len(),
            old(self)@.line + (old(self)@.source.len() - old(self)@.current) <= i32::MAX as int,
        ensures
            ({
                let st = scan_step(old(self)@.source, old(self)@.current, old(self)@.line);
                &&& final(self)@.source == old(self)@.source
                &&& final(self)@.current == st.next
                &&& final(self)@.start == st.next
                &&& final(self)@.line == st.line
                &&& match st.out {
                    ScanOut::Tok(t) => final(self)@.tokens == old(self)@.tokens.push(t)
                        && final(self)@.errors == old(self)@.errors,
                    ScanOut::Lex(e) => final(self)@.errors == old(self)@.errors.push(e)
                        && final(self)@.tokens == old(self)@.tokens,
                    ScanOut::Skip => final(self)@.tokens == old(self)@.tokens
                        && final(self)@.errors == old(self)@.errors,
                }
            }),
    {
        let ghost src = self@.source;
        let n = self.source.as_str().unicode_len();
        let c = self.source.as_str().get_char(self.current);
        if c == '(' {
            self.current = self.current + 1;
            self.add_token(TokenType::LEFTPAREN);
        } else if c == ')' {
            self.current = self.current + 1;
            self.add_token(TokenType::RIGHTPAREN);
        } else if c == '{' {
            self.current = self.current + 1;
            self.add_token(TokenType::LEFTBRACE);
        } else if c == '}' {
            self.current = self.current + 1;
            self.add_token(TokenType::RIGHTBRACE);
        } else if c == ',' {
            self.current = self.current + 1;
            self.add_token(TokenType::COMMA);
        } else if c == '.' {
            self.current = self.current + 1;
            self.add_token(TokenType::DOT);
        } else if c == '-' {
            self.current = self.current + 1;
            self.add_token(TokenType::MINUS);
        } else if c == '+' {
            self.current = self.current + 1;
            self.add_token(TokenType::PLUS);
        } else if c == ';' {
            self.current = self.current + 1;
            self.add_token(TokenType::SEMICOLON);
        } else if c == '*' {
            self.current = self.current + 1;
            self.add_token(TokenType::STAR);
        } else if c == '!' {
            if self.current + 1 < n && self.source.as_str().get_char(self.current + 1) == '=' {
                self.current = self.current + 2;
                self.add_token(TokenType::BANGEQUAL);
            } else {
                self.current = self.current + 1;
                self.add_token(TokenType::BANG);
            }
        } else if c == '=' {
            if self.current + 1 < n && self.source.as_str().get_char(self.current + 1) == '=' {
                self.current = self.current + 2;
                self.add_token(TokenType::EQUALEQUAL);
            } else {
                self.current = self.current + 1;
                self.add_token(TokenType::EQUAL);
            }
        } else if c == '>' {
            if self.current + 1 < n && self.source.as_str().get_char(self.current + 1) == '=' {
                self.current = self.current + 2;
                self.add_token(TokenType::GREATEREQUAL);
            } else {
                self.current = self.current + 1;
                self.add_token(TokenType::GREATER);
            }
        } else if c == '<' {
            if self.current + 1 < n && self.source.as_str().get_char(self.current + 1) == '=' {
                self.current = self.current + 2;
                self.add_token(TokenType::LESSEQUAL);
            } else {
                self.current = self.current + 1;
                self.add_token(TokenType::LESS);
            }
        } else if c == '/' {
            if self.current + 1 < n && self.source.as_str().get_char(self.current + 1) == '/' {
                let j = find_newline(self.source.as_str(), self.current + 2);
                self.current = j;
                self.start = j;
            } else {
                self.current = self.current + 1;
                self.add_token(TokenType::SLASH);
            }
        } else if c == ' ' || c == '\r' || c == '\t' {
            self.current = self.current + 1;
            self.start = self.current;
        } else if c == '\n' {
            self.current = self.current + 1;
            self.start = self.current;
            self.line = self.line + 1;
        } else if c == '"' {
            self.current = self.current + 1;
            self.seek_string();
        } else if is_digit(c) {
            self.current = self.current + 1;
            self.seek_number();
        } else if c.is_alphabetic() {
            let j = find_ident_end(self.source.as_str(), self.current + 1);
            self.current = j;
            self.keyword_or_identifier();
        } else {
            self.current = self.current + 1;
            self.start = self.current;
            self.add_error(LanguageError::SyntaxError(String::from_str("Unexpected character")));
        }
    }

    /// Runs the scanner over the whole remaining source: produces exactly
    /// the tokens and lexical errors of [`scan_spec`], ending with the
    /// end-of-input token, and returns the token list, or the error list if
    /// any lexical error was recorded.
    pub fn scan_tokens(&mut self) -> (r: Result<&Vec<Token>, &Vec<LanguageError>>)
        requires
            scanner_wf(old(self)@),
            old(self)@.start == old(self)@.current,
            old(self)@.line + (old(self)@.source.len() - old(self)@.current) <= i32::MAX as int,
        ensures
            ({
                let m = scan_spec(old(self)@.source, old(self)@.current, old(self)@.line);
                &&& final(self)@.source == old(self)@.source
                &&& final(self)@.tokens == old(self)@.tokens + m.tokens
                &&& final(self)@.errors == old(self)@.errors + m.errors
                &&& final(self)@.line == m.line
                &&& final(self)@.current == old(self)@.source.len()
                &&& final(self)@.start == final(self)@.current
                &&& match r {
                    Ok(v) => final(self)@.errors.len() == 0 && v@.map_values(|t: Token| t@)
                        == final(self)@.tokens,
                    Err(e) => final(self)@.errors.len() > 0 && e@.map_values(
                        |e2: LanguageError| e2@,
                    ) == final(self)@.errors,
                }
            }),
    {
        let ghost m0 = self@;
        let ghost mm = scan_spec(m0.source, m0.current, m0.line);
        let n = self.source.as_str().unicode_len();
        while self.current < n
            invariant
                scanner_wf(self@),
                self@.start == self@.current,
                self@.source == m0.source,
                n == m0.source.len(),
                self@.line + (m0.source.len() - self@.current) <= i32::MAX as int,
                m0.tokens + mm.tokens == self@.tokens + scan_spec(
                    m0.source,
                    self@.current,
                    self@.line,
                ).tokens,
                m0.errors + mm.errors == self@.errors + scan_spec(
                    m0.source,
                    self@.current,
                    self@.line,
                ).errors,
                mm.line == scan_spec(m0.source, self@.current, self@.line).line,
            decreases m0.source.len() - self@.current,
        {
            let ghost cur = self@.current;
            let ghost line = self@.line;
            proof {
                lemma_scan_step(m0.source, cur, line);
            }
            self.scan_one();
            proof {
                let st = scan_step(m0.source, cur, line);
                let rest = scan_spec(m0.source, st.next, st.line);
                match st.out {
                    ScanOut::Tok(t) => {
                        assert(scan_spec(m0.source, cur, line).tokens == seq![t] + rest.tokens);
                        assert(m0.tokens + mm.tokens =~= self@.tokens + rest.tokens);
                        assert(m0.errors + mm.errors =~= self@.errors + rest.errors);
                    },
                    ScanOut::Lex(e) => {
                        assert(scan_spec(m0.source, cur, line).errors == seq![e] + rest.errors);
                        assert(m0.tokens + mm.tokens =~= self@.tokens + rest.tokens);
                        assert(m0.errors + mm.errors =~= self@.errors + rest.errors);
                    },
                    ScanOut::Skip => {},
                }
            }
        }
        proof {
            assert(self@.current == m0.source.len());
            let base = scan_spec(m0.source, self@.current, self@.line);
            assert(base.tokens == seq![
                TokenSpec {
                    token_type: TokenTypeSpec::Eof,
                    lexeme: Seq::empty(),
                    line: self@.line,
                },
            ]);
            assert(m0.source.subrange(self@.start, self@.current) =~= Seq::<char>::empty());
        }
        self.add_token(TokenType::EOF);
        proof {
            assert(m0.tokens + mm.tokens =~= self@.tokens);
            assert(m0.errors + mm.errors =~= self@.errors);
            assert(self@.tokens =~= m0.tokens + mm.tokens);
            assert(self@.errors =~= m0.errors + mm.errors);
        }
        if !self.has_errors() {
            Ok(&self.tokens)
        } else {
            Err(&self.errors)
        }
    }

    /// Whether any lexical error has been recorded so far.
    fn has_errors(&self) -> (r: bool)
        ensures
            r == (self@.errors.len() > 0),
    {
        !self.errors.is_empty()
    }
}

} // verus!
