//! The recursive-descent parser: one token of lookahead, precedence encoded
//! by grammar level, every binary level left-associative. Parse errors are
//! recorded in a list and parsing continues; the parse succeeds only if that
//! list stays empty.
//!
//! The grammar is modelled by the mutually recursive spec functions below
//! ([`spec_equality`] down to [`spec_primary`], and the statement forms);
//! the executable methods are proved to produce exactly what they say.

use crate::ast::{Expr, ExprSpec, Stmt, StmtSpec};
use crate::atom::{Atom, AtomSpec};
use crate::errors::{LanguageError, LanguageErrorSpec};
use crate::scanner::{Token, TokenSpec, TokenType, TokenTypeSpec};
use vstd::prelude::*;
use vstd::string::StringExecFns;

verus! {

/// A small, distinct number for each token kind, payload ignored: the
/// parser matches tokens by kind alone.
pub open spec fn spec_kind_id(k: TokenTypeSpec) -> int {
    match k {
        TokenTypeSpec::LeftParen => 0,
        TokenTypeSpec::RightParen => 1,
        TokenTypeSpec::LeftBrace => 2,
        TokenTypeSpec::RightBrace => 3,
        TokenTypeSpec::Comma => 4,
        TokenTypeSpec::Dot => 5,
        TokenTypeSpec::Minus => 6,
        TokenTypeSpec::Plus => 7,
        TokenTypeSpec::Semicolon => 8,
        TokenTypeSpec::Slash => 9,
        TokenTypeSpec::Star => 10,
        TokenTypeSpec::Bang => 11,
        TokenTypeSpec::BangEqual => 12,
        TokenTypeSpec::Equal => 13,
        TokenTypeSpec::EqualEqual => 14,
        TokenTypeSpec::Greater => 15,
        TokenTypeSpec::GreaterEqual => 16,
        TokenTypeSpec::Less => 17,
        TokenTypeSpec::LessEqual => 18,
        TokenTypeSpec::Identifier(_) => 19,
        TokenTypeSpec::StringLit(_) => 20,
        TokenTypeSpec::Number(_) => 21,
        TokenTypeSpec::And => 22,
        TokenTypeSpec::Class => 23,
        TokenTypeSpec::Else => 24,
        TokenTypeSpec::False => 25,
        TokenTypeSpec::Fun => 26,
        TokenTypeSpec::For => 27,
        TokenTypeSpec::If => 28,
        TokenTypeSpec::Nil => 29,
        TokenTypeSpec::Or => 30,
        TokenTypeSpec::Print => 31,
        TokenTypeSpec::Return => 32,
        TokenTypeSpec::Super => 33,
        TokenTypeSpec::This => 34,
        TokenTypeSpec::True => 35,
        TokenTypeSpec::Var => 36,
        TokenTypeSpec::While => 37,
        TokenTypeSpec::Eof => 38,
    }
}

/// A well-formed token stream, as the scanner produces it: nonempty, the
/// end-of-input token last and nowhere else.
pub open spec fn wf_tokens(toks: Seq<TokenSpec>) -> bool {
    &&& toks.len() >= 1
    &&& toks.last().token_type is Eof
    &&& forall|i: int| 0 <= i < toks.len() - 1 ==> !((#[trigger] toks[i]).token_type is Eof)
}

/// The cursor position after consuming the token at `i`: one step forward,
/// except that the cursor never leaves the last token.
pub open spec fn spec_advance(toks: Seq<TokenSpec>, i: int) -> int {
    if i + 1 < toks.len() {
        i + 1
    } else {
        i
    }
}

/// A parse position folded back into the valid range `[lo, len - 1]`;
/// the positions the grammar produces are already there.
pub open spec fn bounded_pos(toks: Seq<TokenSpec>, lo: int, p: int) -> int {
    if p < lo {
        lo
    } else if p >= toks.len() {
        toks.len() - 1
    } else {
        p
    }
}

/// What parsing one expression level produced: the tree, the position
/// after it, and the parse errors recorded on the way.
pub struct PExpr {
    pub expr: ExprSpec,
    pub next: int,
    pub errs: Seq<LanguageErrorSpec>,
}

/// What parsing one statement produced.
pub struct PStmt {
    pub stmt: StmtSpec,
    pub next: int,
    pub errs: Seq<LanguageErrorSpec>,
}

/// A primary expression: a literal, a parenthesized sub-expression, or an
/// identifier reference. Any other token is recorded as a parse error and
/// nil is substituted.
pub open spec fn spec_primary(toks: Seq<TokenSpec>, i: int) -> PExpr
    recommends
        wf_tokens(toks),
        0 <= i < toks.len(),
    decreases toks.len() - i, 1int,
    when 0 <= i < toks.len() && wf_tokens(toks)
{
    let t = toks[i];
    let j = spec_advance(toks, i);
    match t.token_type {
        TokenTypeSpec::False => PExpr {
            expr: ExprSpec::Literal(AtomSpec::Truth(false)),
            next: j,
            errs: Seq::empty(),
        },
        TokenTypeSpec::True => PExpr {
            expr: ExprSpec::Literal(AtomSpec::Truth(true)),
            next: j,
            errs: Seq::empty(),
        },
        TokenTypeSpec::Nil => PExpr {
            expr: ExprSpec::Literal(AtomSpec::Nil),
            next: j,
            errs: Seq::empty(),
        },
        TokenTypeSpec::Number(n) => PExpr {
            expr: ExprSpec::Literal(AtomSpec::Num(n)),
            next: j,
            errs: Seq::empty(),
        },
        TokenTypeSpec::StringLit(s) => PExpr {
            expr: ExprSpec::Literal(AtomSpec::Str(s)),
            next: j,
            errs: Seq::empty(),
        },
        TokenTypeSpec::Identifier(name) => PExpr {
            expr: ExprSpec::Var(name),
            next: j,
            errs: Seq::empty(),
        },
        TokenTypeSpec::LeftParen => {
            let inner = spec_expr(toks, i + 1);
            if 0 <= inner.next < toks.len() && toks[inner.next].token_type is RightParen {
                PExpr {
                    expr: ExprSpec::Grouping(Box::new(inner.expr)),
                    next: spec_advance(toks, inner.next),
                    errs: inner.errs,
                }
            } else {
                PExpr {
                    expr: ExprSpec::Grouping(Box::new(inner.expr)),
                    next: inner.next,
                    errs: inner.errs.push(
                        LanguageErrorSpec::ParserError("Expected token RIGHTPAREN"@),
                    ),
                }
            }
        },
        _ => PExpr {
            expr: ExprSpec::Literal(AtomSpec::Nil),
            next: j,
            errs: seq![LanguageErrorSpec::ParserError("Expected expression"@)],
        },
    }
}

/// A unary level: `!` or `-` followed by another unary expression, or a
/// primary expression.
pub open spec fn spec_unary(toks: Seq<TokenSpec>, i: int) -> PExpr
    recommends
        wf_tokens(toks),
        0 <= i < toks.len(),
    decreases toks.len() - i, 2int,
    when 0 <= i < toks.len() && wf_tokens(toks)
{
    let k = toks[i].token_type;
    if k is Bang || k is Minus {
        if i + 1 < toks.len() {
            let op = toks[i];
            let rhs = spec_unary(toks, i + 1);
            PExpr {
                expr: ExprSpec::Unary(op, Box::new(rhs.expr)),
                next: rhs.next,
                errs: rhs.errs,
            }
        } else {
            // the last token is end-of-input, which is neither `!` nor `-`
            spec_primary(toks, i)
        }
    } else {
        spec_primary(toks, i)
    }
}

/// The left-leaning chain of a multiplicative level: already-parsed `e`,
/// extended once per `/` or `*` operator.
pub open spec fn spec_factor_rest(
    toks: Seq<TokenSpec>,
    e: ExprSpec,
    i: int,
    errs: Seq<LanguageErrorSpec>,
) -> PExpr
    recommends
        wf_tokens(toks),
        0 <= i < toks.len(),
    decreases toks.len() - i, 2int,
    when 0 <= i < toks.len() && wf_tokens(toks)
{
    let k = toks[i].token_type;
    if (k is Slash || k is Star) && i + 1 < toks.len() {
        let op = toks[i];
        let rhs = spec_unary(toks, i + 1);
        spec_factor_rest(
            toks,
            ExprSpec::Binary(Box::new(e), op, Box::new(rhs.expr)),
            bounded_pos(toks, i + 1, rhs.next),
            errs + rhs.errs,
        )
    } else {
        PExpr { expr: e, next: i, errs }
    }
}

/// A multiplicative level: a unary expression, then a left-leaning chain
/// of `/` and `*`.
pub open spec fn spec_factor(toks: Seq<TokenSpec>, i: int) -> PExpr
    recommends
        wf_tokens(toks),
        0 <= i < toks.len(),
    decreases toks.len() - i, 3int,
    when 0 <= i < toks.len() && wf_tokens(toks)
{
    let u = spec_unary(toks, i);
    spec_factor_rest(toks, u.expr, bounded_pos(toks, i, u.next), u.errs)
}

/// The left-leaning chain of an additive level.
pub open spec fn spec_term_rest(
    toks: Seq<TokenSpec>,
    e: ExprSpec,
    i: int,
    errs: Seq<LanguageErrorSpec>,
) -> PExpr
    recommends
        wf_tokens(toks),
        0 <= i < toks.len(),
    decreases toks.len() - i, 3int,
    when 0 <= i < toks.len() && wf_tokens(toks)
{
    let k = toks[i].token_type;
    if (k is Minus || k is Plus) && i + 1 < toks.len() {
        let op = toks[i];
        let rhs = spec_factor(toks, i + 1);
        spec_term_rest(
            toks,
            ExprSpec::Binary(Box::new(e), op, Box::new(rhs.expr)),
            bounded_pos(toks, i + 1, rhs.next),
            errs + rhs.errs,
        )
    } else {
        PExpr { expr: e, next: i, errs }
    }
}

/// An additive level: a multiplicative expression, then a left-leaning
/// chain of `-` and `+`.
pub open spec fn spec_term(toks: Seq<TokenSpec>, i: int) -> PExpr
    recommends
        wf_tokens(toks),
        0 <= i < toks.len(),
    decreases toks.len() - i, 4int,
    when 0 <= i < toks.len() && wf_tokens(toks)
{
    let f = spec_factor(toks, i);
    spec_term_rest(toks, f.expr, bounded_pos(toks, i, f.next), f.errs)
}

/// The left-leaning chain of a comparison level.
pub open spec fn spec_comparison_rest(
    toks: Seq<TokenSpec>,
    e: ExprSpec,
    i: int,
    errs: Seq<LanguageErrorSpec>,
) -> PExpr
    recommends
        wf_tokens(toks),
        0 <= i < toks.len(),
    decreases toks.len() - i, 4int,
    when 0 <= i < toks.len() && wf_tokens(toks)
{
    let k = toks[i].token_type;
    if (k is Greater || k is GreaterEqual || k is Less || k is LessEqual) && i + 1 < toks.len() {
        let op = toks[i];
        let rhs = spec_term(toks, i + 1);
        spec_comparison_rest(
            toks,
            ExprSpec::Binary(Box::new(e), op, Box::new(rhs.expr)),
            bounded_pos(toks, i + 1, rhs.next),
            errs + rhs.errs,
        )
    } else {
        PExpr { expr: e, next: i, errs }
    }
}

/// A comparison level: an additive expression, then a left-leaning chain
/// of `>`, `>=`, `<`, `<=`.
pub open spec fn spec_comparison(toks: Seq<TokenSpec>, i: int) -> PExpr
    recommends
        wf_tokens(toks),
        0 <= i < toks.len(),
    decreases toks.len() - i, 5int,
    when 0 <= i < toks.len() && wf_tokens(toks)
{
    let t = spec_term(toks, i);
    spec_comparison_rest(toks, t.expr, bounded_pos(toks, i, t.next), t.errs)
}

/// The left-leaning chain of the equality level.
pub open spec fn spec_equality_rest(
    toks: Seq<TokenSpec>,
    e: ExprSpec,
    i: int,
    errs: Seq<LanguageErrorSpec>,
) -> PExpr
    recommends
        wf_tokens(toks),
        0 <= i < toks.len(),
    decreases toks.len() - i, 5int,
    when 0 <= i < toks.len() && wf_tokens(toks)
{
    let k = toks[i].token_type;
    if (k is BangEqual || k is EqualEqual) && i + 1 < toks.len() {
        let op = toks[i];
        let rhs = spec_comparison(toks, i + 1);
        spec_equality_rest(
            toks,
            ExprSpec::Binary(Box::new(e), op, Box::new(rhs.expr)),
            bounded_pos(toks, i + 1, rhs.next),
            errs + rhs.errs,
        )
    } else {
        PExpr { expr: e, next: i, errs }
    }
}

/// The equality level, the lowest-precedence one: a comparison, then a
/// left-leaning chain of `!=` and `==`.
pub open spec fn spec_equality(toks: Seq<TokenSpec>, i: int) -> PExpr
    recommends
        wf_tokens(toks),
        0 <= i < toks.len(),
    decreases toks.len() - i, 6int,
    when 0 <= i < toks.len() && wf_tokens(toks)
{
    let c = spec_comparison(toks, i);
    spec_equality_rest(toks, c.expr, bounded_pos(toks, i, c.next), c.errs)
}

/// A whole expression: the equality level.
pub open spec fn spec_expr(toks: Seq<TokenSpec>, i: int) -> PExpr
    recommends
        wf_tokens(toks),
        0 <= i < toks.len(),
    decreases toks.len() - i, 7int,
    when 0 <= i < toks.len() && wf_tokens(toks)
{
    spec_equality(toks, i)
}

pub proof fn lemma_primary_pos(toks: Seq<TokenSpec>, i: int)
    requires
        wf_tokens(toks),
        0 <= i < toks.len(),
    ensures
        i <= spec_primary(toks, i).next < toks.len(),
        !(toks[i].token_type is Eof) ==> spec_primary(toks, i).next >= i + 1,
    decreases toks.len() - i, 1int,
{
    if toks[i].token_type is LeftParen {
        assert(i < toks.len() - 1);
        lemma_expr_pos(toks, i + 1);
    }
    if !(toks[i].token_type is Eof) {
        assert(i < toks.len() - 1);
    }
}

pub proof fn lemma_unary_pos(toks: Seq<TokenSpec>, i: int)
    requires
        wf_tokens(toks),
        0 <= i < toks.len(),
    ensures
        i <= spec_unary(toks, i).next < toks.len(),
        !(toks[i].token_type is Eof) ==> spec_unary(toks, i).next >= i + 1,
    decreases toks.len() - i, 2int,
{
    let k = toks[i].token_type;
    if (k is Bang || k is Minus) && i + 1 < toks.len() {
        lemma_unary_pos(toks, i + 1);
    } else {
        lemma_primary_pos(toks, i);
    }
}

pub proof fn lemma_factor_rest_pos(
    toks: Seq<TokenSpec>,
    e: ExprSpec,
    i: int,
    errs: Seq<LanguageErrorSpec>,
)
    requires
        wf_tokens(toks),
        0 <= i < toks.len(),
    ensures
        i <= spec_factor_rest(toks, e, i, errs).next < toks.len(),
    decreases toks.len() - i, 2int,
{
    let k = toks[i].token_type;
    if (k is Slash || k is Star) && i + 1 < toks.len() {
        let rhs = spec_unary(toks, i + 1);
        lemma_unary_pos(toks, i + 1);
        lemma_factor_rest_pos(
            toks,
            ExprSpec::Binary(Box::new(e), toks[i], Box::new(rhs.expr)),
            rhs.next,
            errs + rhs.errs,
        );
    }
}

pub proof fn lemma_factor_pos(toks: Seq<TokenSpec>, i: int)
    requires
        wf_tokens(toks),
        0 <= i < toks.len(),
    ensures
        i <= spec_factor(toks, i).next < toks.len(),
        !(toks[i].token_type is Eof) ==> spec_factor(toks, i).next >= i + 1,
    decreases toks.len() - i, 3int,
{
    let u = spec_unary(toks, i);
    lemma_unary_pos(toks, i);
    lemma_factor_rest_pos(toks, u.expr, u.next, u.errs);
}

pub proof fn lemma_term_rest_pos(
    toks: Seq<TokenSpec>,
    e: ExprSpec,
    i: int,
    errs: Seq<LanguageErrorSpec>,
)
    requires
        wf_tokens(toks),
        0 <= i < toks.len(),
    ensures
        i <= spec_term_rest(toks, e, i, errs).next < toks.len(),
    decreases toks.len() - i, 3int,
{
    let k = toks[i].token_type;
    if (k is Minus || k is Plus) && i + 1 < toks.len() {
        let rhs = spec_factor(toks, i + 1);
        lemma_factor_pos(toks, i + 1);
        lemma_term_rest_pos(
            toks,
            ExprSpec::Binary(Box::new(e), toks[i], Box::new(rhs.expr)),
            rhs.next,
            errs + rhs.errs,
        );
    }
}

pub proof fn lemma_term_pos(toks: Seq<TokenSpec>, i: int)
    requires
        wf_tokens(toks),
        0 <= i < toks.len(),
    ensures
        i <= spec_term(toks, i).next < toks.len(),
        !(toks[i].token_type is Eof) ==> spec_term(toks, i).next >= i + 1,
    decreases toks.len() - i, 4int,
{
    let f = spec_factor(toks, i);
    lemma_factor_pos(toks, i);
    lemma_term_rest_pos(toks, f.expr, f.next, f.errs);
}

pub proof fn lemma_comparison_rest_pos(
    toks: Seq<TokenSpec>,
    e: ExprSpec,
    i: int,
    errs: Seq<LanguageErrorSpec>,
)
    requires
        wf_tokens(toks),
        0 <= i < toks.len(),
    ensures
        i <= spec_comparison_rest(toks, e, i, errs).next < toks.len(),
    decreases toks.len() - i, 4int,
{
    let k = toks[i].token_type;
    if (k is Greater || k is GreaterEqual || k is Less || k is LessEqual) && i + 1 < toks.len() {
        let rhs = spec_term(toks, i + 1);
        lemma_term_pos(toks, i + 1);
        lemma_comparison_rest_pos(
            toks,
            ExprSpec::Binary(Box::new(e), toks[i], Box::new(rhs.expr)),
            rhs.next,
            errs + rhs.errs,
        );
    }
}

pub proof fn lemma_comparison_pos(toks: Seq<TokenSpec>, i: int)
    requires
        wf_tokens(toks),
        0 <= i < toks.len(),
    ensures
        i <= spec_comparison(toks, i).next < toks.len(),
        !(toks[i].token_type is Eof) ==> spec_comparison(toks, i).next >= i + 1,
    decreases toks.len() - i, 5int,
{
    let t = spec_term(toks, i);
    lemma_term_pos(toks, i);
    lemma_comparison_rest_pos(toks, t.expr, t.next, t.errs);
}

pub proof fn lemma_equality_rest_pos(
    toks: Seq<TokenSpec>,
    e: ExprSpec,
    i: int,
    errs: Seq<LanguageErrorSpec>,
)
    requires
        wf_tokens(toks),
        0 <= i < toks.len(),
    ensures
        i <= spec_equality_rest(toks, e, i, errs).next < toks.len(),
    decreases toks.len() - i, 5int,
{
    let k = toks[i].token_type;
    if (k is BangEqual || k is EqualEqual) && i + 1 < toks.len() {
        let rhs = spec_comparison(toks, i + 1);
        lemma_comparison_pos(toks, i + 1);
        lemma_equality_rest_pos(
            toks,
            ExprSpec::Binary(Box::new(e), toks[i], Box::new(rhs.expr)),
            rhs.next,
            errs + rhs.errs,
        );
    }
}

pub proof fn lemma_equality_pos(toks: Seq<TokenSpec>, i: int)
    requires
        wf_tokens(toks),
        0 <= i < toks.len(),
    ensures
        i <= spec_equality(toks, i).next < toks.len(),
        !(toks[i].token_type is Eof) ==> spec_equality(toks, i).next >= i + 1,
    decreases toks.len() - i, 6int,
{
    let c = spec_comparison(toks, i);
    lemma_comparison_pos(toks, i);
    lemma_equality_rest_pos(toks, c.expr, c.next, c.errs);
}

pub proof fn lemma_expr_pos(toks: Seq<TokenSpec>, i: int)
    requires
        wf_tokens(toks),
        0 <= i < toks.len(),
    ensures
        i <= spec_expr(toks, i).next < toks.len(),
        !(toks[i].token_type is Eof) ==> spec_expr(toks, i).next >= i + 1,
    decreases toks.len() - i, 7int,
{
    lemma_equality_pos(toks, i);
}

pub proof fn lemma_factor_rest_shift(
    toks: Seq<TokenSpec>,
    e: ExprSpec,
    i: int,
    errs: Seq<LanguageErrorSpec>,
)
    requires
        wf_tokens(toks),
        0 <= i < toks.len(),
    ensures
        ({
            let p0 = spec_factor_rest(toks, e, i, Seq::empty());
            let p = spec_factor_rest(toks, e, i, errs);
            &&& p.expr == p0.expr
            &&& p.next == p0.next
            &&& p.errs == errs + p0.errs
        }),
    decreases toks.len() - i, 2int,
{
    let k = toks[i].token_type;
    if (k is Slash || k is Star) && i + 1 < toks.len() {
        let rhs = spec_unary(toks, i + 1);
        lemma_unary_pos(toks, i + 1);
        let b = ExprSpec::Binary(Box::new(e), toks[i], Box::new(rhs.expr));
        lemma_factor_rest_shift(toks, b, rhs.next, errs + rhs.errs);
        lemma_factor_rest_shift(toks, b, rhs.next, Seq::empty() + rhs.errs);
        let q = spec_factor_rest(toks, b, rhs.next, Seq::empty());
        assert((errs + rhs.errs) + q.errs =~= errs + ((Seq::<LanguageErrorSpec>::empty()
            + rhs.errs) + q.errs));
    } else {
        assert(errs + Seq::<LanguageErrorSpec>::empty() =~= errs);
    }
}

pub proof fn lemma_term_rest_shift(
    toks: Seq<TokenSpec>,
    e: ExprSpec,
    i: int,
    errs: Seq<LanguageErrorSpec>,
)
    requires
        wf_tokens(toks),
        0 <= i < toks.len(),
    ensures
        ({
            let p0 = spec_term_rest(toks, e, i, Seq::empty());
            let p = spec_term_rest(toks, e, i, errs);
            &&& p.expr == p0.expr
            &&& p.next == p0.next
            &&& p.errs == errs + p0.errs
        }),
    decreases toks.len() - i, 3int,
{
    let k = toks[i].token_type;
    if (k is Minus || k is Plus) && i + 1 < toks.len() {
        let rhs = spec_factor(toks, i + 1);
        lemma_factor_pos(toks, i + 1);
        let b = ExprSpec::Binary(Box::new(e), toks[i], Box::new(rhs.expr));
        lemma_term_rest_shift(toks, b, rhs.next, errs + rhs.errs);
        lemma_term_rest_shift(toks, b, rhs.next, Seq::empty() + rhs.errs);
        let q = spec_term_rest(toks, b, rhs.next, Seq::empty());
        assert((errs + rhs.errs) + q.errs =~= errs + ((Seq::<LanguageErrorSpec>::empty()
            + rhs.errs) + q.errs));
    } else {
        assert(errs + Seq::<LanguageErrorSpec>::empty() =~= errs);
    }
}

pub proof fn lemma_comparison_rest_shift(
    toks: Seq<TokenSpec>,
    e: ExprSpec,
    i: int,
    errs: Seq<LanguageErrorSpec>,
)
    requires
        wf_tokens(toks),
        0 <= i < toks.len(),
    ensures
        ({
            let p0 = spec_comparison_rest(toks, e, i, Seq::empty());
            let p = spec_comparison_rest(toks, e, i, errs);
            &&& p.expr == p0.expr
            &&& p.next == p0.next
            &&& p.errs == errs + p0.errs
        }),
    decreases toks.len() - i, 4int,
{
    let k = toks[i].token_type;
    if (k is Greater || k is GreaterEqual || k is Less || k is LessEqual) && i + 1 < toks.len() {
        let rhs = spec_term(toks, i + 1);
        lemma_term_pos(toks, i + 1);
        let b = ExprSpec::Binary(Box::new(e), toks[i], Box::new(rhs.expr));
        lemma_comparison_rest_shift(toks, b, rhs.next, errs + rhs.errs);
        lemma_comparison_rest_shift(toks, b, rhs.next, Seq::empty() + rhs.errs);
        let q = spec_comparison_rest(toks, b, rhs.next, Seq::empty());
        assert((errs + rhs.errs) + q.errs =~= errs + ((Seq::<LanguageErrorSpec>::empty()
            + rhs.errs) + q.errs));
    } else {
        assert(errs + Seq::<LanguageErrorSpec>::empty() =~= errs);
    }
}

pub proof fn lemma_equality_rest_shift(
    toks: Seq<TokenSpec>,
    e: ExprSpec,
    i: int,
    errs: Seq<LanguageErrorSpec>,
)
    requires
        wf_tokens(toks),
        0 <= i < toks.len(),
    ensures
        ({
            let p0 = spec_equality_rest(toks, e, i, Seq::empty());
            let p = spec_equality_rest(toks, e, i, errs);
            &&& p.expr == p0.expr
            &&& p.next == p0.next
            &&& p.errs == errs + p0.errs
        }),
    decreases toks.len() - i, 5int,
{
    let k = toks[i].token_type;
    if (k is BangEqual || k is EqualEqual) && i + 1 < toks.len() {
        let rhs = spec_comparison(toks, i + 1);
        lemma_comparison_pos(toks, i + 1);
        let b = ExprSpec::Binary(Box::new(e), toks[i], Box::new(rhs.expr));
        lemma_equality_rest_shift(toks, b, rhs.next, errs + rhs.errs);
        lemma_equality_rest_shift(toks, b, rhs.next, Seq::empty() + rhs.errs);
        let q = spec_equality_rest(toks, b, rhs.next, Seq::empty());
        assert((errs + rhs.errs) + q.errs =~= errs + ((Seq::<LanguageErrorSpec>::empty()
            + rhs.errs) + q.errs));
    } else {
        assert(errs + Seq::<LanguageErrorSpec>::empty() =~= errs);
    }
}

/// Consuming an expected token kind at `i`: the position after it, or the
/// recorded error when another kind stands there.
pub open spec fn spec_consume(toks: Seq<TokenSpec>, i: int, id: int, msg: Seq<char>) -> (
    int,
    Seq<LanguageErrorSpec>,
) {
    if 0 <= i < toks.len() && spec_kind_id(toks[i].token_type) == id {
        (spec_advance(toks, i), Seq::empty())
    } else {
        (i, seq![LanguageErrorSpec::ParserError(msg)])
    }
}

/// A variable declaration after its `var` keyword: an identifier (a parse
/// error and an empty name when missing), an optional `=` initializer
/// (nil when absent), and the terminating semicolon.
pub open spec fn spec_var_decl(toks: Seq<TokenSpec>, i: int) -> PStmt
    recommends
        wf_tokens(toks),
        0 <= i < toks.len(),
{
    let (name, j1, errs1): (Seq<char>, int, Seq<LanguageErrorSpec>) = match toks[i].token_type {
        TokenTypeSpec::Identifier(n) => (n, spec_advance(toks, i), Seq::empty()),
        _ => (Seq::empty(), i, seq![LanguageErrorSpec::ParserError("Expected identifier"@)]),
    };
    let (rval, j2, errs2): (ExprSpec, int, Seq<LanguageErrorSpec>) = if 0 <= j1 < toks.len()
        && toks[j1].token_type is Equal && j1 + 1 < toks.len() {
        let e = spec_expr(toks, j1 + 1);
        (e.expr, e.next, e.errs)
    } else {
        (ExprSpec::Literal(AtomSpec::Nil), j1, Seq::empty())
    };
    let (j3, errs3) = spec_consume(
        toks,
        j2,
        spec_kind_id(TokenTypeSpec::Semicolon),
        "Expected token SEMICOLON"@,
    );
    PStmt {
        stmt: StmtSpec::Var(name, Box::new(rval)),
        next: j3,
        errs: errs1 + errs2 + errs3,
    }
}

/// A print statement after its `print` keyword: the expression and the
/// terminating semicolon.
pub open spec fn spec_print_stmt(toks: Seq<TokenSpec>, i: int) -> PStmt
    recommends
        wf_tokens(toks),
        0 <= i < toks.len(),
{
    let e = spec_expr(toks, i);
    let (j, errs2) = spec_consume(
        toks,
        e.next,
        spec_kind_id(TokenTypeSpec::Semicolon),
        "Expected token SEMICOLON"@,
    );
    PStmt { stmt: StmtSpec::Print(Box::new(e.expr)), next: j, errs: e.errs + errs2 }
}

/// A bare expression statement: the expression and the terminating
/// semicolon.
pub open spec fn spec_expr_stmt(toks: Seq<TokenSpec>, i: int) -> PStmt
    recommends
        wf_tokens(toks),
        0 <= i < toks.len(),
{
    let e = spec_expr(toks, i);
    let (j, errs2) = spec_consume(
        toks,
        e.next,
        spec_kind_id(TokenTypeSpec::Semicolon),
        "Expected token SEMICOLON"@,
    );
    PStmt { stmt: StmtSpec::Expr(Box::new(e.expr)), next: j, errs: e.errs + errs2 }
}

/// A statement: a print statement when the `print` keyword stands at `i`,
/// a bare expression statement otherwise.
pub open spec fn spec_stmt(toks: Seq<TokenSpec>, i: int) -> PStmt
    recommends
        wf_tokens(toks),
        0 <= i < toks.len(),
{
    if toks[i].token_type is Print && i + 1 < toks.len() {
        spec_print_stmt(toks, i + 1)
    } else {
        spec_expr_stmt(toks, i)
    }
}

/// A declaration: a variable declaration when the `var` keyword stands at
/// `i`, otherwise a statement.
#[verifier::opaque]
pub open spec fn spec_decl(toks: Seq<TokenSpec>, i: int) -> PStmt
    recommends
        wf_tokens(toks),
        0 <= i < toks.len(),
{
    if toks[i].token_type is Var && i + 1 < toks.len() {
        spec_var_decl(toks, i + 1)
    } else {
        spec_stmt(toks, i)
    }
}

pub proof fn lemma_var_decl_pos(toks: Seq<TokenSpec>, i: int)
    requires
        wf_tokens(toks),
        0 <= i < toks.len(),
    ensures
        i <= spec_var_decl(toks, i).next < toks.len(),
{
    let j1: int = match toks[i].token_type {
        TokenTypeSpec::Identifier(_) => spec_advance(toks, i),
        _ => i,
    };
    if 0 <= j1 < toks.len() && toks[j1].token_type is Equal && j1 + 1 < toks.len() {
        lemma_expr_pos(toks, j1 + 1);
    }
}

pub proof fn lemma_stmt_pos(toks: Seq<TokenSpec>, i: int)
    requires
        wf_tokens(toks),
        0 <= i < toks.len(),
    ensures
        i <= spec_stmt(toks, i).next < toks.len(),
        !(toks[i].token_type is Eof) ==> spec_stmt(toks, i).next >= i + 1,
{
    if toks[i].token_type is Print && i + 1 < toks.len() {
        lemma_expr_pos(toks, i + 1);
    } else {
        lemma_expr_pos(toks, i);
    }
}

pub proof fn lemma_decl_pos(toks: Seq<TokenSpec>, i: int)
    requires
        wf_tokens(toks),
        0 <= i < toks.len(),
    ensures
        i <= spec_decl(toks, i).next < toks.len(),
        !(toks[i].token_type is Eof) ==> spec_decl(toks, i).next >= i + 1,
{
    reveal(spec_decl);
    if toks[i].token_type is Var && i + 1 < toks.len() {
        lemma_var_decl_pos(toks, i + 1);
    } else {
        lemma_stmt_pos(toks, i);
    }
}

pub proof fn lemma_program_step(toks: Seq<TokenSpec>, j: int)
    requires
        wf_tokens(toks),
        0 <= j < toks.len(),
        !(toks[j].token_type is Eof),
    ensures
        ({
            let d = spec_decl(toks, j);
            &&& j + 1 <= d.next < toks.len()
            &&& spec_program(toks, j).stmts == seq![d.stmt] + spec_program(toks, d.next).stmts
            &&& spec_program(toks, j).errs == d.errs + spec_program(toks, d.next).errs
            &&& spec_program(toks, j).next == spec_program(toks, d.next).next
        }),
{
    reveal(spec_program);
    lemma_decl_pos(toks, j);
    assert(bounded_pos(toks, j + 1, spec_decl(toks, j).next) == spec_decl(toks, j).next);
}

pub proof fn lemma_program_base(toks: Seq<TokenSpec>, j: int)
    requires
        wf_tokens(toks),
        0 <= j < toks.len(),
        toks[j].token_type is Eof,
    ensures
        spec_program(toks, j).stmts == Seq::<StmtSpec>::empty(),
        spec_program(toks, j).errs == Seq::<LanguageErrorSpec>::empty(),
        spec_program(toks, j).next == j,
{
    reveal(spec_program);
}

/// What parsing a whole program produced.
pub struct PProgram {
    pub stmts: Seq<StmtSpec>,
    pub next: int,
    pub errs: Seq<LanguageErrorSpec>,
}

/// A whole program: declarations until the end-of-input token.
#[verifier::opaque]
pub open spec fn spec_program(toks: Seq<TokenSpec>, i: int) -> PProgram
    recommends
        wf_tokens(toks),
        0 <= i < toks.len(),
    decreases toks.len() - i,
    when 0 <= i < toks.len() && wf_tokens(toks)
{
    if toks[i].token_type is Eof {
        PProgram { stmts: Seq::empty(), next: i, errs: Seq::empty() }
    } else {
        let d = spec_decl(toks, i);
        let rest = spec_program(toks, bounded_pos(toks, i + 1, d.next));
        PProgram {
            stmts: seq![d.stmt] + rest.stmts,
            next: rest.next,
            errs: d.errs + rest.errs,
        }
    }
}

/// The token-kind views of a token list.
pub open spec fn tokens_spec(ts: Seq<Token>) -> Seq<TokenSpec> {
    ts.map_values(|t: Token| t@)
}

/// Mathematical image of a [`Parser`]: the token stream, the cursor, and
/// the parse errors recorded so far.
pub struct ParserModel {
    pub tokens: Seq<TokenSpec>,
    pub current: int,
    pub errs: Seq<LanguageErrorSpec>,
}

/// The parser's cursor always rests on a token of a well-formed stream.
pub open spec fn parser_wf(m: ParserModel) -> bool {
    &&& wf_tokens(m.tokens)
    &&& 0 <= m.current < m.tokens.len()
}

/// The recursive-descent parser over a scanned token stream.
pub struct Parser<'a> {
    tokens: &'a Vec<Token>,
    current: usize,
    errs: Vec<LanguageError>,
}

impl<'a> View for Parser<'a> {
    type V = ParserModel;

    closed spec fn view(&self) -> ParserModel {
        ParserModel {
            tokens: tokens_spec(self.tokens@),
            current: self.current as int,
            errs: self.errs@.map_values(|e: LanguageError| e@),
        }
    }
}

/// The distinct number of a token's kind; see [`spec_kind_id`].
fn kind_id_of(t: &TokenType) -> (r: u32)
    ensures
        r as int == spec_kind_id(t@),
{
    match t {
        TokenType::LEFTPAREN => 0,
        TokenType::RIGHTPAREN => 1,
        TokenType::LEFTBRACE => 2,
        TokenType::RIGHTBRACE => 3,
        TokenType::COMMA => 4,
        TokenType::DOT => 5,
        TokenType::MINUS => 6,
        TokenType::PLUS => 7,
        TokenType::SEMICOLON => 8,
        TokenType::SLASH => 9,
        TokenType::STAR => 10,
        TokenType::BANG => 11,
        TokenType::BANGEQUAL => 12,
        TokenType::EQUAL => 13,
        TokenType::EQUALEQUAL => 14,
        TokenType::GREATER => 15,
        TokenType::GREATEREQUAL => 16,
        TokenType::LESS => 17,
        TokenType::LESSEQUAL => 18,
        TokenType::IDENTIFIER(_) => 19,
        TokenType::STRING(_) => 20,
        TokenType::NUMBER(_) => 21,
        TokenType::AND => 22,
        TokenType::CLASS => 23,
        TokenType::ELSE => 24,
        TokenType::FALSE => 25,
        TokenType::FUN => 26,
        TokenType::FOR => 27,
        TokenType::IF => 28,
        TokenType::NIL => 29,
        TokenType::OR => 30,
        TokenType::PRINT => 31,
        TokenType::RETURN => 32,
        TokenType::SUPER => 33,
        TokenType::THIS => 34,
        TokenType::TRUE => 35,
        TokenType::VAR => 36,
        TokenType::WHILE => 37,
        TokenType::EOF => 38,
    }
}

impl<'a> Parser<'a> {
    /// A parser at the beginning of a well-formed token stream.
    pub fn new(tokens: &'a Vec<Token>) -> (p: Self)
        requires
            wf_tokens(tokens_spec(tokens@)),
        ensures
            p@.tokens == tokens_spec(tokens@),
            p@.current == 0,
            p@.errs == Seq::<LanguageErrorSpec>::empty(),
    {
        let p = Self { tokens, current: 0, errs: Vec::new() };
        proof {
            assert(p@.errs =~= Seq::<LanguageErrorSpec>::empty());
        }
        p
    }

    /// Whether the token under the cursor has the same kind as `ttype`.
    fn check(&self, ttype: &TokenType) -> (r: bool)
        ensures
            r == (self@.current < self@.tokens.len() && spec_kind_id(
                self@.tokens[self@.current].token_type,
            ) == spec_kind_id(ttype@)),
    {
        if self.current >= self.tokens.len() {
            return false;
        }
        kind_id_of(&self.tokens[self.current].token_type) == kind_id_of(ttype)
    }

    /// Moves the cursor one token forward, never past the last token.
    fn advance(&mut self)
        requires
            parser_wf(old(self)@),
        ensures
            parser_wf(final(self)@),
            final(self)@.tokens == old(self)@.tokens,
            final(self)@.errs == old(self)@.errs,
            final(self)@.current == spec_advance(old(self)@.tokens, old(self)@.current),
    {
        let n = self.tokens.len();
        if self.current + 1 < n {
            self.current = self.current + 1;
        }
    }

    /// The token just before the cursor.
    fn prev(&self) -> (t: Token)
        requires
            parser_wf(self@),
            1 <= self@.current,
        ensures
            t@ == self@.tokens[self@.current - 1],
    {
        self.tokens[self.current - 1].duplicate()
    }

    /// The token under the cursor.
    fn peek(&self) -> (t: Token)
        requires
            parser_wf(self@),
        ensures
            t@ == self@.tokens[self@.current],
    {
        self.tokens[self.current].duplicate()
    }

    /// Consumes the token under the cursor when its kind is one of
    /// `ttypes`.
    fn tmatch(&mut self, ttypes: &Vec<TokenType>) -> (r: bool)
        requires
            parser_wf(old(self)@),
        ensures
            parser_wf(final(self)@),
            final(self)@.tokens == old(self)@.tokens,
            final(self)@.errs == old(self)@.errs,
            r == (exists|k: int|
                0 <= k < ttypes@.len() && spec_kind_id(
                    old(self)@.tokens[old(self)@.current].token_type,
                ) == spec_kind_id((#[trigger] ttypes@[k])@)),
            r ==> final(self)@.current == spec_advance(old(self)@.tokens, old(self)@.current),
            !r ==> final(self)@.current == old(self)@.current,
    {
        let n = ttypes.len();
        let mut i: usize = 0;
        while i < n
            invariant
                i <= n,
                n == ttypes@.len(),
                parser_wf(self@),
                self@ == old(self)@,
                forall|k: int|
                    0 <= k < i ==> spec_kind_id(self@.tokens[self@.current].token_type)
                        != spec_kind_id((#[trigger] ttypes@[k])@),
            decreases n - i,
        {
            if self.check(&ttypes[i]) {
                self.advance();
                return true;
            }
            i = i + 1;
        }
        false
    }

    /// A primary expression; see [`spec_primary`]. An unexpected token is
    /// consumed, recorded as a parse error, and replaced by a nil literal.
    #[verifier::rlimit(60)]
    fn primary(&mut self) -> (e: Expr)
        requires
            parser_wf(old(self)@),
        ensures
            parser_wf(final(self)@),
            final(self)@.tokens == old(self)@.tokens,
            ({
                let p = spec_primary(old(self)@.tokens, old(self)@.current);
                &&& e@ == p.expr
                &&& final(self)@.current == p.next
                &&& final(self)@.errs == old(self)@.errs + p.errs
            }),
        decreases old(self)@.tokens.len() - old(self)@.current, 1int,
    {
        let ghost toks = self@.tokens;
        let ghost i0 = self@.current;
        let token = self.peek();
        self.advance();
        match token.token_type {
            TokenType::FALSE => {
                proof {
                    assert(final(self)@.errs =~= old(self)@.errs + Seq::<
                        LanguageErrorSpec,
                    >::empty());
                }
                Expr::Literal(Atom::Bool(false))
            },
            TokenType::TRUE => {
                proof {
                    assert(final(self)@.errs =~= old(self)@.errs + Seq::<
                        LanguageErrorSpec,
                    >::empty());
                }
                Expr::Literal(Atom::Bool(true))
            },
            TokenType::NIL => {
                proof {
                    assert(final(self)@.errs =~= old(self)@.errs + Seq::<
                        LanguageErrorSpec,
                    >::empty());
                }
                Expr::Literal(Atom::Nil)
            },
            TokenType::NUMBER(num) => {
                proof {
                    assert(final(self)@.errs =~= old(self)@.errs + Seq::<
                        LanguageErrorSpec,
                    >::empty());
                }
                Expr::Literal(Atom::Number(num))
            },
            TokenType::STRING(s) => {
                proof {
                    assert(final(self)@.errs =~= old(self)@.errs + Seq::<
                        LanguageErrorSpec,
                    >::empty());
                }
                Expr::Literal(Atom::String(s))
            },
            TokenType::IDENTIFIER(name) => {
                proof {
                    assert(final(self)@.errs =~= old(self)@.errs + Seq::<
                        LanguageErrorSpec,
                    >::empty());
                }
                Expr::Var(Box::new(name))
            },
            TokenType::LEFTPAREN => {
                proof {
                    assert(i0 < toks.len() - 1);
                }
                let expr = self.expr();
                if self.check(&TokenType::RIGHTPAREN) {
                    self.advance();
                } else {
                    proof {
                        let inner = spec_expr(toks, i0 + 1);
                        assert(self@.current == inner.next);
                        assert(0 <= inner.next < toks.len());
                        assert(!(toks[inner.next].token_type is RightParen));
                        assert(spec_primary(toks, i0).errs == inner.errs.push(
                            LanguageErrorSpec::ParserError("Expected token RIGHTPAREN"@),
                        ));
                    }
                    let missing = LanguageError::ParserError(
                        String::from_str("Expected token RIGHTPAREN"),
                    );
                    proof {
                        assert(missing@ == LanguageErrorSpec::ParserError(
                            "Expected token RIGHTPAREN"@,
                        ));
                    }
                    let ghost before = self@.errs;
                    self.errs.push(missing);
                    proof {
                        let p = spec_primary(toks, i0);
                        let inner = spec_expr(toks, i0 + 1);
                        assert(self@.errs =~= before.push(
                            LanguageErrorSpec::ParserError("Expected token RIGHTPAREN"@),
                        ));
                        assert(before == old(self)@.errs + inner.errs);
                        assert(before.push(
                            LanguageErrorSpec::ParserError("Expected token RIGHTPAREN"@),
                        ) =~= old(self)@.errs + p.errs);
                        assert(self@.errs == old(self)@.errs + p.errs);
                    }
                }
                Expr::Grouping(Box::new(expr))
            },
            _ => {
                proof {
                    assert(!(toks[i0].token_type is False));
                    assert(!(toks[i0].token_type is True));
                    assert(!(toks[i0].token_type is Nil));
                    assert(!(toks[i0].token_type is Number));
                    assert(!(toks[i0].token_type is StringLit));
                    assert(!(toks[i0].token_type is Identifier));
                    assert(!(toks[i0].token_type is LeftParen));
                }
                self.errs.push(
                    LanguageError::ParserError(String::from_str("Expected expression")),
                );
                proof {
                    let p = spec_primary(toks, i0);
                    assert(p.errs == seq![LanguageErrorSpec::ParserError("Expected expression"@)]);
                    assert(self@.errs =~= old(self)@.errs + p.errs);
                }
                Expr::Literal(Atom::Nil)
            },
        }
    }

    /// A unary level: `!` or `-` applied to another unary expression, or a
    /// primary expression; see [`spec_unary`].
    #[verifier::rlimit(60)]
    fn unary(&mut self) -> (e: Expr)
        requires
            parser_wf(old(self)@),
        ensures
            parser_wf(final(self)@),
            final(self)@.tokens == old(self)@.tokens,
            ({
                let p = spec_unary(old(self)@.tokens, old(self)@.current);
                &&& e@ == p.expr
                &&& final(self)@.current == p.next
                &&& final(self)@.errs == old(self)@.errs + p.errs
            }),
        decreases old(self)@.tokens.len() - old(self)@.current, 2int,
    {
        let ghost toks = self@.tokens;
        let ghost i0 = self@.current;
        if self.tmatch(&vec![TokenType::BANG, TokenType::MINUS]) {
            proof {
                assert(toks[i0].token_type is Bang || toks[i0].token_type is Minus);
                assert(i0 < toks.len() - 1);
            }
            let op = self.prev();
            let rhs = self.unary();
            return Expr::Unary(Box::new(op), Box::new(rhs));
        }
        proof {
            assert(!(toks[i0].token_type is Bang) && !(toks[i0].token_type is Minus));
        }
        self.primary()
    }

    /// A multiplicative level: a unary expression, extended left to right
    /// by `/` and `*`; see [`spec_factor`].
    #[verifier::rlimit(60)]
    fn factor(&mut self) -> (e: Expr)
        requires
            parser_wf(old(self)@),
        ensures
            parser_wf(final(self)@),
            final(self)@.tokens == old(self)@.tokens,
            ({
                let p = spec_factor(old(self)@.tokens, old(self)@.current);
                &&& e@ == p.expr
                &&& final(self)@.current == p.next
                &&& final(self)@.errs == old(self)@.errs + p.errs
            }),
        decreases old(self)@.tokens.len() - old(self)@.current, 4int,
    {
        let ghost toks = self@.tokens;
        let ghost i0 = self@.current;
        proof {
            lemma_unary_pos(toks, i0);
        }
        let e = self.unary();
        let ghost u = spec_unary(toks, i0);
        let res = self.factor_rest(e);
        proof {
            assert(bounded_pos(toks, i0, u.next) == u.next);
            lemma_factor_rest_shift(toks, u.expr, u.next, u.errs);
            let q = spec_factor_rest(toks, u.expr, u.next, Seq::empty());
            assert((old(self)@.errs + u.errs) + q.errs =~= old(self)@.errs + (u.errs + q.errs));
        }
        res
    }

    /// The left-leaning operator chain of the level, one recursive step
    /// per operator; see [`spec_factor_rest`].
    #[verifier::rlimit(60)]
    fn factor_rest(&mut self, e: Expr) -> (res: Expr)
        requires
            parser_wf(old(self)@),
        ensures
            parser_wf(final(self)@),
            final(self)@.tokens == old(self)@.tokens,
            ({
                let p = spec_factor_rest(old(self)@.tokens, e@, old(self)@.current, Seq::empty());
                &&& res@ == p.expr
                &&& final(self)@.current == p.next
                &&& final(self)@.errs == old(self)@.errs + p.errs
            }),
        decreases old(self)@.tokens.len() - old(self)@.current, 3int,
    {
        let ghost toks = self@.tokens;
        let ghost j = self@.current;
        if !self.tmatch(&vec![TokenType::SLASH, TokenType::STAR]) {
            proof {
                assert(!(toks[j].token_type is Slash) && !(toks[j].token_type is Star));
                assert(old(self)@.errs + Seq::<LanguageErrorSpec>::empty() =~= old(self)@.errs);
            }
            return e;
        }
        proof {
            assert(toks[j].token_type is Slash || toks[j].token_type is Star);
            assert(j < toks.len() - 1);
            assert(self@.current == j + 1);
            lemma_unary_pos(toks, j + 1);
        }
        let op = self.prev();
        let rhs = self.unary();
        let ghost r = spec_unary(toks, j + 1);
        let newe = Expr::Binary(Box::new(e), Box::new(op), Box::new(rhs));
        let res = self.factor_rest(newe);
        proof {
            assert(bounded_pos(toks, j + 1, r.next) == r.next);
            lemma_factor_rest_shift(toks, newe@, r.next, Seq::<LanguageErrorSpec>::empty() + r.errs);
            let q = spec_factor_rest(toks, newe@, r.next, Seq::empty());
            assert((old(self)@.errs + r.errs) + q.errs =~= old(self)@.errs + ((Seq::<
                LanguageErrorSpec,
            >::empty() + r.errs) + q.errs));
        }
        res
    }

    /// An additive level: a multiplicative expression, extended left to
    /// right by `-` and `+`; see [`spec_term`].
    #[verifier::rlimit(60)]
    fn term(&mut self) -> (e: Expr)
        requires
            parser_wf(old(self)@),
        ensures
            parser_wf(final(self)@),
            final(self)@.tokens == old(self)@.tokens,
            ({
                let p = spec_term(old(self)@.tokens, old(self)@.current);
                &&& e@ == p.expr
                &&& final(self)@.current == p.next
                &&& final(self)@.errs == old(self)@.errs + p.errs
            }),
        decreases old(self)@.tokens.len() - old(self)@.current, 6int,
    {
        let ghost toks = self@.tokens;
        let ghost i0 = self@.current;
        proof {
            lemma_factor_pos(toks, i0);
        }
        let e = self.factor();
        let ghost u = spec_factor(toks, i0);
        let res = self.term_rest(e);
        proof {
            assert(bounded_pos(toks, i0, u.next) == u.next);
            lemma_term_rest_shift(toks, u.expr, u.next, u.errs);
            let q = spec_term_rest(toks, u.expr, u.next, Seq::empty());
            assert((old(self)@.errs + u.errs) + q.errs =~= old(self)@.errs + (u.errs + q.errs));
        }
        res
    }

    /// The left-leaning operator chain of the level, one recursive step
    /// per operator; see [`spec_term_rest`].
    #[verifier::rlimit(60)]
    fn term_rest(&mut self, e: Expr) -> (res: Expr)
        requires
            parser_wf(old(self)@),
        ensures
            parser_wf(final(self)@),
            final(self)@.tokens == old(self)@.tokens,
            ({
                let p = spec_term_rest(old(self)@.tokens, e@, old(self)@.current, Seq::empty());
                &&& res@ == p.expr
                &&& final(self)@.current == p.next
                &&& final(self)@.errs == old(self)@.errs + p.errs
            }),
        decreases old(self)@.tokens.len() - old(self)@.current, 5int,
    {
        let ghost toks = self@.tokens;
        let ghost j = self@.current;
        if !self.tmatch(&vec![TokenType::MINUS, TokenType::PLUS]) {
            proof {
                assert(!(toks[j].token_type is Minus) && !(toks[j].token_type is Plus));
                assert(old(self)@.errs + Seq::<LanguageErrorSpec>::empty() =~= old(self)@.errs);
            }
            return e;
        }
        proof {
            assert(toks[j].token_type is Minus || toks[j].token_type is Plus);
            assert(j < toks.len() - 1);
            assert(self@.current == j + 1);
            lemma_factor_pos(toks, j + 1);
        }
        let op = self.prev();
        let rhs = self.factor();
        let ghost r = spec_factor(toks, j + 1);
        let newe = Expr::Binary(Box::new(e), Box::new(op), Box::new(rhs));
        let res = self.term_rest(newe);
        proof {
            assert(bounded_pos(toks, j + 1, r.next) == r.next);
            lemma_term_rest_shift(toks, newe@, r.next, Seq::<LanguageErrorSpec>::empty() + r.errs);
            let q = spec_term_rest(toks, newe@, r.next, Seq::empty());
            assert((old(self)@.errs + r.errs) + q.errs =~= old(self)@.errs + ((Seq::<
                LanguageErrorSpec,
            >::empty() + r.errs) + q.errs));
        }
        res
    }

    /// A comparison level: an additive expression, extended left to right
    /// by `>`, `>=`, `<`, `<=`; see [`spec_comparison`].
    #[verifier::rlimit(60)]
    fn comparison(&mut self) -> (e: Expr)
        requires
            parser_wf(old(self)@),
        ensures
            parser_wf(final(self)@),
            final(self)@.tokens == old(self)@.tokens,
            ({
                let p = spec_comparison(old(self)@.tokens, old(self)@.current);
                &&& e@ == p.expr
                &&& final(self)@.current == p.next
                &&& final(self)@.errs == old(self)@.errs + p.errs
            }),
        decreases old(self)@.tokens.len() - old(self)@.current, 8int,
    {
        let ghost toks = self@.tokens;
        let ghost i0 = self@.current;
        proof {
            lemma_term_pos(toks, i0);
        }
        let e = self.term();
        let ghost u = spec_term(toks, i0);
        let res = self.comparison_rest(e);
        proof {
            assert(bounded_pos(toks, i0, u.next) == u.next);
            lemma_comparison_rest_shift(toks, u.expr, u.next, u.errs);
            let q = spec_comparison_rest(toks, u.expr, u.next, Seq::empty());
            assert((old(self)@.errs + u.errs) + q.errs =~= old(self)@.errs + (u.errs + q.errs));
        }
        res
    }

    /// The left-leaning operator chain of the level, one recursive step
    /// per operator; see [`spec_comparison_rest`].
    #[verifier::rlimit(60)]
    fn comparison_rest(&mut self, e: Expr) -> (res: Expr)
        requires
            parser_wf(old(self)@),
        ensures
            parser_wf(final(self)@),
            final(self)@.tokens == old(self)@.tokens,
            ({
                let p = spec_comparison_rest(old(self)@.tokens, e@, old(self)@.current, Seq::empty());
                &&& res@ == p.expr
                &&& final(self)@.current == p.next
                &&& final(self)@.errs == old(self)@.errs + p.errs
            }),
        decreases old(self)@.tokens.len() - old(self)@.current, 7int,
    {
        let ghost toks = self@.tokens;
        let ghost j = self@.current;
        if !self.tmatch(&vec![TokenType::GREATER, TokenType::GREATEREQUAL, TokenType::LESS, TokenType::LESSEQUAL]) {
            proof {
                assert(!(toks[j].token_type is Greater) && !(toks[j].token_type is GreaterEqual) && !(toks[j].token_type is Less) && !(toks[j].token_type is LessEqual));
                assert(old(self)@.errs + Seq::<LanguageErrorSpec>::empty() =~= old(self)@.errs);
            }
            return e;
        }
        proof {
            assert(toks[j].token_type is Greater || toks[j].token_type is GreaterEqual || toks[j].token_type is Less || toks[j].token_type is LessEqual);
            assert(j < toks.len() - 1);
            assert(self@.current == j + 1);
            lemma_term_pos(toks, j + 1);
        }
        let op = self.prev();
        let rhs = self.term();
        let ghost r = spec_term(toks, j + 1);
        let newe = Expr::Binary(Box::new(e), Box::new(op), Box::new(rhs));
        let res = self.comparison_rest(newe);
        proof {
            assert(bounded_pos(toks, j + 1, r.next) == r.next);
            lemma_comparison_rest_shift(toks, newe@, r.next, Seq::<LanguageErrorSpec>::empty() + r.errs);
            let q = spec_comparison_rest(toks, newe@, r.next, Seq::empty());
            assert((old(self)@.errs + r.errs) + q.errs =~= old(self)@.errs + ((Seq::<
                LanguageErrorSpec,
            >::empty() + r.errs) + q.errs));
        }
        res
    }

    /// The equality level, the lowest-precedence one; see
    /// [`spec_equality`].
    #[verifier::rlimit(60)]
    fn equality(&mut self) -> (e: Expr)
        requires
            parser_wf(old(self)@),
        ensures
            parser_wf(final(self)@),
            final(self)@.tokens == old(self)@.tokens,
            ({
                let p = spec_equality(old(self)@.tokens, old(self)@.current);
                &&& e@ == p.expr
                &&& final(self)@.current == p.next
                &&& final(self)@.errs == old(self)@.errs + p.errs
            }),
        decreases old(self)@.tokens.len() - old(self)@.current, 10int,
    {
        let ghost toks = self@.tokens;
        let ghost i0 = self@.current;
        proof {
            lemma_comparison_pos(toks, i0);
        }
        let e = self.comparison();
        let ghost u = spec_comparison(toks, i0);
        let res = self.equality_rest(e);
        proof {
            assert(bounded_pos(toks, i0, u.next) == u.next);
            lemma_equality_rest_shift(toks, u.expr, u.next, u.errs);
            let q = spec_equality_rest(toks, u.expr, u.next, Seq::empty());
            assert((old(self)@.errs + u.errs) + q.errs =~= old(self)@.errs + (u.errs + q.errs));
        }
        res
    }

    /// The left-leaning operator chain of the level, one recursive step
    /// per operator; see [`spec_equality_rest`].
    #[verifier::rlimit(60)]
    fn equality_rest(&mut self, e: Expr) -> (res: Expr)
        requires
            parser_wf(old(self)@),
        ensures
            parser_wf(final(self)@),
            final(self)@.tokens == old(self)@.tokens,
            ({
                let p = spec_equality_rest(old(self)@.tokens, e@, old(self)@.current, Seq::empty());
                &&& res@ == p.expr
                &&& final(self)@.current == p.next
                &&& final(self)@.errs == old(self)@.errs + p.errs
            }),
        decreases old(self)@.tokens.len() - old(self)@.current, 9int,
    {
        let ghost toks = self@.tokens;
        let ghost j = self@.current;
        if !self.tmatch(&vec![TokenType::BANGEQUAL, TokenType::EQUALEQUAL]) {
            proof {
                assert(!(toks[j].token_type is BangEqual) && !(toks[j].token_type is EqualEqual));
                assert(old(self)@.errs + Seq::<LanguageErrorSpec>::empty() =~= old(self)@.errs);
            }
            return e;
        }
        proof {
            assert(toks[j].token_type is BangEqual || toks[j].token_type is EqualEqual);
            assert(j < toks.len() - 1);
            assert(self@.current == j + 1);
            lemma_comparison_pos(toks, j + 1);
        }
        let op = self.prev();
        let rhs = self.comparison();
        let ghost r = spec_comparison(toks, j + 1);
        let newe = Expr::Binary(Box::new(e), Box::new(op), Box::new(rhs));
        let res = self.equality_rest(newe);
        proof {
            assert(bounded_pos(toks, j + 1, r.next) == r.next);
            lemma_equality_rest_shift(toks, newe@, r.next, Seq::<LanguageErrorSpec>::empty() + r.errs);
            let q = spec_equality_rest(toks, newe@, r.next, Seq::empty());
            assert((old(self)@.errs + r.errs) + q.errs =~= old(self)@.errs + ((Seq::<
                LanguageErrorSpec,
            >::empty() + r.errs) + q.errs));
        }
        res
    }

    /// A whole expression; see [`spec_expr`].
    fn expr(&mut self) -> (e: Expr)
        requires
            parser_wf(old(self)@),
        ensures
            parser_wf(final(self)@),
            final(self)@.tokens == old(self)@.tokens,
            ({
                let p = spec_expr(old(self)@.tokens, old(self)@.current);
                &&& e@ == p.expr
                &&& final(self)@.current == p.next
                &&& final(self)@.errs == old(self)@.errs + p.errs
            }),
        decreases old(self)@.tokens.len() - old(self)@.current, 11int,
    {
        self.equality()
    }

    /// A variable declaration after its `var` keyword; see
    /// [`spec_var_decl`].
    #[verifier::rlimit(60)]
    fn var_decl(&mut self) -> (s: Stmt)
        requires
            parser_wf(old(self)@),
        ensures
            parser_wf(final(self)@),
            final(self)@.tokens == old(self)@.tokens,
            ({
                let p = spec_var_decl(old(self)@.tokens, old(self)@.current);
                &&& s@ == p.stmt
                &&& final(self)@.current == p.next
                &&& final(self)@.errs == old(self)@.errs + p.errs
            }),
    {
        let ghost toks = self@.tokens;
        let ghost i0 = self@.current;
        let ghost p = spec_var_decl(toks, i0);
        let lval: String;
        if self.check(&TokenType::IDENTIFIER(String::new())) {
            let t = self.peek();
            self.advance();
            lval = match t.token_type {
                TokenType::IDENTIFIER(n) => n,
                _ => {
                    proof {
                        assert(false);
                    }
                    String::new()
                },
            };
        } else {
            proof {
                assert(!(toks[i0].token_type is Identifier));
            }
            self.errs.push(
                LanguageError::ParserError(String::from_str("Expected identifier")),
            );
            lval = String::new();
        }
        let ghost j1 = self@.current;
        let ghost errs1: Seq<LanguageErrorSpec> = if toks[i0].token_type is Identifier {
            Seq::empty()
        } else {
            seq![LanguageErrorSpec::ParserError("Expected identifier"@)]
        };
        proof {
            assert(self@.errs =~= old(self)@.errs + errs1);
        }
        let mut rval: Expr = Expr::Literal(Atom::Nil);
        if self.tmatch(&vec![TokenType::EQUAL]) {
            proof {
                assert(toks[j1].token_type is Equal);
                assert(j1 < toks.len() - 1);
                assert(self@.current == j1 + 1);
            }
            rval = self.expr();
        } else {
            proof {
                assert(!(toks[j1].token_type is Equal));
            }
        }
        let ghost j2 = self@.current;
        let ghost errs2: Seq<LanguageErrorSpec> = if 0 <= j1 < toks.len() && toks[j1].token_type
            is Equal && j1 + 1 < toks.len() {
            spec_expr(toks, j1 + 1).errs
        } else {
            Seq::empty()
        };
        proof {
            assert(self@.errs =~= old(self)@.errs + (errs1 + errs2));
        }
        if self.check(&TokenType::SEMICOLON) {
            self.advance();
            proof {
                assert(self@.errs =~= old(self)@.errs + ((errs1 + errs2) + Seq::<
                    LanguageErrorSpec,
                >::empty()));
                assert(p.errs =~= (errs1 + errs2) + Seq::<LanguageErrorSpec>::empty());
            }
        } else {
            let missing = LanguageError::ParserError(
                String::from_str("Expected token SEMICOLON"),
            );
            proof {
                assert(missing@ == LanguageErrorSpec::ParserError("Expected token SEMICOLON"@));
            }
            let ghost before = self@.errs;
            self.errs.push(missing);
            proof {
                assert(self@.errs =~= before.push(
                    LanguageErrorSpec::ParserError("Expected token SEMICOLON"@),
                ));
                assert(self@.errs =~= old(self)@.errs + ((errs1 + errs2) + seq![
                    LanguageErrorSpec::ParserError("Expected token SEMICOLON"@),
                ]));
                assert(p.errs =~= (errs1 + errs2) + seq![
                    LanguageErrorSpec::ParserError("Expected token SEMICOLON"@),
                ]);
            }
        }
        Stmt::Var(Box::new(lval), Box::new(rval))
    }

    /// A bare expression statement; see [`spec_expr_stmt`].
    #[verifier::rlimit(60)]
    fn expr_stmt(&mut self) -> (s: Stmt)
        requires
            parser_wf(old(self)@),
        ensures
            parser_wf(final(self)@),
            final(self)@.tokens == old(self)@.tokens,
            ({
                let p = spec_expr_stmt(old(self)@.tokens, old(self)@.current);
                &&& s@ == p.stmt
                &&& final(self)@.current == p.next
                &&& final(self)@.errs == old(self)@.errs + p.errs
            }),
    {
        let ghost toks = self@.tokens;
        let ghost i0 = self@.current;
        let expr: Expr = self.expr();
        let ghost e = spec_expr(toks, i0);
        if self.check(&TokenType::SEMICOLON) {
            self.advance();
            proof {
                assert(self@.errs =~= old(self)@.errs + (e.errs + Seq::<
                    LanguageErrorSpec,
                >::empty()));
            }
        } else {
            let missing = LanguageError::ParserError(
                String::from_str("Expected token SEMICOLON"),
            );
            proof {
                assert(missing@ == LanguageErrorSpec::ParserError("Expected token SEMICOLON"@));
            }
            let ghost before = self@.errs;
            self.errs.push(missing);
            proof {
                assert(self@.errs =~= before.push(
                    LanguageErrorSpec::ParserError("Expected token SEMICOLON"@),
                ));
                assert(self@.errs =~= old(self)@.errs + (e.errs + seq![
                    LanguageErrorSpec::ParserError("Expected token SEMICOLON"@),
                ]));
            }
        }
        Stmt::Expr(Box::new(expr))
    }

    /// A print statement after its `print` keyword; see
    /// [`spec_print_stmt`].
    #[verifier::rlimit(60)]
    fn print_stmt(&mut self) -> (s: Stmt)
        requires
            parser_wf(old(self)@),
        ensures
            parser_wf(final(self)@),
            final(self)@.tokens == old(self)@.tokens,
            ({
                let p = spec_print_stmt(old(self)@.tokens, old(self)@.current);
                &&& s@ == p.stmt
                &&& final(self)@.current == p.next
                &&& final(self)@.errs == old(self)@.errs + p.errs
            }),
    {
        let ghost toks = self@.tokens;
        let ghost i0 = self@.current;
        let val: Expr = self.expr();
        let ghost e = spec_expr(toks, i0);
        if self.check(&TokenType::SEMICOLON) {
            self.advance();
            proof {
                assert(self@.errs =~= old(self)@.errs + (e.errs + Seq::<
                    LanguageErrorSpec,
                >::empty()));
            }
        } else {
            let missing = LanguageError::ParserError(
                String::from_str("Expected token SEMICOLON"),
            );
            proof {
                assert(missing@ == LanguageErrorSpec::ParserError("Expected token SEMICOLON"@));
            }
            let ghost before = self@.errs;
            self.errs.push(missing);
            proof {
                assert(self@.errs =~= before.push(
                    LanguageErrorSpec::ParserError("Expected token SEMICOLON"@),
                ));
                assert(self@.errs =~= old(self)@.errs + (e.errs + seq![
                    LanguageErrorSpec::ParserError("Expected token SEMICOLON"@),
                ]));
            }
        }
        Stmt::Print(Box::new(val))
    }

    /// A statement: a print statement or a bare expression statement; see
    /// [`spec_stmt`].
    fn stmt(&mut self) -> (s: Stmt)
        requires
            parser_wf(old(self)@),
        ensures
            parser_wf(final(self)@),
            final(self)@.tokens == old(self)@.tokens,
            ({
                let p = spec_stmt(old(self)@.tokens, old(self)@.current);
                &&& s@ == p.stmt
                &&& final(self)@.current == p.next
                &&& final(self)@.errs == old(self)@.errs + p.errs
            }),
    {
        let ghost toks = self@.tokens;
        let ghost i0 = self@.current;
        if self.tmatch(&vec![TokenType::PRINT]) {
            proof {
                assert(toks[i0].token_type is Print);
                assert(i0 < toks.len() - 1);
                assert(self@.current == i0 + 1);
            }
            self.print_stmt()
        } else {
            proof {
                assert(!(toks[i0].token_type is Print));
            }
            self.expr_stmt()
        }
    }

    /// A declaration: a variable declaration or a statement; see
    /// [`spec_decl`].
    fn decl(&mut self) -> (s: Stmt)
        requires
            parser_wf(old(self)@),
        ensures
            parser_wf(final(self)@),
            final(self)@.tokens == old(self)@.tokens,
            ({
                let p = spec_decl(old(self)@.tokens, old(self)@.current);
                &&& s@ == p.stmt
                &&& final(self)@.current == p.next
                &&& final(self)@.errs == old(self)@.errs + p.errs
            }),
    {
        proof {
            reveal(spec_decl);
        }
        let ghost toks = self@.tokens;
        let ghost i0 = self@.current;
        if self.tmatch(&vec![TokenType::VAR]) {
            proof {
                assert(toks[i0].token_type is Var);
                assert(i0 < toks.len() - 1);
                assert(self@.current == i0 + 1);
            }
            self.var_decl()
        } else {
            proof {
                assert(!(toks[i0].token_type is Var));
            }
            self.stmt()
        }
    }

    /// Parses a single top-level declaration, as the one-statement-per-call
    /// grammar does, and succeeds only when the error list stayed empty.
    /// [`Parser::parse_program`] is the whole-program alternative.
    pub fn parse(&mut self) -> (r: Result<Vec<Stmt>, String>)
        requires
            parser_wf(old(self)@),
        ensures
            parser_wf(final(self)@),
            final(self)@.tokens == old(self)@.tokens,
            ({
                let d = spec_decl(old(self)@.tokens, old(self)@.current);
                &&& final(self)@.current == d.next
                &&& final(self)@.errs == old(self)@.errs + d.errs
                &&& match r {
                    Ok(v) => final(self)@.errs.len() == 0 && v@.map_values(|st: Stmt| st@)
                        == seq![d.stmt],
                    Err(m) => final(self)@.errs.len() > 0 && m@ == "Error for some reason"@,
                }
            }),
    {
        let ghost toks = self@.tokens;
        let ghost i0 = self@.current;
        let mut statements: Vec<Stmt> = Vec::new();
        if self.current < self.tokens.len() {
            let s = self.decl();
            statements.push(s);
        }
        proof {
            assert(statements@.map_values(|st: Stmt| st@) =~= seq![spec_decl(toks, i0).stmt]);
        }
        if self.errs.len() == 0 {
            Ok(statements)
        } else {
            Err(String::from_str("Error for some reason"))
        }
    }

    /// Whether the cursor rests on the end-of-input token.
    fn at_eof(&self) -> (r: bool)
        requires
            parser_wf(self@),
        ensures
            r == (self@.tokens[self@.current].token_type is Eof),
    {
        matches!(self.tokens[self.current].token_type, TokenType::EOF)
    }

    /// Parses declarations until the end of input, appending them to
    /// `statements`.
    #[verifier::rlimit(100)]
    #[verifier::spinoff_prover]
    fn parse_program_into(&mut self, statements: &mut Vec<Stmt>)
        requires
            parser_wf(old(self)@),
        ensures
            parser_wf(final(self)@),
            final(self)@.tokens == old(self)@.tokens,
            ({
                let d = spec_program(old(self)@.tokens, old(self)@.current);
                &&& final(statements)@.map_values(|st: Stmt| st@) == old(statements)@.map_values(
                    |st: Stmt| st@,
                ) + d.stmts
                &&& final(self)@.current == d.next
                &&& final(self)@.errs == old(self)@.errs + d.errs
            }),
        decreases old(self)@.tokens.len() - old(self)@.current,
    {
        let ghost toks = self@.tokens;
        let ghost i0 = self@.current;
        if self.at_eof() {
            proof {
                lemma_program_base(toks, i0);
                assert(old(statements)@.map_values(|st: Stmt| st@) + Seq::<StmtSpec>::empty()
                    =~= old(statements)@.map_values(|st: Stmt| st@));
                assert(old(self)@.errs + Seq::<LanguageErrorSpec>::empty() =~= old(self)@.errs);
            }
            return ;
        }
        proof {
            lemma_program_step(toks, i0);
        }
        let s = self.decl();
        let ghost ms = statements@.map_values(|st: Stmt| st@);
        statements.push(s);
        proof {
            assert(statements@.map_values(|st: Stmt| st@) =~= ms.push(spec_decl(toks, i0).stmt));
        }
        self.parse_program_into(statements);
        proof {
            let d = spec_decl(toks, i0);
            let rest = spec_program(toks, d.next);
            assert(ms.push(d.stmt) + rest.stmts =~= ms + (seq![d.stmt] + rest.stmts));
            assert((old(self)@.errs + d.errs) + rest.errs =~= old(self)@.errs + (d.errs
                + rest.errs));
        }
    }

    /// Parses declarations until the end of input. The released grammar's
    /// `parse` handles one statement per call, a fit for a line-mode
    /// prompt; a whole program needs this loop, so both are offered and
    /// the caller chooses.
    pub fn parse_program(&mut self) -> (r: Result<Vec<Stmt>, String>)
        requires
            parser_wf(old(self)@),
        ensures
            parser_wf(final(self)@),
            final(self)@.tokens == old(self)@.tokens,
            ({
                let d = spec_program(old(self)@.tokens, old(self)@.current);
                &&& final(self)@.current == d.next
                &&& final(self)@.errs == old(self)@.errs + d.errs
                &&& match r {
                    Ok(v) => final(self)@.errs.len() == 0 && v@.map_values(|st: Stmt| st@)
                        == d.stmts,
                    Err(m) => final(self)@.errs.len() > 0 && m@ == "Error for some reason"@,
                }
            }),
    {
        let ghost toks = self@.tokens;
        let ghost i0 = self@.current;
        let mut statements: Vec<Stmt> = Vec::new();
        proof {
            assert(statements@.map_values(|st: Stmt| st@) =~= Seq::<StmtSpec>::empty());
        }
        self.parse_program_into(&mut statements);
        proof {
            assert(Seq::<StmtSpec>::empty() + spec_program(toks, i0).stmts =~= spec_program(
                toks,
                i0,
            ).stmts);
        }
        if self.errs.len() == 0 {
            Ok(statements)
        } else {
            Err(String::from_str("Error for some reason"))
        }
    }
}

} // verus!

