//! The expression and statement trees, the variable environment, the
//! tree-walking evaluator, and a printer that renders an expression tree as
//! text.
//!
//! The evaluator's behaviour is modelled by the recursive spec functions
//! [`spec_evaluate`], [`spec_visit_expr`] and [`spec_visit_stmt`]; the
//! executable methods are proved to do exactly what those say.

use crate::atom::{
    spec_add, spec_atom_debug, spec_atom_eq, spec_comp, spec_divide, spec_is_comparison,
    spec_mult, spec_sub, Atom, AtomSpec,
};
use crate::errors::{LanguageError, LanguageErrorSpec};
use crate::scanner::{Token, TokenSpec, TokenType, TokenTypeSpec};
use vstd::prelude::*;
use vstd::string::StringExecFns;

verus! {

/// An expression node. Each node owns its children exclusively: the tree is
/// a tree, never a graph.
#[derive(Debug)]
pub enum Expr {
    Binary(Box<Expr>, Box<Token>, Box<Expr>),
    Grouping(Box<Expr>),
    Literal(Atom),
    Unary(Box<Token>, Box<Expr>),
    Var(Box<String>),
}

/// Mathematical image of an [`Expr`].
pub enum ExprSpec {
    Binary(Box<ExprSpec>, TokenSpec, Box<ExprSpec>),
    Grouping(Box<ExprSpec>),
    Literal(AtomSpec),
    Unary(TokenSpec, Box<ExprSpec>),
    Var(Seq<char>),
}

impl View for Expr {
    type V = ExprSpec;

    open spec fn view(&self) -> ExprSpec
        decreases self,
    {
        match self {
            Expr::Binary(l, t, r) => ExprSpec::Binary(Box::new((**l)@), (**t)@, Box::new((**r)@)),
            Expr::Grouping(e) => ExprSpec::Grouping(Box::new((**e)@)),
            Expr::Literal(a) => ExprSpec::Literal(a@),
            Expr::Unary(t, e) => ExprSpec::Unary((**t)@, Box::new((**e)@)),
            Expr::Var(name) => ExprSpec::Var((**name)@),
        }
    }
}

/// A statement node. A program is an ordered sequence of these.
#[derive(Debug)]
pub enum Stmt {
    Expr(Box<Expr>),
    Print(Box<Expr>),
    Var(Box<String>, Box<Expr>),
}

/// Mathematical image of a [`Stmt`].
pub enum StmtSpec {
    Expr(Box<ExprSpec>),
    Print(Box<ExprSpec>),
    Var(Seq<char>, Box<ExprSpec>),
}

impl View for Stmt {
    type V = StmtSpec;

    open spec fn view(&self) -> StmtSpec {
        match self {
            Stmt::Expr(e) => StmtSpec::Expr(Box::new((**e)@)),
            Stmt::Print(e) => StmtSpec::Print(Box::new((**e)@)),
            Stmt::Var(name, e) => StmtSpec::Var((**name)@, Box::new((**e)@)),
        }
    }
}

/// A variable declaration's initializer, kept as part of the tree's public
/// shape.
#[derive(Debug)]
pub struct VarDecl(Box<Expr>);

/// A visitor over expression nodes.
pub trait ExprVisitor<T> {
    fn visit_expr(&mut self, exp: &Expr) -> T;
}

/// A visitor over statement nodes.
pub trait StmtVisitor {
    fn visit_stmt(&mut self, stmt: &Stmt);
}

/// Whether a token kind is one of the binary operators the evaluator
/// dispatches on.
pub open spec fn spec_supported_binop(k: TokenTypeSpec) -> bool {
    ||| k is Plus
    ||| k is Minus
    ||| k is Star
    ||| k is Slash
    ||| k is BangEqual
    ||| k is EqualEqual
    ||| spec_is_comparison(k)
}

/// The supported subset of expressions: every binary node carries a
/// supported operator, and no unary node occurs (unary evaluation is not
/// implemented).
pub open spec fn spec_expr_wf(e: ExprSpec) -> bool
    decreases e,
{
    match e {
        ExprSpec::Binary(l, t, r) => spec_supported_binop(t.token_type) && spec_expr_wf(*l)
            && spec_expr_wf(*r),
        ExprSpec::Grouping(inner) => spec_expr_wf(*inner),
        ExprSpec::Literal(_) => true,
        ExprSpec::Unary(_, _) => false,
        ExprSpec::Var(_) => true,
    }
}

/// The supported subset of statements: each one's expression is supported.
pub open spec fn spec_stmt_wf(s: StmtSpec) -> bool {
    match s {
        StmtSpec::Expr(e) => spec_expr_wf(*e),
        StmtSpec::Print(e) => spec_expr_wf(*e),
        StmtSpec::Var(_, e) => spec_expr_wf(*e),
    }
}

/// Decides [`spec_expr_wf`]: whether the evaluator supports every node of
/// this expression.
pub fn expr_supported(e: &Expr) -> (r: bool)
    ensures
        r == spec_expr_wf(e@),
    decreases *e,
{
    match e {
        Expr::Binary(l, t, r2) => {
            let op_ok = match &t.token_type {
                TokenType::PLUS => true,
                TokenType::MINUS => true,
                TokenType::STAR => true,
                TokenType::SLASH => true,
                TokenType::BANGEQUAL => true,
                TokenType::EQUALEQUAL => true,
                TokenType::LESSEQUAL => true,
                TokenType::GREATEREQUAL => true,
                TokenType::GREATER => true,
                TokenType::LESS => true,
                _ => false,
            };
            op_ok && expr_supported(l) && expr_supported(r2)
        },
        Expr::Grouping(inner) => expr_supported(inner),
        Expr::Literal(_) => true,
        Expr::Unary(_, _) => false,
        Expr::Var(_) => true,
    }
}

/// Decides [`spec_stmt_wf`]: whether the evaluator supports this
/// statement.
pub fn stmt_supported(s: &Stmt) -> (r: bool)
    ensures
        r == spec_stmt_wf(s@),
{
    match s {
        Stmt::Expr(e) => expr_supported(e),
        Stmt::Print(e) => expr_supported(e),
        Stmt::Var(_, e) => expr_supported(e),
    }
}

/// The text [`AstPrinter`] renders an expression to: binary nodes as
/// `[(op) left right]`, groupings as `(group inner )`, literals in their
/// debug form, unary nodes as `( op operand )`, and a variable as its name.
pub open spec fn spec_print_expr(e: ExprSpec) -> Seq<char>
    decreases e,
{
    match e {
        ExprSpec::Binary(l, t, r) => "[("@ + t.lexeme + ") "@ + spec_print_expr(*l) + " "@
            + spec_print_expr(*r) + "]"@,
        ExprSpec::Grouping(inner) => "(group "@ + spec_print_expr(*inner) + " )"@,
        ExprSpec::Literal(a) => spec_atom_debug(a),
        ExprSpec::Unary(t, inner) => "( "@ + t.lexeme + " "@ + spec_print_expr(*inner) + " )"@,
        ExprSpec::Var(name) => name,
    }
}

/// Renders an expression tree as text, for inspection.
pub struct AstPrinter;

impl ExprVisitor<String> for AstPrinter {
    fn visit_expr(&mut self, exp: &Expr) -> (r: String)
        ensures
            r@ == spec_print_expr(exp@),
        decreases *exp,
    {
        match exp {
            Expr::Binary(e1, t, e2) => {
                let left = self.visit_expr(e1);
                let right = self.visit_expr(e2);
                String::from_str("[(").concat(t.lexeme.as_str()).concat(") ").concat(
                    left.as_str(),
                ).concat(" ").concat(right.as_str()).concat("]")
            },
            Expr::Grouping(e) => {
                let inner = self.visit_expr(e);
                String::from_str("(group ").concat(inner.as_str()).concat(" )")
            },
            Expr::Literal(n) => n.debug_text(),
            Expr::Unary(t, e) => {
                let inner = self.visit_expr(e);
                String::from_str("( ").concat(t.lexeme.as_str()).concat(" ").concat(
                    inner.as_str(),
                ).concat(" )")
            },
            Expr::Var(val) => (**val).clone(),
        }
    }
}

/// The map an association list denotes: a later entry for a key overrides
/// an earlier one.
pub open spec fn assoc_view(s: Seq<(String, Atom)>) -> Map<Seq<char>, AtomSpec>
    decreases s.len(),
{
    if s.len() == 0 {
        Map::empty()
    } else {
        assoc_view(s.drop_last()).insert(s.last().0@, s.last().1@)
    }
}

/// No two entries of the association list share a key.
pub open spec fn assoc_keys_unique(s: Seq<(String, Atom)>) -> bool {
    forall|i: int, j: int|
        0 <= i < j < s.len() ==> (#[trigger] s[i]).0@ != (#[trigger] s[j]).0@
}

proof fn lemma_assoc_absent(s: Seq<(String, Atom)>, k: Seq<char>)
    requires
        forall|i: int| 0 <= i < s.len() ==> (#[trigger] s[i]).0@ != k,
    ensures
        !assoc_view(s).dom().contains(k),
    decreases s.len(),
{
    if s.len() > 0 {
        assert(forall|i: int|
            0 <= i < s.drop_last().len() ==> (#[trigger] s.drop_last()[i]).0@ != k);
        lemma_assoc_absent(s.drop_last(), k);
        assert(s.last().0@ != k);
    }
}

proof fn lemma_assoc_get(s: Seq<(String, Atom)>, k: Seq<char>, i: int)
    requires
        assoc_keys_unique(s),
        0 <= i < s.len(),
        s[i].0@ == k,
    ensures
        assoc_view(s).dom().contains(k),
        assoc_view(s)[k] == s[i].1@,
    decreases s.len(),
{
    if i == s.len() - 1 {
    } else {
        assert(s.last().0@ != k);
        assert(assoc_keys_unique(s.drop_last()));
        assert(s.drop_last()[i] == s[i]);
        lemma_assoc_get(s.drop_last(), k, i);
    }
}

proof fn lemma_assoc_update(s: Seq<(String, Atom)>, i: int, v: (String, Atom))
    requires
        assoc_keys_unique(s),
        0 <= i < s.len(),
        v.0@ == s[i].0@,
    ensures
        assoc_view(s.update(i, v)) == assoc_view(s).insert(v.0@, v.1@),
        assoc_keys_unique(s.update(i, v)),
    decreases s.len(),
{
    let t = s.update(i, v);
    assert(assoc_keys_unique(t));
    if i == s.len() - 1 {
        assert(t.drop_last() =~= s.drop_last());
        assert(t.last() == v);
        assert(assoc_view(t) =~= assoc_view(s).insert(v.0@, v.1@));
    } else {
        assert(t.drop_last() =~= s.drop_last().update(i, v));
        assert(t.last() == s.last());
        assert(assoc_keys_unique(s.drop_last()));
        assert(s.drop_last()[i] == s[i]);
        lemma_assoc_update(s.drop_last(), i, v);
        assert(s.last().0@ != v.0@);
        assert(assoc_view(t) =~= assoc_view(s).insert(v.0@, v.1@));
    }
}

/// The variable environment: a single flat mapping from name to value.
/// Mutation always overwrites; there is no lexical nesting.
pub struct Environment {
    values: Vec<(String, Atom)>,
}

impl Environment {
    #[verifier::type_invariant]
    spec fn inv(self) -> bool {
        assoc_keys_unique(self.values@)
    }
}

impl View for Environment {
    type V = Map<Seq<char>, AtomSpec>;

    closed spec fn view(&self) -> Map<Seq<char>, AtomSpec> {
        assoc_view(self.values@)
    }
}

impl Environment {
    /// Binds `lval` to `rval`, inserting or overwriting unconditionally.
    pub fn set(&mut self, lval: String, rval: Atom)
        ensures
            final(self)@ == old(self)@.insert(lval@, rval@),
    {
        proof {
            use_type_invariant(&*self);
        }
        let ghost s0 = self.values@;
        let mut vals: Vec<(String, Atom)> = Vec::new();
        core::mem::swap(&mut vals, &mut self.values);
        let n = vals.len();
        let mut idx: Option<usize> = None;
        let mut i: usize = 0;
        while i < n
            invariant
                i <= n,
                n == vals.len(),
                vals@ == s0,
                match idx {
                    Some(j) => j < n && s0[j as int].0@ == lval@,
                    None => forall|k: int| 0 <= k < i ==> (#[trigger] s0[k]).0@ != lval@,
                },
            decreases n - i,
        {
            if idx.is_none() {
                if vals[i].0 == lval {
                    idx = Some(i);
                }
            }
            i = i + 1;
        }
        match idx {
            Some(j) => {
                proof {
                    lemma_assoc_update(s0, j as int, (lval, rval));
                }
                vals.set(j, (lval, rval));
            },
            None => {
                proof {
                    lemma_assoc_absent(s0, lval@);
                    assert(s0.push((lval, rval)).drop_last() =~= s0);
                }
                vals.push((lval, rval));
                proof {
                    assert(assoc_keys_unique(vals@)) by {
                        assert(forall|k: int|
                            0 <= k < s0.len() ==> (#[trigger] vals@[k]) == s0[k]);
                    }
                }
            },
        }
        self.values = vals;
    }

    /// Looks `lval` up: the bound value, or nothing when the name was never
    /// declared.
    pub fn get(&self, lval: String) -> (r: Option<Atom>)
        ensures
            match r {
                Some(a) => self@.dom().contains(lval@) && a@ == self@[lval@],
                None => !self@.dom().contains(lval@),
            },
    {
        proof {
            use_type_invariant(&*self);
        }
        let n = self.values.len();
        let mut i: usize = 0;
        while i < n
            invariant
                i <= n,
                n == self.values@.len(),
                assoc_keys_unique(self.values@),
                forall|k: int| 0 <= k < i ==> (#[trigger] self.values@[k]).0@ != lval@,
            decreases n - i,
        {
            if self.values[i].0 == lval {
                proof {
                    lemma_assoc_get(self.values@, lval@, i as int);
                }
                return Some(self.values[i].1.duplicate());
            }
            i = i + 1;
        }
        proof {
            lemma_assoc_absent(self.values@, lval@);
        }
        None
    }
}

/// Mathematical image of an [`Interpreter`]: the sticky error slot, the
/// environment's mapping, and the lines printed so far.
pub struct InterpSpec {
    pub error: Option<LanguageErrorSpec>,
    pub env: Map<Seq<char>, AtomSpec>,
    pub output: Seq<Seq<char>>,
}

/// The tree-walking interpreter: one environment, one sticky error slot,
/// and the lines its print statements have produced.
pub struct Interpreter {
    pub error: Option<LanguageError>,
    pub env: Environment,
    pub output: Vec<String>,
}

impl View for Interpreter {
    type V = InterpSpec;

    open spec fn view(&self) -> InterpSpec {
        InterpSpec {
            error: match self.error {
                Some(ref e) => Some(e@),
                None => None,
            },
            env: self.env@,
            output: self.output@.map_values(|s: String| s@),
        }
    }
}

impl Default for Interpreter {
    /// A fresh interpreter: no error, an empty environment, no output.
    fn default() -> (r: Self)
        ensures
            r@.error is None,
            r@.env == Map::<Seq<char>, AtomSpec>::empty(),
            r@.output == Seq::<Seq<char>>::empty(),
    {
        let r = Interpreter {
            error: None,
            env: Environment { values: Vec::new() },
            output: Vec::new(),
        };
        proof {
            assert(r@.env =~= Map::<Seq<char>, AtomSpec>::empty());
            assert(r@.output =~= Seq::<Seq<char>>::empty());
        }
        r
    }
}

/// What one of the supported binary operators yields on two evaluated
/// operands.
pub open spec fn spec_binary_op(k: TokenTypeSpec, l: AtomSpec, r: AtomSpec) -> Result<
    AtomSpec,
    LanguageErrorSpec,
> {
    match k {
        TokenTypeSpec::Plus => spec_add(l, r),
        TokenTypeSpec::Minus => spec_sub(l, r),
        TokenTypeSpec::Star => spec_mult(l, r),
        TokenTypeSpec::Slash => spec_divide(l, r),
        TokenTypeSpec::BangEqual => Ok(AtomSpec::Truth(!spec_atom_eq(l, r))),
        TokenTypeSpec::EqualEqual => Ok(AtomSpec::Truth(spec_atom_eq(l, r))),
        _ => spec_comp(k, l, r),
    }
}

/// What `evaluate` does: while the sticky error slot is occupied every call
/// yields nil and changes nothing; otherwise the expression is walked.
pub open spec fn spec_evaluate(e: ExprSpec, st: InterpSpec) -> (AtomSpec, InterpSpec)
    decreases e, 1int,
{
    if st.error is Some {
        (AtomSpec::Nil, st)
    } else {
        spec_visit_expr(e, st)
    }
}

/// One dispatch of the evaluator over an expression node: literals yield
/// their atom; groupings evaluate their inner expression; variables resolve
/// in the environment, an unresolved name becoming a runtime error; binary
/// nodes evaluate left then right through `spec_evaluate` (each re-checks
/// the error slot), then apply the operator, a type error landing in the
/// sticky slot with nil as the value.
pub open spec fn spec_visit_expr(e: ExprSpec, st: InterpSpec) -> (AtomSpec, InterpSpec)
    decreases e, 0int,
{
    match e {
        ExprSpec::Literal(a) => (a, st),
        ExprSpec::Grouping(inner) => spec_evaluate(*inner, st),
        ExprSpec::Binary(l, op, r) => {
            let (lv, st1) = spec_evaluate(*l, st);
            let (rv, st2) = spec_evaluate(*r, st1);
            match spec_binary_op(op.token_type, lv, rv) {
                Ok(a) => (a, st2),
                Err(er) => (AtomSpec::Nil, InterpSpec { error: Some(er), ..st2 }),
            }
        },
        ExprSpec::Var(name) => {
            if st.env.dom().contains(name) {
                (st.env[name], st)
            } else {
                (
                    AtomSpec::Nil,
                    InterpSpec {
                        error: Some(LanguageErrorSpec::UndefinedVariable(name)),
                        ..st
                    },
                )
            }
        },
        ExprSpec::Unary(_, _) => (AtomSpec::Nil, st),
    }
}

/// What executing one statement does: a print statement evaluates its
/// expression and appends the debug form of the value to the output; an
/// expression statement evaluates for its effect alone; a declaration
/// evaluates its initializer and binds the name — eagerly, even when the
/// interpreter is already halted (the value is then nil).
pub open spec fn spec_visit_stmt(s: StmtSpec, st: InterpSpec) -> InterpSpec {
    match s {
        StmtSpec::Print(e) => {
            let (v, st1) = spec_evaluate(*e, st);
            InterpSpec { output: st1.output.push(spec_atom_debug(v)), ..st1 }
        },
        StmtSpec::Expr(e) => spec_evaluate(*e, st).1,
        StmtSpec::Var(name, e) => {
            let (v, st1) = spec_evaluate(*e, st);
            InterpSpec { env: st1.env.insert(name, v), ..st1 }
        },
    }
}

impl Interpreter {
    /// Evaluates a supported expression: nil at once when the interpreter
    /// is halted, the walk of [`spec_visit_expr`] otherwise.
    pub fn evaluate(&mut self, expr: Expr) -> (r: Atom)
        requires
            spec_expr_wf(expr@),
        ensures
            r@ == spec_evaluate(expr@, old(self)@).0,
            final(self)@ == spec_evaluate(expr@, old(self)@).1,
    {
        if self.error.is_some() {
            return Atom::Nil;
        }
        self.visit_in(&expr)
    }

    /// `evaluate`, by reference: checks the sticky slot, then dispatches.
    fn eval_in(&mut self, expr: &Expr) -> (r: Atom)
        requires
            spec_expr_wf(expr@),
        ensures
            r@ == spec_evaluate(expr@, old(self)@).0,
            final(self)@ == spec_evaluate(expr@, old(self)@).1,
        decreases *expr, 1int,
    {
        if self.error.is_some() {
            return Atom::Nil;
        }
        self.visit_in(expr)
    }

    /// One dispatch over the expression's variant; see [`spec_visit_expr`].
    fn visit_in(&mut self, exp: &Expr) -> (r: Atom)
        requires
            spec_expr_wf(exp@),
        ensures
            r@ == spec_visit_expr(exp@, old(self)@).0,
            final(self)@ == spec_visit_expr(exp@, old(self)@).1,
        decreases *exp, 0int,
    {
        match exp {
            Expr::Literal(atom) => atom.duplicate(),
            Expr::Grouping(expr) => self.eval_in(expr),
            Expr::Binary(lhs, op, rhs) => {
                let lv = self.eval_in(lhs);
                let rv = self.eval_in(rhs);
                let res = match &op.token_type {
                    TokenType::PLUS => Atom::add(lv, rv),
                    TokenType::MINUS => Atom::sub(lv, rv),
                    TokenType::STAR => Atom::mult(lv, rv),
                    TokenType::SLASH => Atom::divide(lv, rv),
                    TokenType::BANGEQUAL => Ok(Atom::Bool(lv != rv)),
                    TokenType::EQUALEQUAL => Ok(Atom::Bool(lv == rv)),
                    TokenType::LESSEQUAL => Atom::comp(&op.token_type, lv, rv),
                    TokenType::GREATEREQUAL => Atom::comp(&op.token_type, lv, rv),
                    TokenType::GREATER => Atom::comp(&op.token_type, lv, rv),
                    TokenType::LESS => Atom::comp(&op.token_type, lv, rv),
                    _ => {
                        proof {
                            assert(false);
                        }
                        Ok(Atom::Nil)
                    },
                };
                match res {
                    Ok(atom) => atom,
                    Err(err) => {
                        self.error = Some(err);
                        Atom::Nil
                    },
                }
            },
            Expr::Var(var) => {
                match self.env.get((**var).clone()) {
                    Some(rval) => rval,
                    None => {
                        self.error = Some(LanguageError::UndefinedVariable((**var).clone()));
                        Atom::Nil
                    },
                }
            },
            Expr::Unary(_, _) => {
                proof {
                    assert(false);
                }
                Atom::Nil
            },
        }
    }

    /// Executes one supported statement; see [`spec_visit_stmt`].
    pub fn execute(&mut self, stmt: &Stmt)
        requires
            spec_stmt_wf(stmt@),
        ensures
            final(self)@ == spec_visit_stmt(stmt@, old(self)@),
    {
        match stmt {
            Stmt::Print(expr) => {
                let v = self.eval_in(expr);
                let line = v.debug_text();
                self.output.push(line);
                proof {
                    assert(self@.output =~= spec_visit_stmt(stmt@, old(self)@).output);
                }
            },
            Stmt::Expr(expr) => {
                let _ = self.eval_in(expr);
            },
            Stmt::Var(name, expr) => {
                let rval = self.eval_in(expr);
                self.env.set((**name).clone(), rval);
            },
        }
    }
}

impl ExprVisitor<Atom> for Interpreter {
    /// Dispatches over a supported expression as [`spec_visit_expr`] says;
    /// an expression with an unsupported (unary) node yields nil and leaves
    /// the interpreter unchanged.
    fn visit_expr(&mut self, exp: &Expr) -> (r: Atom)
        ensures
            spec_expr_wf(exp@) ==> r@ == spec_visit_expr(exp@, old(self)@).0 && final(self)@
                == spec_visit_expr(exp@, old(self)@).1,
            !spec_expr_wf(exp@) ==> r@ == AtomSpec::Nil && final(self)@ == old(self)@,
    {
        if expr_supported(exp) {
            self.visit_in(exp)
        } else {
            Atom::Nil
        }
    }
}

impl StmtVisitor for Interpreter {
    /// Executes a supported statement as [`spec_visit_stmt`] says; a
    /// statement with an unsupported (unary) node leaves the interpreter
    /// unchanged.
    fn visit_stmt(&mut self, stmt: &Stmt)
        ensures
            spec_stmt_wf(stmt@) ==> final(self)@ == spec_visit_stmt(stmt@, old(self)@),
            !spec_stmt_wf(stmt@) ==> final(self)@ == old(self)@,
    {
        if stmt_supported(stmt) {
            self.execute(stmt)
        }
    }
}

/// Constructing a literal expression node around any atom and evaluating
/// it yields that atom back unchanged, and leaves the interpreter's state
/// exactly as it was: literal evaluation is a round trip.
pub proof fn lemma_literal_round_trip(a: AtomSpec, st: InterpSpec)
    requires
        st.error is None,
    ensures
        spec_evaluate(ExprSpec::Literal(a), st) == (a, st),
{
}

/// Monotonic halting: once the sticky error slot is occupied, every
/// further evaluation — of any expression whatever — yields nil without
/// touching the state, the recorded error included.
pub proof fn lemma_halted_evaluation(e: ExprSpec, st: InterpSpec)
    requires
        st.error is Some,
    ensures
        spec_evaluate(e, st) == (AtomSpec::Nil, st),
        spec_evaluate(e, st).1.error == st.error,
{
}

} // verus!
