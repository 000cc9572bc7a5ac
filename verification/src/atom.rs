//! The runtime value ("atom"): a closed sum over strings, IEEE-754 double
//! precision numbers (carried as bits), booleans and nil, together with the
//! arithmetic, concatenation and comparison rules of the language.

use crate::errors::{LanguageError, LanguageErrorSpec};
use crate::numeric::{
    bool_bits, dbl_add, dbl_div, dbl_eq, dbl_lt, dbl_mul, dbl_sub, dbl_text, double_add,
    double_div, double_eq, double_le, double_lt, double_mul, double_sub, double_text,
    spec_is_digit,
};
use crate::scanner::{TokenType, TokenTypeSpec};
use vstd::prelude::*;
use vstd::string::{StrSliceExecFns, StringExecFns};

verus! {

/// A runtime value. `Number` carries the bits of an IEEE-754 binary64
/// value.
#[derive(Debug, Clone)]
pub enum Atom {
    String(String),
    Number(u64),
    Bool(bool),
    Nil,
}

/// Mathematical image of an [`Atom`].
pub enum AtomSpec {
    Str(Seq<char>),
    Num(u64),
    Truth(bool),
    Nil,
}

impl View for Atom {
    type V = AtomSpec;

    open spec fn view(&self) -> AtomSpec {
        match self {
            Atom::String(s) => AtomSpec::Str(s@),
            Atom::Number(n) => AtomSpec::Num(*n),
            Atom::Bool(b) => AtomSpec::Truth(*b),
            Atom::Nil => AtomSpec::Nil,
        }
    }
}

/// Structural equality of atoms: defined within a variant for strings and
/// numbers, true for nil against nil, and false for every other pairing —
/// booleans included, as well as every cross-variant pair. Number equality
/// is IEEE-754 equality on the carried bits.
pub open spec fn spec_atom_eq(l: AtomSpec, r: AtomSpec) -> bool {
    match (l, r) {
        (AtomSpec::Str(a), AtomSpec::Str(b)) => a == b,
        (AtomSpec::Num(a), AtomSpec::Num(b)) => dbl_eq(a, b),
        (AtomSpec::Nil, AtomSpec::Nil) => true,
        _ => false,
    }
}

impl PartialEq for Atom {
    fn eq(&self, rhs: &Atom) -> (r: bool) {
        match (self, rhs) {
            (Atom::String(a), Atom::String(b)) => *a == *b,
            (Atom::Number(a), Atom::Number(b)) => double_eq(*a, *b),
            (Atom::Nil, Atom::Nil) => true,
            _ => false,
        }
    }
}

impl vstd::std_specs::cmp::PartialEqSpecImpl for Atom {
    open spec fn obeys_eq_spec() -> bool {
        true
    }

    open spec fn eq_spec(&self, rhs: &Atom) -> bool {
        spec_atom_eq(self@, rhs@)
    }
}

/// The variant name of an atom, as its error messages spell it.
pub open spec fn spec_kind_name(a: AtomSpec) -> Seq<char> {
    match a {
        AtomSpec::Str(_) => "String"@,
        AtomSpec::Num(_) => "Number"@,
        AtomSpec::Truth(_) => "Bool"@,
        AtomSpec::Nil => "Nil"@,
    }
}

/// The text a boolean renders to.
pub open spec fn spec_bool_text(b: bool) -> Seq<char> {
    if b {
        "true"@
    } else {
        "false"@
    }
}

/// The text an atom renders to when it meets a string in a concatenation:
/// the string itself, the decimal rendering of a number, `true`/`false`,
/// and `nil`.
pub open spec fn spec_atom_text(a: AtomSpec) -> Seq<char> {
    match a {
        AtomSpec::Str(s) => s,
        AtomSpec::Num(b) => dbl_text(b),
        AtomSpec::Truth(b) => spec_bool_text(b),
        AtomSpec::Nil => "nil"@,
    }
}

/// Whether `t` is the decimal text of an integer: an optional leading minus
/// sign followed by digits only.
pub open spec fn spec_plain_integer(t: Seq<char>) -> bool {
    &&& t.len() > 0
    &&& forall|i: int|
        0 <= i < t.len() ==> spec_is_digit(#[trigger] t[i]) || (i == 0 && t[i] == '-')
    &&& spec_is_digit(t[t.len() - 1])
}

/// The debug rendering of a number: its decimal text, with `.0` appended
/// when that text looks like an integer.
pub open spec fn spec_number_debug(b: u64) -> Seq<char> {
    let t = dbl_text(b);
    if spec_plain_integer(t) {
        t + ".0"@
    } else {
        t
    }
}

/// The debug rendering of an atom: the variant name, with the payload in
/// parentheses (string contents quoted, not escaped).
pub open spec fn spec_atom_debug(a: AtomSpec) -> Seq<char> {
    match a {
        AtomSpec::Str(s) => "String(\""@ + s + "\")"@,
        AtomSpec::Num(b) => "Number("@ + spec_number_debug(b) + ")"@,
        AtomSpec::Truth(b) => if b {
            "Bool(true)"@
        } else {
            "Bool(false)"@
        },
        AtomSpec::Nil => "Nil"@,
    }
}

fn plain_integer(t: &str) -> (r: bool)
    ensures
        r == spec_plain_integer(t@),
{
    let n = t.unicode_len();
    if n == 0 {
        return false;
    }
    let last = t.get_char(n - 1);
    if !(last >= '0' && last <= '9') {
        return false;
    }
    let mut i: usize = 0;
    while i < n
        invariant
            0 <= i <= n,
            n == t@.len(),
            forall|k: int|
                0 <= k < i ==> spec_is_digit(#[trigger] t@[k]) || (k == 0 && t@[k] == '-'),
        decreases n - i,
    {
        let c = t.get_char(i);
        if !(c >= '0' && c <= '9') {
            if !(i == 0 && c == '-') {
                return false;
            }
        }
        i = i + 1;
    }
    true
}

/// The outcome of one of the language's binary operations.
pub type AtomResult = Result<Atom, LanguageError>;

/// Mathematical image of an [`AtomResult`].
pub type AtomResultSpec = Result<AtomSpec, LanguageErrorSpec>;

/// The type error a binary operation reports: the operation's name and the
/// two variant names.
pub open spec fn spec_binop_error(op: Seq<char>, l: AtomSpec, r: AtomSpec) -> LanguageErrorSpec {
    LanguageErrorSpec::TypeError(
        op + " not supported for "@ + spec_kind_name(l) + " and "@ + spec_kind_name(r),
    )
}

/// What `+` yields: numeric addition for number/number and number/boolean
/// pairs (`true` coerces to 1, `false` to 0); string concatenation whenever
/// a string meets a string, a number, a boolean, or nil; a type error for
/// every other pairing.
pub open spec fn spec_add(l: AtomSpec, r: AtomSpec) -> AtomResultSpec {
    match (l, r) {
        (AtomSpec::Num(a), AtomSpec::Num(b)) => Ok(AtomSpec::Num(dbl_add(a, b))),
        (AtomSpec::Num(a), AtomSpec::Truth(b)) => Ok(AtomSpec::Num(dbl_add(a, bool_bits(b)))),
        (AtomSpec::Truth(a), AtomSpec::Num(b)) => Ok(AtomSpec::Num(dbl_add(bool_bits(a), b))),
        (AtomSpec::Num(a), AtomSpec::Str(s)) => Ok(AtomSpec::Str(dbl_text(a) + s)),
        (AtomSpec::Str(s), AtomSpec::Num(a)) => Ok(AtomSpec::Str(s + dbl_text(a))),
        (AtomSpec::Str(a), AtomSpec::Str(b)) => Ok(AtomSpec::Str(a + b)),
        (AtomSpec::Truth(a), AtomSpec::Str(s)) => Ok(AtomSpec::Str(spec_bool_text(a) + s)),
        (AtomSpec::Str(s), AtomSpec::Truth(a)) => Ok(AtomSpec::Str(s + spec_bool_text(a))),
        (AtomSpec::Nil, AtomSpec::Str(s)) => Ok(AtomSpec::Str("nil"@ + s)),
        (AtomSpec::Str(s), AtomSpec::Nil) => Ok(AtomSpec::Str(s + "nil"@)),
        (l2, r2) => Err(spec_binop_error("Addition"@, l2, r2)),
    }
}

/// What `-` yields: numeric subtraction for number/number and
/// number/boolean pairs, a type error otherwise.
pub open spec fn spec_sub(l: AtomSpec, r: AtomSpec) -> AtomResultSpec {
    match (l, r) {
        (AtomSpec::Num(a), AtomSpec::Num(b)) => Ok(AtomSpec::Num(dbl_sub(a, b))),
        (AtomSpec::Num(a), AtomSpec::Truth(b)) => Ok(AtomSpec::Num(dbl_sub(a, bool_bits(b)))),
        (AtomSpec::Truth(a), AtomSpec::Num(b)) => Ok(AtomSpec::Num(dbl_sub(bool_bits(a), b))),
        (l2, r2) => Err(spec_binop_error("Subtraction"@, l2, r2)),
    }
}

/// What `*` yields: numeric multiplication for number/number and
/// number/boolean pairs, a type error otherwise.
pub open spec fn spec_mult(l: AtomSpec, r: AtomSpec) -> AtomResultSpec {
    match (l, r) {
        (AtomSpec::Num(a), AtomSpec::Num(b)) => Ok(AtomSpec::Num(dbl_mul(a, b))),
        (AtomSpec::Num(a), AtomSpec::Truth(b)) => Ok(AtomSpec::Num(dbl_mul(a, bool_bits(b)))),
        (AtomSpec::Truth(a), AtomSpec::Num(b)) => Ok(AtomSpec::Num(dbl_mul(bool_bits(a), b))),
        (l2, r2) => Err(spec_binop_error("Multiplication"@, l2, r2)),
    }
}

/// What `/` yields: numeric division for number/number and number/boolean
/// pairs — division by zero follows IEEE-754 and is not special-cased — and
/// a type error otherwise.
pub open spec fn spec_divide(l: AtomSpec, r: AtomSpec) -> AtomResultSpec {
    match (l, r) {
        (AtomSpec::Num(a), AtomSpec::Num(b)) => Ok(AtomSpec::Num(dbl_div(a, b))),
        (AtomSpec::Num(a), AtomSpec::Truth(b)) => Ok(AtomSpec::Num(dbl_div(a, bool_bits(b)))),
        (AtomSpec::Truth(a), AtomSpec::Num(b)) => Ok(AtomSpec::Num(dbl_div(bool_bits(a), b))),
        (l2, r2) => Err(spec_binop_error("Division"@, l2, r2)),
    }
}

/// Whether a token kind is one of the four relational operators.
pub open spec fn spec_is_comparison(k: TokenTypeSpec) -> bool {
    ||| k is LessEqual
    ||| k is GreaterEqual
    ||| k is Greater
    ||| k is Less
}

/// The debug name of a relational operator's token kind, as its error
/// message spells it.
pub open spec fn spec_comp_name(k: TokenTypeSpec) -> Seq<char> {
    match k {
        TokenTypeSpec::LessEqual => "LESSEQUAL"@,
        TokenTypeSpec::GreaterEqual => "GREATEREQUAL"@,
        TokenTypeSpec::Greater => "GREATER"@,
        TokenTypeSpec::Less => "LESS"@,
        _ => Seq::empty(),
    }
}

/// What a relational operator yields: the IEEE-754 comparison for a
/// number/number pair, and a type error for every other pairing.
pub open spec fn spec_comp(k: TokenTypeSpec, l: AtomSpec, r: AtomSpec) -> AtomResultSpec {
    match (l, r) {
        (AtomSpec::Num(a), AtomSpec::Num(b)) => match k {
            TokenTypeSpec::LessEqual => Ok(AtomSpec::Truth(dbl_lt(a, b) || dbl_eq(a, b))),
            TokenTypeSpec::GreaterEqual => Ok(AtomSpec::Truth(dbl_lt(b, a) || dbl_eq(b, a))),
            TokenTypeSpec::Greater => Ok(AtomSpec::Truth(dbl_lt(b, a))),
            TokenTypeSpec::Less => Ok(AtomSpec::Truth(dbl_lt(a, b))),
            _ => Ok(AtomSpec::Nil),
        },
        (l2, r2) => Err(
            LanguageErrorSpec::TypeError(
                spec_comp_name(k) + " not supported between "@ + spec_kind_name(l2) + " and "@
                    + spec_kind_name(r2),
            ),
        ),
    }
}

impl Atom {
    /// A copy of the value.
    pub fn duplicate(&self) -> (r: Atom)
        ensures
            r@ == self@,
    {
        match self {
            Atom::String(s) => Atom::String(s.clone()),
            Atom::Number(n) => Atom::Number(*n),
            Atom::Bool(b) => Atom::Bool(*b),
            Atom::Nil => Atom::Nil,
        }
    }

    /// The variant name of the value, as error messages render it.
    pub fn kind_name(&self) -> (r: String)
        ensures
            r@ == spec_kind_name(self@),
    {
        match self {
            Atom::String(_) => String::from_str("String"),
            Atom::Number(_) => String::from_str("Number"),
            Atom::Bool(_) => String::from_str("Bool"),
            Atom::Nil => String::from_str("Nil"),
        }
    }

    /// The text the value renders to inside a concatenation.
    pub fn text(&self) -> (r: String)
        ensures
            r@ == spec_atom_text(self@),
    {
        match self {
            Atom::String(s) => s.clone(),
            Atom::Number(b) => double_text(*b),
            Atom::Bool(b) => if *b {
                String::from_str("true")
            } else {
                String::from_str("false")
            },
            Atom::Nil => String::from_str("nil"),
        }
    }

    /// The debug rendering of the value, the form the print statement
    /// shows.
    pub fn debug_text(&self) -> (r: String)
        ensures
            r@ == spec_atom_debug(self@),
    {
        match self {
            Atom::String(s) => String::from_str("String(\"").concat(s.as_str()).concat("\")"),
            Atom::Number(b) => {
                let t = double_text(*b);
                if plain_integer(t.as_str()) {
                    String::from_str("Number(").concat(t.concat(".0").as_str()).concat(")")
                } else {
                    String::from_str("Number(").concat(t.as_str()).concat(")")
                }
            },
            Atom::Bool(b) => if *b {
                String::from_str("Bool(true)")
            } else {
                String::from_str("Bool(false)")
            },
            Atom::Nil => String::from_str("Nil"),
        }
    }

    fn binop_error(op: &str, lhs: &Atom, rhs: &Atom) -> (r: LanguageError)
        ensures
            r@ == spec_binop_error(op@, lhs@, rhs@),
    {
        LanguageError::TypeError(
            op.to_owned().concat(" not supported for ").concat(lhs.kind_name().as_str()).concat(
                " and ",
            ).concat(rhs.kind_name().as_str()),
        )
    }

    /// The `+` operation of the language; see [`spec_add`].
    pub fn add(lhs: Self, rhs: Self) -> (r: AtomResult)
        ensures
            ({
                let s = spec_add(lhs@, rhs@);
                match r {
                    Ok(a) => s == Ok::<AtomSpec, LanguageErrorSpec>(a@),
                    Err(e) => s == Err::<AtomSpec, LanguageErrorSpec>(e@),
                }
            }),
    {
        match (lhs, rhs) {
            (Atom::Number(l), Atom::Number(x)) => Ok(Atom::Number(double_add(l, x))),
            (Atom::Number(l), Atom::Bool(x)) => Ok(
                Atom::Number(double_add(l, crate::numeric::bool_to_bits(x))),
            ),
            (Atom::Bool(l), Atom::Number(x)) => Ok(
                Atom::Number(double_add(crate::numeric::bool_to_bits(l), x)),
            ),
            (Atom::Number(l), Atom::String(x)) => Ok(
                Atom::String(double_text(l).concat(x.as_str())),
            ),
            (Atom::String(l), Atom::Number(x)) => Ok(
                Atom::String(l.concat(double_text(x).as_str())),
            ),
            (Atom::String(l), Atom::String(x)) => Ok(Atom::String(l.concat(x.as_str()))),
            (Atom::Bool(l), Atom::String(x)) => Ok(
                Atom::String(
                    (if l {
                        String::from_str("true")
                    } else {
                        String::from_str("false")
                    }).concat(x.as_str()),
                ),
            ),
            (Atom::String(l), Atom::Bool(x)) => Ok(
                Atom::String(
                    l.concat(
                        if x {
                            "true"
                        } else {
                            "false"
                        },
                    ),
                ),
            ),
            (Atom::Nil, Atom::String(x)) => Ok(Atom::String(String::from_str("nil").concat(x.as_str()))),
            (Atom::String(l), Atom::Nil) => Ok(Atom::String(l.concat("nil"))),
            (l, x) => Err(Self::binop_error("Addition", &l, &x)),
        }
    }

    /// The `-` operation of the language; see [`spec_sub`].
    pub fn sub(lhs: Self, rhs: Self) -> (r: AtomResult)
        ensures
            ({
                let s = spec_sub(lhs@, rhs@);
                match r {
                    Ok(a) => s == Ok::<AtomSpec, LanguageErrorSpec>(a@),
                    Err(e) => s == Err::<AtomSpec, LanguageErrorSpec>(e@),
                }
            }),
    {
        match (lhs, rhs) {
            (Atom::Number(l), Atom::Number(x)) => Ok(Atom::Number(double_sub(l, x))),
            (Atom::Number(l), Atom::Bool(x)) => Ok(
                Atom::Number(double_sub(l, crate::numeric::bool_to_bits(x))),
            ),
            (Atom::Bool(l), Atom::Number(x)) => Ok(
                Atom::Number(double_sub(crate::numeric::bool_to_bits(l), x)),
            ),
            (l, x) => Err(Self::binop_error("Subtraction", &l, &x)),
        }
    }

    /// The `*` operation of the language; see [`spec_mult`].
    pub fn mult(lhs: Self, rhs: Self) -> (r: AtomResult)
        ensures
            ({
                let s = spec_mult(lhs@, rhs@);
                match r {
                    Ok(a) => s == Ok::<AtomSpec, LanguageErrorSpec>(a@),
                    Err(e) => s == Err::<AtomSpec, LanguageErrorSpec>(e@),
                }
            }),
    {
        match (lhs, rhs) {
            (Atom::Number(l), Atom::Number(x)) => Ok(Atom::Number(double_mul(l, x))),
            (Atom::Number(l), Atom::Bool(x)) => Ok(
                Atom::Number(double_mul(l, crate::numeric::bool_to_bits(x))),
            ),
            (Atom::Bool(l), Atom::Number(x)) => Ok(
                Atom::Number(double_mul(crate::numeric::bool_to_bits(l), x)),
            ),
            (l, x) => Err(Self::binop_error("Multiplication", &l, &x)),
        }
    }

    /// The `/` operation of the language; see [`spec_divide`].
    pub fn divide(lhs: Self, rhs: Self) -> (r: AtomResult)
        ensures
            ({
                let s = spec_divide(lhs@, rhs@);
                match r {
                    Ok(a) => s == Ok::<AtomSpec, LanguageErrorSpec>(a@),
                    Err(e) => s == Err::<AtomSpec, LanguageErrorSpec>(e@),
                }
            }),
    {
        match (lhs, rhs) {
            (Atom::Number(l), Atom::Number(x)) => Ok(Atom::Number(double_div(l, x))),
            (Atom::Number(l), Atom::Bool(x)) => Ok(
                Atom::Number(double_div(l, crate::numeric::bool_to_bits(x))),
            ),
            (Atom::Bool(l), Atom::Number(x)) => Ok(
                Atom::Number(double_div(crate::numeric::bool_to_bits(l), x)),
            ),
            (l, x) => Err(Self::binop_error("Division", &l, &x)),
        }
    }

    /// The relational operations of the language; see [`spec_comp`]. The
    /// kind of `t` must be one of the four relational operators.
    pub fn comp(t: &TokenType, lhs: Self, rhs: Self) -> (r: AtomResult)
        requires
            spec_is_comparison(t@),
        ensures
            ({
                let s = spec_comp(t@, lhs@, rhs@);
                match r {
                    Ok(a) => s == Ok::<AtomSpec, LanguageErrorSpec>(a@),
                    Err(e) => s == Err::<AtomSpec, LanguageErrorSpec>(e@),
                }
            }),
    {
        if let (Atom::Number(a), Atom::Number(b)) = (&lhs, &rhs) {
            match t {
                TokenType::LESSEQUAL => Ok(Atom::Bool(double_le(*a, *b))),
                TokenType::GREATEREQUAL => Ok(Atom::Bool(double_le(*b, *a))),
                TokenType::GREATER => Ok(Atom::Bool(double_lt(*b, *a))),
                TokenType::LESS => Ok(Atom::Bool(double_lt(*a, *b))),
                _ => {
                    proof {
                        assert(false);
                    }
                    Ok(Atom::Nil)
                },
            }
        } else {
            let name = match t {
                TokenType::LESSEQUAL => String::from_str("LESSEQUAL"),
                TokenType::GREATEREQUAL => String::from_str("GREATEREQUAL"),
                TokenType::GREATER => String::from_str("GREATER"),
                TokenType::LESS => String::from_str("LESS"),
                _ => {
                    proof {
                        assert(false);
                    }
                    String::new()
                },
            };
            Err(
                LanguageError::TypeError(
                    name.concat(" not supported between ").concat(lhs.kind_name().as_str()).concat(
                        " and ",
                    ).concat(rhs.kind_name().as_str()),
                ),
            )
        }
    }
}

} // verus!
