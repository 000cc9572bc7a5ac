use vstd::prelude::*;

verus! {

/// The error taxonomy of the language: lexical errors found while scanning,
/// parse errors found while building the tree, runtime type errors found
/// while evaluating, and the recoverable form of an unresolved variable
/// lookup, which flows through the same runtime channel as type errors.
#[derive(Debug, Clone)]
pub enum LanguageError {
    SyntaxError(String),
    ParserError(String),
    TypeError(String),
    UndefinedVariable(String),
}

/// Mathematical image of a [`LanguageError`]: the same variants over
/// character sequences.
pub enum LanguageErrorSpec {
    SyntaxError(Seq<char>),
    ParserError(Seq<char>),
    TypeError(Seq<char>),
    UndefinedVariable(Seq<char>),
}

impl View for LanguageError {
    type V = LanguageErrorSpec;

    open spec fn view(&self) -> LanguageErrorSpec {
        match self {
            LanguageError::SyntaxError(m) => LanguageErrorSpec::SyntaxError(m@),
            LanguageError::ParserError(m) => LanguageErrorSpec::ParserError(m@),
            LanguageError::TypeError(m) => LanguageErrorSpec::TypeError(m@),
            LanguageError::UndefinedVariable(m) => LanguageErrorSpec::UndefinedVariable(m@),
        }
    }
}

} // verus!
