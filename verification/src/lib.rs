//! A tree-walking interpreter for a small dynamically typed scripting
//! language: a lexical scanner, a recursive-descent parser producing an
//! expression/statement tree, and an evaluator that walks that tree against
//! a mutable variable environment.
//!
//! Runtime numbers are IEEE-754 double-precision values, carried everywhere
//! as their 64-bit patterns; the arithmetic itself is performed by the
//! `rustc_apfloat` software implementation of IEEE-754 behind the trusted
//! wrappers in [`numeric`].

pub mod ast;
pub mod atom;
pub mod errors;
pub mod scanner;
pub mod numeric;
pub mod parser;
