//! An interpreter and type inferencer for a small ML-family expression
//! language: integers, booleans, arithmetic and comparison, `if`, `let`,
//! first-class functions, `let rec`, lists, and `match` on lists.
//!
//! The evaluator is a big-step tree-walking interpreter with lexical
//! closures; the type inferencer is a Hindley-Milner style inferencer with
//! constraint collection, first-order unification with an occurs check, and
//! polymorphic generalization at `let` and `let rec`.

pub mod ast;
pub mod environment;
pub mod errors;
pub mod evaluation;
pub mod inference;
pub mod parser;
pub mod symbol;
pub mod text;
pub mod tokenizer;
pub mod type_environment;
pub mod type_scheme;
pub mod types;
pub mod unification;
pub mod value;
