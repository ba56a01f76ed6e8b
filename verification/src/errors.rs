//! Errors raised by the type system: by unification, normalization and
//! inference.

use vstd::prelude::*;

verus! {

/// An error of the type system.
///
/// - `UnificationImpossible`: incompatible types were forced equal.
/// - `CircularReference`: the occurs check rejected an infinite type.
/// - `CyclicTypeReference`: normalization revisited a type variable.
/// - `UnresolvedType`: a name had no binding when one was looked up.
/// - `InvalidType`: a shape mismatch in application or `let rec`.
/// - `UndefinedVariable`: a variable reference had no binding.
#[derive(Debug, Clone, Copy, PartialEq, Eq, Structural)]
pub enum TypeError {
    UnificationImpossible,
    CircularReference,
    CyclicTypeReference,
    UnresolvedType,
    InvalidType,
    UndefinedVariable,
}

} // verus!
