//! The type relations of the KCL configuration language, verified with Verus.
//!
//! - `types`, `kinds`, `copy`, `depth`: KCL types, their mathematical values, and
//!   constructors, kind tests, copies and structural equality.
//! - `unify`: assignability between types, and the supremum of a list of types.
//! - `walker`: rewriting a type bottom-up with a function.
//! - `resolver`: type checking with diagnostics, type aliases, and named types in scope.
//! - `lazy`: the setters of a body of statements, for lazy evaluation.
//! - `decorator`: the builtin decorators.
//! - `option`: the value of `option(...)`, converted to its declared type.
//! - `index_map`: the insertion-ordered maps these use.
//! - `laws`: properties that hold across these functions.
//! - `version`: the release.
use vstd::prelude::*;

pub mod types;
pub mod copy;
pub mod kinds;
pub mod depth;
pub mod unify;
pub mod walker;
pub mod version;
pub mod resolver;
pub mod index_map;
pub mod lazy;
pub mod decorator;
pub mod option;
pub mod laws;

verus! {

} // verus!
