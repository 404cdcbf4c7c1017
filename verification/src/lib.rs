//! A fragment of a compiler for the Tiger language: the type checker for
//! variables, assignments, records and strings, and the translation of
//! `break`, calls, conditionals and string literals into an intermediate tree.
pub mod ast;
pub mod types;
pub mod env;
pub mod seman;
pub mod tree;
pub mod typecheck;
