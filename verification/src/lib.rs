//! An interpreter for a small Lisp: a reader, an object store with scopes,
//! and an evaluator with lambdas, macros and quasiquotation.
pub mod args;
pub mod builtins;
pub mod calls;
pub mod convert;
pub mod error;
pub mod eval;
pub mod float;
pub mod floattexts;
pub mod forms;
pub mod laws;
pub mod object;
pub mod oplaws;
pub mod parse;
pub mod readback;
pub mod render;
pub mod semantics;
pub mod show;
pub mod small;
pub mod text;
pub mod tree;
