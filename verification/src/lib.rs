//! A small embeddable expression language whose programs are JSON-like data
//! trees: objects, arrays, text, numbers, booleans and null, extended with
//! special-form objects (marker-prefixed keys) for binding, conditionals,
//! function definition and module import.
//!
//! The crate is organised around a ghost model: every runtime type has a
//! mathematical mirror (`SpecValue`, spec environments as sequences of
//! frames), the evaluator is specified once as a spec-level interpreter, and
//! the executable evaluator and builtins are proved to agree with it.

pub mod builtins;
pub mod codec;
pub mod env;
pub mod eval;
pub mod keys;
pub mod laws;
pub mod value;
