//! A small dynamically-typed, class-based scripting language.
//!
//! A source text is read as a [`program::Program`] ([`parse`], as
//! [`grammar`] says), its method bodies are resolved from names to indices
//! ([`resolve`]) and registered in an evaluator ([`vm`]), which evaluates
//! expressions with dispatch on the receiver's runtime type, as [`eval`]
//! says. What holds of all this in general is proved in [`laws`].

pub mod error;
pub mod eval;
pub mod expression;
pub mod grammar;
pub mod laws;
pub mod lexical;
pub mod load;
pub mod method;
pub mod object;
pub mod parse;
pub mod program;
pub mod resolve;
mod share;
pub mod text;
pub mod typ;
pub mod value;
pub mod vm;
