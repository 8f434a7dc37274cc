//! A tree-walking interpreter for a small Scheme/Racket-like language.
//!
//! Source text is split into tokens, read into expression trees, and
//! evaluated against a two-tier variable environment with native and
//! user-declared functions.
pub mod data_types;
pub mod expr;
pub mod value;
pub mod convert;
pub mod error;
pub mod vars;
pub mod ops;
pub mod lists;
pub mod body;
pub mod function;
pub mod context;
pub mod native;
pub mod strings;
pub mod lexer;
pub mod ast;
pub mod interpreter;
pub mod laws;
pub mod display;
pub mod semantics;
