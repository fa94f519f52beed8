//! A small ahead-of-time compiler for a function-oriented toy language.
//!
//! Source text is tokenized, parsed into a syntax tree while every function
//! signature is registered in a shared symbol table, and lowered by a
//! two-pass code generator into a backend module.

pub mod compiler;
