//! Front end of a compiler for a small expression language with `let`
//! bindings and function declarations: a span-carrying, error-aggregating
//! parser and a single-pass code generator that lowers the syntax tree to a
//! small SSA-style intermediate representation.

pub mod ast;
pub mod options;
pub mod codegen;
pub mod ir;
pub mod parse;
