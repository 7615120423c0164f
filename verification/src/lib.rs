//! A small language of named blocks of bindings, read into a syntax tree and
//! evaluated by substitution into symbolic expression trees.

pub mod ast;
pub mod decimal;
pub mod eval;
pub mod extension;
pub mod grammar;
pub mod laws;
pub mod lex;
pub mod message;
pub mod parse;
pub mod render;
