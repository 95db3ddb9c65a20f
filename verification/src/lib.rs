//! A recursive-descent parser for a small BASIC-like scripting language.
//!
//! The parser reads a token stream (as produced by the language's lexer)
//! and builds the syntax tree of a source file: its imports, its function
//! definitions and the statements of its top-level body.
//!
//! - `token`: tokens, marks and token patterns;
//! - `text`: reserved words and the decimal text of numbers;
//! - `ast`: the syntax tree and its mathematical model;
//! - `error`: parse errors;
//! - `grammar`: the grammar, as functions from a token sequence and a
//!   position to a phrase or an error;
//! - `parser`: the executable parser, proved to follow the grammar;
//! - `laws`: properties of every parse.
pub mod ast;
pub mod error;
pub mod grammar;
pub mod laws;
pub mod parser;
pub mod text;
pub mod token;

pub use parser::parse;
