//! Front end of a small expression language: a lexer, a symbol table and a
//! recursive-descent parser that turn source bytes into a syntax tree.
//!
//! Every executable function is verified against a mathematical model.
//! [`scan`] defines the token that stands at a place of a byte sequence,
//! [`symbols::Symbols`] the offsets of the variables, and [`grammar`] the
//! tree that each rule of the grammar yields. The contracts of
//! [`lexer::Lexer`], [`symbols::SymbolTable`] and [`parser::Parser`] state
//! that the code computes exactly those, and [`laws`] proves what holds of
//! every parse.

pub mod error;
pub mod token;
pub mod node;
pub mod scan;
pub mod lexer;
pub mod symbols;
pub mod grammar;
pub mod parser;
pub mod laws;
