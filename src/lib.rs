//! Front end of a small imperative language: a lexer that turns source text into tokens,
//! a recursive-descent parser that builds a syntax tree, and a semantic analyzer that
//! resolves every name against a stack of lexical scopes.
pub mod token;
pub mod chars;
pub mod lexer;
pub mod lexer_model;
pub mod ast;
pub mod parser;
pub mod semantics;
pub mod timer;
pub mod lithium;
pub mod grammar;
pub mod transparency;
