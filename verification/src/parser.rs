//! The front end: from source text to the syntax tree that the compiler
//! takes.
//!
//! `lexer` scans the bytes, `parser` builds the tree. `syntax` is the
//! grammar, and `reading` says which tree a form of the grammar is read as:
//! the parser's contracts are stated over these two.

pub mod ast;
pub mod grammar;
pub mod lexer;
pub mod parser;
pub mod reading;
pub mod syntax;
