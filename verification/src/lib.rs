//! A small arithmetic-expression front end — a byte-oriented lexer, a
//! precedence-climbing parser, a span model that tags every token and node
//! with the byte range it came from, and a layered error taxonomy — together
//! with a bitonic sorting network and a growable array.

pub mod annot;
pub mod ast;
pub mod diag;
pub mod error;
pub mod lexer;
pub mod parser;
pub mod sorter;
pub mod token;
pub mod toyvec;
