//! The combined error type: lexical and syntactic failures behind one
//! variant set, with the wrapped error exposed as the cause, and the
//! convenience entry point that composes lexing and parsing.

use crate::ast::Ast;
use crate::ast::spans_ok;
use crate::lexer::lex;
use crate::lexer::spec_lex;
use crate::parser::ParseError;
use crate::parser::parse;
use crate::parser::spec_parse;
use crate::token::LexError;
use vstd::prelude::*;

verus! {

/// A failure of either layer, tagged with the layer that produced it.
#[derive(Debug, Clone, PartialEq, Eq, Hash)]
pub enum Error {
    /// The lexer rejected the input.
    Lexer(LexError),
    /// The parser rejected the token sequence.
    Parser(ParseError),
}

impl From<LexError> for Error {
    fn from(e: LexError) -> (r: Self) {
        Error::Lexer(e)
    }
}

impl vstd::std_specs::convert::FromSpecImpl<LexError> for Error {
    open spec fn obeys_from_spec() -> bool {
        true
    }

    open spec fn from_spec(e: LexError) -> Self {
        Error::Lexer(e)
    }
}

impl From<ParseError> for Error {
    fn from(e: ParseError) -> (r: Self) {
        Error::Parser(e)
    }
}

impl vstd::std_specs::convert::FromSpecImpl<ParseError> for Error {
    open spec fn obeys_from_spec() -> bool {
        true
    }

    open spec fn from_spec(e: ParseError) -> Self {
        Error::Parser(e)
    }
}

/// A read-only view of the error a combined `Error` wraps.
#[derive(Debug, Clone, Copy)]
pub enum Cause<'a> {
    Lexer(&'a LexError),
    Parser(&'a ParseError),
}

impl Error {
    /// The wrapped error, for chained diagnostics: the outward value points
    /// back at the underlying lexer or parser failure.
    pub fn source(&self) -> (r: Cause<'_>)
        ensures
            match *self {
                Error::Lexer(e) => r matches Cause::Lexer(c) && *c == e,
                Error::Parser(e) => r matches Cause::Parser(c) && *c == e,
            },
    {
        match self {
            Error::Lexer(e) => Cause::Lexer(e),
            Error::Parser(e) => Cause::Parser(e),
        }
    }
}

/// The tree denoted by the raw input: lexing then parsing, with either
/// layer's failure tagged with its layer.
pub open spec fn spec_from_text(input: Seq<u8>) -> Result<Ast, Error> {
    match spec_lex(input) {
        Ok(toks) => match spec_parse(toks) {
            Ok(ast) => Ok(ast),
            Err(e) => Err(Error::Parser(e)),
        },
        Err(e) => Err(Error::Lexer(e)),
    }
}

impl Ast {
    /// Lexes and parses one input line. The result is pinned to
    /// `spec_from_text`, so the whole front end is deterministic.
    pub fn from_text(input: &[u8]) -> (r: Result<Ast, Error>)
        ensures
            match r {
                Ok(ast) => spec_from_text(input@) == Ok::<Ast, Error>(ast) && spans_ok(ast),
                Err(e) => spec_from_text(input@) == Err::<Ast, Error>(e),
            },
    {
        let tokens = match lex(input) {
            Ok(t) => t,
            Err(e) => {
                return Err(Error::Lexer(e));
            },
        };
        match parse(tokens) {
            Ok(ast) => Ok(ast),
            Err(e) => Err(Error::Parser(e)),
        }
    }
}

} // verus!
