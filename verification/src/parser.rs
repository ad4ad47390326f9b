//! The parser: precedence-climbing recursive descent over the token
//! sequence, with one token of lookahead and no backtracking.
//!
//! The function `spec_parse` is the mathematical model: `parse` returns
//! exactly what `spec_parse` denotes, so parsing is deterministic by
//! contract. Addition/subtraction and multiplication/division share one
//! left-associative binary parser, `parse_left_binop`, parameterized by the
//! precedence level it handles.

use crate::annot::Annot;
use crate::ast::Ast;
use crate::ast::AstKind;
use crate::ast::BinOp;
use crate::ast::BinOpKind;
use crate::ast::UniOp;
use crate::ast::UniOpKind;
use crate::ast::spans_ok;
use crate::token::Token;
use crate::token::TokenKind;
use vstd::prelude::*;

verus! {

/// The ways parsing can fail.
///
/// Two variants are part of the taxonomy but are not produced by the base
/// grammar: `UnexpectedToken` and `UnclosedOpenParen` are reserved for a
/// stricter diagnostic pass, and an unmatched parenthesis surfaces through
/// `NotExpression` or `RedundantExpression` instead. `NotOperator` only ever
/// ends the infix fold and is swallowed there, never returned.
#[derive(Debug, Clone, PartialEq, Eq, Hash)]
pub enum ParseError {
    /// A token that cannot stand where it was found (reserved).
    UnexpectedToken(Token),
    /// A token that cannot start an expression.
    NotExpression(Token),
    /// A token that is not an infix operator where one was expected.
    NotOperator(Token),
    /// An opening parenthesis that was never closed (reserved).
    UnclosedOpenParen(Token),
    /// A trailing token after a complete expression.
    RedundantExpression(Token),
    /// The input ended before a construct was complete.
    Eof,
}

/// The two infix precedence tiers the shared binary parser can handle.
#[derive(Debug, Clone, Copy, PartialEq, Eq, Hash)]
pub enum BinOpLevel {
    /// Addition and subtraction, the loosest-binding tier.
    Additive,
    /// Multiplication and division, binding tighter.
    Multiplicative,
}

/// The infix operator a token denotes at the given tier, if any.
pub open spec fn level_op(level: BinOpLevel, t: Token) -> Option<BinOp> {
    match level {
        BinOpLevel::Additive => match t.value {
            TokenKind::Plus => Some(Annot { value: BinOpKind::Add, loc: t.loc }),
            TokenKind::Minus => Some(Annot { value: BinOpKind::Sub, loc: t.loc }),
            _ => None,
        },
        BinOpLevel::Multiplicative => match t.value {
            TokenKind::Asterisk => Some(Annot { value: BinOpKind::Mult, loc: t.loc }),
            TokenKind::Slash => Some(Annot { value: BinOpKind::Div, loc: t.loc }),
            _ => None,
        },
    }
}

/// A cursor clamped into `[lo, hi]`. The parser always moves forward and
/// never past the end, so the clamp never takes effect on a reachable state;
/// it makes the forward, bounded motion plain to the termination checker.
pub open spec fn forward(lo: int, p: int, hi: int) -> int {
    if p < lo {
        lo
    } else if p > hi {
        hi
    } else {
        p
    }
}

/// The termination rank of the fold loop at each tier.
pub open spec fn loop_rank(level: BinOpLevel) -> int {
    match level {
        BinOpLevel::Multiplicative => 2,
        BinOpLevel::Additive => 5,
    }
}

/// The termination rank of the shared binary parser at each tier.
pub open spec fn binop_rank(level: BinOpLevel) -> int {
    match level {
        BinOpLevel::Multiplicative => 3,
        BinOpLevel::Additive => 6,
    }
}

/// What parsing an atom from `pos` yields: a number token becomes a leaf; an
/// opening parenthesis recurses into a full expression and requires the
/// matching closing parenthesis right after it.
pub open spec fn spec_parse_atom(toks: Seq<Token>, pos: int) -> Result<(Ast, int), ParseError>
    decreases toks.len() - pos, 0int,
{
    if !(0 <= pos < toks.len()) {
        Err(ParseError::Eof)
    } else {
        let tok = toks[pos];
        match tok.value {
            TokenKind::Number(n) => Ok((Annot { value: AstKind::Num(n), loc: tok.loc }, pos + 1)),
            TokenKind::LParen => match spec_parse_expr(toks, pos + 1) {
                Ok((e, p)) => if 0 <= p < toks.len() {
                    if toks[p].value == TokenKind::RParen {
                        Ok((e, p + 1))
                    } else {
                        Err(ParseError::RedundantExpression(toks[p]))
                    }
                } else {
                    Err(ParseError::NotExpression(tok))
                },
                Err(e) => Err(e),
            },
            _ => Err(ParseError::NotExpression(tok)),
        }
    }
}

/// What parsing a unary expression from `pos` yields: at most one sign
/// before an atom; the node's range merges the sign's and the operand's.
pub open spec fn spec_parse_expr1(toks: Seq<Token>, pos: int) -> Result<(Ast, int), ParseError>
    decreases toks.len() - pos, 1int,
{
    if 0 <= pos < toks.len() && (toks[pos].value == TokenKind::Plus || toks[pos].value
        == TokenKind::Minus) {
        let op = if toks[pos].value == TokenKind::Plus {
            Annot { value: UniOpKind::Plus, loc: toks[pos].loc }
        } else {
            Annot { value: UniOpKind::Minus, loc: toks[pos].loc }
        };
        match spec_parse_atom(toks, pos + 1) {
            Ok((e, p)) => Ok(
                (
                    Annot {
                        value: AstKind::UniOp { op, e: Box::new(e) },
                        loc: op.loc.spec_merge(e.loc),
                    },
                    p,
                ),
            ),
            Err(err) => Err(err),
        }
    } else {
        spec_parse_atom(toks, pos)
    }
}

/// The fold loop of the shared binary parser: while the next token is an
/// operator of this tier, consume it, parse the next tighter sub-expression,
/// and fold it onto the accumulated left operand. A node's range merges the
/// operands' ranges; the operator's own range is not part of it.
pub open spec fn spec_left_binop_loop(
    toks: Seq<Token>,
    level: BinOpLevel,
    e: Ast,
    pos: int,
) -> Result<(Ast, int), ParseError>
    decreases toks.len() - pos, loop_rank(level),
{
    if 0 <= pos < toks.len() && level_op(level, toks[pos]) is Some {
        let op = level_op(level, toks[pos])->Some_0;
        let sub = if level is Multiplicative {
            spec_parse_expr1(toks, pos + 1)
        } else {
            spec_parse_expr2(toks, pos + 1)
        };
        match sub {
            Ok((r, p)) => spec_left_binop_loop(
                toks,
                level,
                Annot {
                    value: AstKind::BinOp { op, l: Box::new(e), r: Box::new(r) },
                    loc: e.loc.spec_merge(r.loc),
                },
                forward(pos + 1, p, toks.len() as int),
            ),
            Err(err) => Err(err),
        }
    } else {
        Ok((e, pos))
    }
}

/// What the shared left-associative binary parser yields at a tier: the
/// tighter sub-expression, then the fold loop. A failing operator lookup is
/// no error — it only ends the fold.
pub open spec fn spec_left_binop(toks: Seq<Token>, level: BinOpLevel, pos: int) -> Result<
    (Ast, int),
    ParseError,
>
    decreases toks.len() - pos, binop_rank(level),
{
    if !(0 <= pos <= toks.len()) {
        // Out of range the tighter sub-parser would fail at its atom anyway.
        Err(ParseError::Eof)
    } else {
        let sub = if level is Multiplicative {
            spec_parse_expr1(toks, pos)
        } else {
            spec_parse_expr2(toks, pos)
        };
        match sub {
            Ok((e, p)) => spec_left_binop_loop(toks, level, e, forward(pos, p, toks.len() as int)),
            Err(err) => Err(err),
        }
    }
}

/// What parsing a multiplicative expression from `pos` yields.
pub open spec fn spec_parse_expr2(toks: Seq<Token>, pos: int) -> Result<(Ast, int), ParseError>
    decreases toks.len() - pos, 4int,
{
    spec_left_binop(toks, BinOpLevel::Multiplicative, pos)
}

/// What parsing an additive expression from `pos` yields.
pub open spec fn spec_parse_expr3(toks: Seq<Token>, pos: int) -> Result<(Ast, int), ParseError>
    decreases toks.len() - pos, 7int,
{
    spec_left_binop(toks, BinOpLevel::Additive, pos)
}

/// What parsing a full expression from `pos` yields.
pub open spec fn spec_parse_expr(toks: Seq<Token>, pos: int) -> Result<(Ast, int), ParseError>
    decreases toks.len() - pos, 8int,
{
    spec_parse_expr3(toks, pos)
}

/// What parsing the whole token sequence yields: one complete expression
/// consuming every token; a trailing token is redundant, and an exhausted
/// sequence mid-construct is `Eof`.
pub open spec fn spec_parse(toks: Seq<Token>) -> Result<Ast, ParseError> {
    match spec_parse_expr(toks, 0) {
        Ok((e, p)) => if p < toks.len() {
            Err(ParseError::RedundantExpression(toks[p]))
        } else {
            Ok(e)
        },
        Err(err) => Err(err),
    }
}

proof fn lemma_atom_spans(toks: Seq<Token>, pos: int)
    ensures
        spec_parse_atom(toks, pos) matches Ok(v) ==> spans_ok(v.0),
    decreases toks.len() - pos, 0int,
{
    if 0 <= pos < toks.len() && toks[pos].value is LParen {
        lemma_expr_spans(toks, pos + 1);
    }
}

proof fn lemma_expr1_spans(toks: Seq<Token>, pos: int)
    ensures
        spec_parse_expr1(toks, pos) matches Ok(v) ==> spans_ok(v.0),
    decreases toks.len() - pos, 1int,
{
    if 0 <= pos < toks.len() && (toks[pos].value == TokenKind::Plus || toks[pos].value
        == TokenKind::Minus) {
        lemma_atom_spans(toks, pos + 1);
    } else {
        lemma_atom_spans(toks, pos);
    }
}

proof fn lemma_loop_spans(toks: Seq<Token>, level: BinOpLevel, e: Ast, pos: int)
    requires
        spans_ok(e),
    ensures
        spec_left_binop_loop(toks, level, e, pos) matches Ok(v) ==> spans_ok(v.0),
    decreases toks.len() - pos, loop_rank(level),
{
    if 0 <= pos < toks.len() && level_op(level, toks[pos]) is Some {
        let op = level_op(level, toks[pos])->Some_0;
        if level is Multiplicative {
            lemma_expr1_spans(toks, pos + 1);
        } else {
            lemma_expr2_spans(toks, pos + 1);
        }
        let sub = if level is Multiplicative {
            spec_parse_expr1(toks, pos + 1)
        } else {
            spec_parse_expr2(toks, pos + 1)
        };
        match sub {
            Ok((r, p)) => {
                let folded = Annot {
                    value: AstKind::BinOp { op, l: Box::new(e), r: Box::new(r) },
                    loc: e.loc.spec_merge(r.loc),
                };
                lemma_loop_spans(toks, level, folded, forward(pos + 1, p, toks.len() as int));
            },
            Err(_) => {},
        }
    }
}

proof fn lemma_binop_spans(toks: Seq<Token>, level: BinOpLevel, pos: int)
    ensures
        spec_left_binop(toks, level, pos) matches Ok(v) ==> spans_ok(v.0),
    decreases toks.len() - pos, binop_rank(level),
{
    if 0 <= pos <= toks.len() {
        if level is Multiplicative {
            lemma_expr1_spans(toks, pos);
        } else {
            lemma_expr2_spans(toks, pos);
        }
        let sub = if level is Multiplicative {
            spec_parse_expr1(toks, pos)
        } else {
            spec_parse_expr2(toks, pos)
        };
        match sub {
            Ok((e, p)) => {
                lemma_loop_spans(toks, level, e, forward(pos, p, toks.len() as int));
            },
            Err(_) => {},
        }
    }
}

proof fn lemma_expr2_spans(toks: Seq<Token>, pos: int)
    ensures
        spec_parse_expr2(toks, pos) matches Ok(v) ==> spans_ok(v.0),
    decreases toks.len() - pos, 4int,
{
    lemma_binop_spans(toks, BinOpLevel::Multiplicative, pos);
}

proof fn lemma_expr3_spans(toks: Seq<Token>, pos: int)
    ensures
        spec_parse_expr3(toks, pos) matches Ok(v) ==> spans_ok(v.0),
    decreases toks.len() - pos, 7int,
{
    lemma_binop_spans(toks, BinOpLevel::Additive, pos);
}

proof fn lemma_expr_spans(toks: Seq<Token>, pos: int)
    ensures
        spec_parse_expr(toks, pos) matches Ok(v) ==> spans_ok(v.0),
    decreases toks.len() - pos, 8int,
{
    lemma_expr3_spans(toks, pos);
}

/// On every tree the parser returns, each binary node's range is the merge
/// of its children's ranges, and each unary node's range is the merge of the
/// sign's range and the operand's.
pub proof fn lemma_parse_spans(toks: Seq<Token>)
    ensures
        spec_parse(toks) matches Ok(ast) ==> spans_ok(ast),
{
    lemma_expr_spans(toks, 0);
}

/// Consumes the full token sequence and returns the expression tree it
/// denotes, or the first parse error. The result is pinned to `spec_parse`,
/// so parsing is deterministic: the same tokens give the identical tree.
pub fn parse(tokens: Vec<Token>) -> (r: Result<Ast, ParseError>)
    ensures
        match r {
            Ok(ast) => spec_parse(tokens@) == Ok::<Ast, ParseError>(ast) && spans_ok(ast),
            Err(e) => spec_parse(tokens@) == Err::<Ast, ParseError>(e),
        },
{
    proof {
        lemma_parse_spans(tokens@);
    }
    let ret = match parse_expr(&tokens, 0) {
        Ok(v) => v,
        Err(e) => {
            return Err(e);
        },
    };
    let (ast, pos) = ret;
    if pos < tokens.len() {
        Err(ParseError::RedundantExpression(tokens[pos]))
    } else {
        Ok(ast)
    }
}

/// Parses a full expression starting at `pos`; on success the returned
/// cursor has moved strictly forward.
pub fn parse_expr(tokens: &Vec<Token>, pos: usize) -> (r: Result<(Ast, usize), ParseError>)
    requires
        pos <= tokens@.len(),
    ensures
        match r {
            Ok((ast, p)) => spec_parse_expr(tokens@, pos as int) == Ok::<(Ast, int), ParseError>(
                (ast, p as int),
            ) && pos < p <= tokens@.len(),
            Err(e) => spec_parse_expr(tokens@, pos as int) == Err::<(Ast, int), ParseError>(e),
        },
    decreases tokens@.len() - pos, 8int,
{
    parse_expr3(tokens, pos)
}

/// Parses an additive expression starting at `pos`.
pub fn parse_expr3(tokens: &Vec<Token>, pos: usize) -> (r: Result<(Ast, usize), ParseError>)
    requires
        pos <= tokens@.len(),
    ensures
        match r {
            Ok((ast, p)) => spec_parse_expr3(tokens@, pos as int) == Ok::<(Ast, int), ParseError>(
                (ast, p as int),
            ) && pos < p <= tokens@.len(),
            Err(e) => spec_parse_expr3(tokens@, pos as int) == Err::<(Ast, int), ParseError>(e),
        },
    decreases tokens@.len() - pos, 7int,
{
    parse_left_binop(tokens, pos, BinOpLevel::Additive)
}

/// Parses a multiplicative expression starting at `pos`.
pub fn parse_expr2(tokens: &Vec<Token>, pos: usize) -> (r: Result<(Ast, usize), ParseError>)
    requires
        pos <= tokens@.len(),
    ensures
        match r {
            Ok((ast, p)) => spec_parse_expr2(tokens@, pos as int) == Ok::<(Ast, int), ParseError>(
                (ast, p as int),
            ) && pos < p <= tokens@.len(),
            Err(e) => spec_parse_expr2(tokens@, pos as int) == Err::<(Ast, int), ParseError>(e),
        },
    decreases tokens@.len() - pos, 4int,
{
    parse_left_binop(tokens, pos, BinOpLevel::Multiplicative)
}

/// The infix operator a token denotes at the given tier, if any.
pub fn recognize_binop(level: BinOpLevel, t: &Token) -> (r: Option<BinOp>)
    ensures
        r == level_op(level, *t),
{
    match level {
        BinOpLevel::Additive => match t.value {
            TokenKind::Plus => Some(BinOp::add(t.loc)),
            TokenKind::Minus => Some(BinOp::sub(t.loc)),
            _ => None,
        },
        BinOpLevel::Multiplicative => match t.value {
            TokenKind::Asterisk => Some(BinOp::mult(t.loc)),
            TokenKind::Slash => Some(BinOp::div(t.loc)),
            _ => None,
        },
    }
}

/// The one left-associative binary parser both infix tiers share: it parses
/// the tighter sub-expression, then folds `<op> <sub-expression>` steps onto
/// the left operand for as long as the lookahead token is an operator of
/// this tier.
pub fn parse_left_binop(tokens: &Vec<Token>, pos: usize, level: BinOpLevel) -> (r: Result<
    (Ast, usize),
    ParseError,
>)
    requires
        pos <= tokens@.len(),
    ensures
        match r {
            Ok((ast, p)) => spec_left_binop(tokens@, level, pos as int) == Ok::<
                (Ast, int),
                ParseError,
            >((ast, p as int)) && pos < p <= tokens@.len(),
            Err(e) => spec_left_binop(tokens@, level, pos as int) == Err::<(Ast, int), ParseError>(
                e,
            ),
        },
    decreases tokens@.len() - pos, binop_rank(level),
{
    let sub = match level {
        BinOpLevel::Additive => parse_expr2(tokens, pos),
        BinOpLevel::Multiplicative => parse_expr1(tokens, pos),
    };
    let (mut e, mut cur) = match sub {
        Ok(v) => v,
        Err(err) => {
            return Err(err);
        },
    };
    loop
        invariant
            pos < cur <= tokens@.len(),
            spec_left_binop(tokens@, level, pos as int) == spec_left_binop_loop(
                tokens@,
                level,
                e,
                cur as int,
            ),
        decreases tokens@.len() - cur,
    {
        if cur >= tokens.len() {
            return Ok((e, cur));
        }
        let t = tokens[cur];
        match recognize_binop(level, &t) {
            None => {
                return Ok((e, cur));
            },
            Some(op) => {
                let sub2 = match level {
                    BinOpLevel::Additive => parse_expr2(tokens, cur + 1),
                    BinOpLevel::Multiplicative => parse_expr1(tokens, cur + 1),
                };
                let (rhs, p2) = match sub2 {
                    Ok(v) => v,
                    Err(err) => {
                        return Err(err);
                    },
                };
                let loc = e.loc.merge(&rhs.loc);
                e = Ast::binop(op, e, rhs, loc);
                cur = p2;
            },
        }
    }
}

/// Parses a unary expression starting at `pos`: an optional sign, then an
/// atom. The sign binds tighter than any infix operator.
pub fn parse_expr1(tokens: &Vec<Token>, pos: usize) -> (r: Result<(Ast, usize), ParseError>)
    requires
        pos <= tokens@.len(),
    ensures
        match r {
            Ok((ast, p)) => spec_parse_expr1(tokens@, pos as int) == Ok::<(Ast, int), ParseError>(
                (ast, p as int),
            ) && pos < p <= tokens@.len(),
            Err(e) => spec_parse_expr1(tokens@, pos as int) == Err::<(Ast, int), ParseError>(e),
        },
    decreases tokens@.len() - pos, 1int,
{
    if pos < tokens.len() {
        let t = tokens[pos];
        match t.value {
            TokenKind::Plus => {
                let op = UniOp::plus(t.loc);
                let (e, p) = match parse_atom(tokens, pos + 1) {
                    Ok(v) => v,
                    Err(err) => {
                        return Err(err);
                    },
                };
                let loc = op.loc.merge(&e.loc);
                Ok((Ast::uniop(op, e, loc), p))
            },
            TokenKind::Minus => {
                let op = UniOp::minus(t.loc);
                let (e, p) = match parse_atom(tokens, pos + 1) {
                    Ok(v) => v,
                    Err(err) => {
                        return Err(err);
                    },
                };
                let loc = op.loc.merge(&e.loc);
                Ok((Ast::uniop(op, e, loc), p))
            },
            _ => parse_atom(tokens, pos),
        }
    } else {
        parse_atom(tokens, pos)
    }
}

/// Parses an atom starting at `pos`: a number token, or a parenthesized
/// expression whose closing parenthesis must follow at once.
pub fn parse_atom(tokens: &Vec<Token>, pos: usize) -> (r: Result<(Ast, usize), ParseError>)
    requires
        pos <= tokens@.len(),
    ensures
        match r {
            Ok((ast, p)) => spec_parse_atom(tokens@, pos as int) == Ok::<(Ast, int), ParseError>(
                (ast, p as int),
            ) && pos < p <= tokens@.len(),
            Err(e) => spec_parse_atom(tokens@, pos as int) == Err::<(Ast, int), ParseError>(e),
        },
    decreases tokens@.len() - pos, 0int,
{
    if pos >= tokens.len() {
        return Err(ParseError::Eof);
    }
    let tok = tokens[pos];
    match tok.value {
        TokenKind::Number(n) => Ok((Ast::num(n, tok.loc), pos + 1)),
        TokenKind::LParen => {
            let (e, p) = match parse_expr(tokens, pos + 1) {
                Ok(v) => v,
                Err(err) => {
                    return Err(err);
                },
            };
            if p < tokens.len() {
                let t2 = tokens[p];
                match t2.value {
                    TokenKind::RParen => Ok((e, p + 1)),
                    _ => Err(ParseError::RedundantExpression(t2)),
                }
            } else {
                Err(ParseError::NotExpression(tok))
            }
        },
        _ => Err(ParseError::NotExpression(tok)),
    }
}

} // verus!
