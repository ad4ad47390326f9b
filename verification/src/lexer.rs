//! The lexer: one left-to-right pass over the input bytes, producing the
//! token sequence or failing on the first byte outside the alphabet.
//!
//! The function `spec_lex` is the mathematical model: `lex` returns exactly
//! what `spec_lex` denotes, so lexing is deterministic by contract.

use crate::annot::Annot;
use crate::annot::Loc;
use crate::token::LexError;
use crate::token::LexErrorKind;
use crate::token::Token;
use crate::token::TokenKind;
use vstd::prelude::*;

verus! {

/// The bytes of the accepted alphabet, by their ASCII codes.
pub const B_ZERO: u8 = 48;

pub const B_NINE: u8 = 57;

pub const B_PLUS: u8 = 43;

pub const B_MINUS: u8 = 45;

pub const B_ASTERISK: u8 = 42;

pub const B_SLASH: u8 = 47;

pub const B_LPAREN: u8 = 40;

pub const B_RPAREN: u8 = 41;

pub const B_SPACE: u8 = 32;

pub const B_NEWLINE: u8 = 10;

pub const B_TAB: u8 = 9;

/// A decimal digit byte.
pub open spec fn is_digit(b: u8) -> bool {
    B_ZERO <= b && b <= B_NINE
}

/// A whitespace byte the lexer skips.
pub open spec fn is_space(b: u8) -> bool {
    b == B_SPACE || b == B_NEWLINE || b == B_TAB
}

/// The end of the maximal run of digit bytes starting at `pos`.
pub open spec fn digit_run_end(input: Seq<u8>, pos: int) -> int
    decreases input.len() - pos,
{
    if 0 <= pos < input.len() && is_digit(input[pos]) {
        digit_run_end(input, pos + 1)
    } else {
        pos
    }
}

/// The end of the maximal run of whitespace bytes starting at `pos`.
pub open spec fn space_run_end(input: Seq<u8>, pos: int) -> int
    decreases input.len() - pos,
{
    if 0 <= pos < input.len() && is_space(input[pos]) {
        space_run_end(input, pos + 1)
    } else {
        pos
    }
}

pub proof fn lemma_digit_run_end_bounds(input: Seq<u8>, pos: int)
    requires
        0 <= pos <= input.len(),
    ensures
        pos <= digit_run_end(input, pos) <= input.len(),
        pos < input.len() && is_digit(input[pos]) ==> pos < digit_run_end(input, pos),
    decreases input.len() - pos,
{
    if pos < input.len() && is_digit(input[pos]) {
        lemma_digit_run_end_bounds(input, pos + 1);
    }
}

pub proof fn lemma_space_run_end_bounds(input: Seq<u8>, pos: int)
    requires
        0 <= pos <= input.len(),
    ensures
        pos <= space_run_end(input, pos) <= input.len(),
        pos < input.len() && is_space(input[pos]) ==> pos < space_run_end(input, pos),
    decreases input.len() - pos,
{
    if pos < input.len() && is_space(input[pos]) {
        lemma_space_run_end_bounds(input, pos + 1);
    }
}

/// A run is exactly the maximal one: all digits up to `end`, none at `end`.
pub proof fn lemma_digit_run_end_is(input: Seq<u8>, pos: int, end: int)
    requires
        0 <= pos <= end <= input.len(),
        forall|i: int| pos <= i < end ==> is_digit(input[i]),
        end < input.len() ==> !is_digit(input[end]),
    ensures
        digit_run_end(input, pos) == end,
    decreases end - pos,
{
    if pos < end {
        lemma_digit_run_end_is(input, pos + 1, end);
    }
}

pub proof fn lemma_space_run_end_is(input: Seq<u8>, pos: int, end: int)
    requires
        0 <= pos <= end <= input.len(),
        forall|i: int| pos <= i < end ==> is_space(input[i]),
        end < input.len() ==> !is_space(input[end]),
    ensures
        space_run_end(input, pos) == end,
    decreases end - pos,
{
    if pos < end {
        lemma_space_run_end_is(input, pos + 1, end);
    }
}

/// One step of reading a decimal literal into a 64-bit value: the
/// accumulator is multiplied by ten and the digit added, truncated to the
/// native range.
pub open spec fn wrap_digit(acc: u64, b: u8) -> u64 {
    ((acc * 10 + (b - B_ZERO)) % 0x1_0000_0000_0000_0000) as u64
}

/// The value of the digit bytes in `[pos, end)` folded onto `acc`.
pub open spec fn num_value_from(input: Seq<u8>, pos: int, end: int, acc: u64) -> u64
    decreases end - pos,
{
    if pos < end {
        num_value_from(input, pos + 1, end, wrap_digit(acc, input[pos]))
    } else {
        acc
    }
}

/// The unsigned 64-bit value denoted by the digit bytes in `[start, end)`,
/// truncated to the native range on overflow.
pub open spec fn num_value(input: Seq<u8>, start: int, end: int) -> u64 {
    num_value_from(input, start, end, 0)
}

/// What scanning for one expected byte yields: the byte and the position
/// after it, or the error naming what stood there instead.
pub open spec fn spec_consume_byte(input: Seq<u8>, pos: usize, b: u8) -> Result<(u8, usize), LexError> {
    if pos >= input.len() {
        Err(Annot { value: LexErrorKind::Eof, loc: Loc(pos, pos) })
    } else if input[pos as int] != b {
        Err(
            Annot {
                value: LexErrorKind::InvalidChar(input[pos as int] as char),
                loc: Loc(pos, (pos + 1) as usize),
            },
        )
    } else {
        Ok((b, (pos + 1) as usize))
    }
}

/// What a single-byte sub-lexer yields: the token of kind `kind` covering
/// exactly the expected byte, or the error `spec_consume_byte` gives.
pub open spec fn spec_lex_byte(input: Seq<u8>, start: usize, b: u8, kind: TokenKind) -> Result<
    (Token, usize),
    LexError,
> {
    match spec_consume_byte(input, start, b) {
        Ok((_, end)) => Ok((Annot { value: kind, loc: Loc(start, end) }, end)),
        Err(e) => Err(e),
    }
}

/// The token sequence denoted by the bytes of `input` from `pos` on, or the
/// first lexical error.
pub open spec fn spec_lex_from(input: Seq<u8>, pos: int) -> Result<Seq<Token>, LexError>
    decreases input.len() - pos,
    via spec_lex_from_decreases
{
    if !(0 <= pos < input.len()) {
        Ok(Seq::empty())
    } else {
        let b = input[pos];
        if is_digit(b) {
            let end = digit_run_end(input, pos);
            let tok = Annot {
                value: TokenKind::Number(num_value(input, pos, end)),
                loc: Loc(pos as usize, end as usize),
            };
            match spec_lex_from(input, end) {
                Ok(rest) => Ok(seq![tok] + rest),
                Err(e) => Err(e),
            }
        } else if b == B_PLUS || b == B_MINUS || b == B_ASTERISK || b == B_SLASH || b == B_LPAREN || b == B_RPAREN {
            let kind = if b == B_PLUS {
                TokenKind::Plus
            } else if b == B_MINUS {
                TokenKind::Minus
            } else if b == B_ASTERISK {
                TokenKind::Asterisk
            } else if b == B_SLASH {
                TokenKind::Slash
            } else if b == B_LPAREN {
                TokenKind::LParen
            } else {
                TokenKind::RParen
            };
            let tok = Annot { value: kind, loc: Loc(pos as usize, (pos + 1) as usize) };
            match spec_lex_from(input, pos + 1) {
                Ok(rest) => Ok(seq![tok] + rest),
                Err(e) => Err(e),
            }
        } else if is_space(b) {
            spec_lex_from(input, space_run_end(input, pos))
        } else {
            Err(
                Annot {
                    value: LexErrorKind::InvalidChar(b as char),
                    loc: Loc(pos as usize, (pos + 1) as usize),
                },
            )
        }
    }
}

#[via_fn]
proof fn spec_lex_from_decreases(input: Seq<u8>, pos: int) {
    if 0 <= pos < input.len() {
        lemma_digit_run_end_bounds(input, pos);
        lemma_space_run_end_bounds(input, pos);
    }
}

/// The token sequence denoted by `input`, or the first lexical error.
pub open spec fn spec_lex(input: Seq<u8>) -> Result<Seq<Token>, LexError> {
    spec_lex_from(input, 0)
}

/// All bytes of the maximal digit run are digits.
pub proof fn lemma_digit_run_end_digits(input: Seq<u8>, pos: int)
    requires
        0 <= pos,
    ensures
        forall|j: int| pos <= j < digit_run_end(input, pos) ==> is_digit(input[j]),
    decreases input.len() - pos,
{
    if pos < input.len() && is_digit(input[pos]) {
        lemma_digit_run_end_digits(input, pos + 1);
        lemma_digit_run_end_bounds(input, pos + 1);
    }
}

/// What ties a token to the input it was read from: its range is non-empty
/// and in bounds, and the bytes under it spell the token out — the digits of
/// its value for a number, the operator's own byte for the rest.
pub open spec fn token_grounded(input: Seq<u8>, t: Token) -> bool {
    &&& t.loc.0 < t.loc.1 <= input.len()
    &&& match t.value {
        TokenKind::Number(n) => {
            &&& forall|j: int| t.loc.0 <= j < t.loc.1 ==> is_digit(input[j])
            &&& n == num_value(input, t.loc.0 as int, t.loc.1 as int)
        },
        TokenKind::Plus => input[t.loc.0 as int] == B_PLUS && t.loc.1 == t.loc.0 + 1,
        TokenKind::Minus => input[t.loc.0 as int] == B_MINUS && t.loc.1 == t.loc.0 + 1,
        TokenKind::Asterisk => input[t.loc.0 as int] == B_ASTERISK && t.loc.1 == t.loc.0 + 1,
        TokenKind::Slash => input[t.loc.0 as int] == B_SLASH && t.loc.1 == t.loc.0 + 1,
        TokenKind::LParen => input[t.loc.0 as int] == B_LPAREN && t.loc.1 == t.loc.0 + 1,
        TokenKind::RParen => input[t.loc.0 as int] == B_RPAREN && t.loc.1 == t.loc.0 + 1,
    }
}

/// Every token the lexer produces is grounded in the input it came from.
pub proof fn lemma_lex_from_grounded(input: Seq<u8>, pos: int)
    requires
        0 <= pos,
        input.len() <= usize::MAX,
    ensures
        spec_lex_from(input, pos) matches Ok(toks) ==> forall|i: int|
            0 <= i < toks.len() ==> #[trigger] token_grounded(input, toks[i]),
    decreases input.len() - pos,
{
    if pos < input.len() {
        let b = input[pos];
        if is_digit(b) {
            let end = digit_run_end(input, pos);
            lemma_digit_run_end_bounds(input, pos);
            lemma_digit_run_end_digits(input, pos);
            lemma_lex_from_grounded(input, end);
            match spec_lex_from(input, end) {
                Ok(rest) => {
                    let tok = Annot {
                        value: TokenKind::Number(num_value(input, pos, end)),
                        loc: Loc(pos as usize, end as usize),
                    };
                    assert(token_grounded(input, tok));
                    assert forall|i: int| 0 <= i < (seq![tok] + rest).len() implies #[trigger]
                        token_grounded(input, (seq![tok] + rest)[i]) by {
                        if i > 0 {
                            assert(token_grounded(input, rest[i - 1]));
                        }
                    }
                },
                Err(_) => {},
            }
        } else if b == B_PLUS || b == B_MINUS || b == B_ASTERISK || b == B_SLASH || b == B_LPAREN
            || b == B_RPAREN {
            lemma_lex_from_grounded(input, pos + 1);
            match spec_lex_from(input, pos + 1) {
                Ok(rest) => {
                    let tok = spec_lex_from(input, pos)->Ok_0[0];
                    assert(token_grounded(input, tok));
                    let toks = spec_lex_from(input, pos)->Ok_0;
                    assert forall|i: int| 0 <= i < toks.len() implies #[trigger] token_grounded(
                        input,
                        toks[i],
                    ) by {
                        if i > 0 {
                            assert(token_grounded(input, rest[i - 1]));
                        }
                    }
                },
                Err(_) => {},
            }
        } else if is_space(b) {
            lemma_space_run_end_bounds(input, pos);
            lemma_lex_from_grounded(input, space_run_end(input, pos));
        }
    }
}

/// Reading digits lands on the same value wherever the run sits: the fold
/// over an aligned subrange matches the fold over the original bytes.
proof fn lemma_num_value_shift(input: Seq<u8>, start: int, sub: Seq<u8>, k: int, m: int, acc: u64)
    requires
        0 <= start,
        0 <= k <= m <= sub.len(),
        start + sub.len() <= input.len(),
        forall|j: int| 0 <= j < sub.len() ==> sub[j] == input[start + j],
    ensures
        num_value_from(sub, k, m, acc) == num_value_from(input, start + k, start + m, acc),
    decreases m - k,
{
    if k < m {
        lemma_num_value_shift(input, start, sub, k + 1, m, wrap_digit(acc, sub[k]));
    }
}

/// Re-lexing exactly the bytes a grounded token covers reproduces the token,
/// shifted to the start of the smaller input.
pub proof fn lemma_relex_token(input: Seq<u8>, t: Token)
    requires
        token_grounded(input, t),
    ensures
        spec_lex(input.subrange(t.loc.0 as int, t.loc.1 as int)) == Ok::<Seq<Token>, LexError>(
            seq![Annot { value: t.value, loc: Loc(0, (t.loc.1 - t.loc.0) as usize) }],
        ),
{
    let lo = t.loc.0 as int;
    let hi = t.loc.1 as int;
    let sub = input.subrange(lo, hi);
    let n = sub.len() as int;
    match t.value {
        TokenKind::Number(_) => {
            assert(forall|j: int| 0 <= j < n ==> is_digit(sub[j]));
            lemma_digit_run_end_is(sub, 0, n);
            lemma_num_value_shift(input, lo, sub, 0, n, 0);
            let tok = Annot {
                value: TokenKind::Number(num_value(sub, 0, n)),
                loc: Loc(0, n as usize),
            };
            assert(spec_lex_from(sub, n) == Ok::<Seq<Token>, LexError>(Seq::empty()));
            assert(seq![tok] + Seq::<Token>::empty() =~= seq![tok]);
        },
        _ => {
            assert(n == 1);
            assert(sub[0] == input[lo]);
            assert(spec_lex_from(sub, 1) == Ok::<Seq<Token>, LexError>(Seq::empty()));
            let tok = Annot { value: t.value, loc: Loc(0, 1) };
            assert(seq![tok] + Seq::<Token>::empty() =~= seq![tok]);
        },
    }
}

/// Lexing is idempotent over a token's range: re-lexing exactly the bytes
/// that any produced token covers yields one token of the same kind and
/// value, spanning the whole smaller input.
pub proof fn lemma_lex_idempotent(input: Seq<u8>, i: int)
    requires
        input.len() <= usize::MAX,
        spec_lex(input) is Ok,
        0 <= i < spec_lex(input)->Ok_0.len(),
    ensures
        ({
            let tok = spec_lex(input)->Ok_0[i];
            spec_lex(input.subrange(tok.loc.0 as int, tok.loc.1 as int)) == Ok::<
                Seq<Token>,
                LexError,
            >(seq![Annot { value: tok.value, loc: Loc(0, (tok.loc.1 - tok.loc.0) as usize) }])
        }),
{
    lemma_lex_from_grounded(input, 0);
    let tok = spec_lex(input)->Ok_0[i];
    assert(token_grounded(input, tok));
    lemma_relex_token(input, tok);
}

/// Scans the input once, left to right, at byte granularity, and returns the
/// annotated tokens in order, or the first invalid byte as an error.
pub fn lex(input: &[u8]) -> (r: Result<Vec<Token>, LexError>)
    ensures
        match r {
            Ok(tokens) => spec_lex(input@) == Ok::<Seq<Token>, LexError>(tokens@),
            Err(e) => spec_lex(input@) == Err::<Seq<Token>, LexError>(e),
        },
{
    let mut tokens: Vec<Token> = Vec::new();
    let mut pos: usize = 0;
    proof {
        assert(tokens@ + spec_lex_from(input@, 0)->Ok_0 =~= spec_lex_from(input@, 0)->Ok_0);
    }
    while pos < input.len()
        invariant
            pos <= input@.len(),
            match spec_lex_from(input@, pos as int) {
                Ok(rest) => spec_lex(input@) == Ok::<Seq<Token>, LexError>(tokens@ + rest),
                Err(e) => spec_lex(input@) == Err::<Seq<Token>, LexError>(e),
            },
        decreases input@.len() - pos,
    {
        let b = input[pos];
        let ghost prev_tokens = tokens@;
        let ghost prev_pos = pos as int;
        if B_ZERO <= b && b <= B_NINE {
            let (tok, p) = match lex_number(input, pos) {
                Ok(v) => v,
                Err(e) => {
                    return Err(e);
                },
            };
            tokens.push(tok);
            pos = p;
            proof {
                lemma_digit_run_end_bounds(input@, prev_pos);
                lemma_lex_loop_step(input@, prev_pos, pos as int, prev_tokens, tok);
            }
        } else if b == B_PLUS {
            let (tok, p) = match lex_plus(input, pos) {
                Ok(v) => v,
                Err(e) => {
                    return Err(e);
                },
            };
            tokens.push(tok);
            pos = p;
            proof {
                lemma_lex_loop_step(input@, prev_pos, pos as int, prev_tokens, tok);
            }
        } else if b == B_MINUS {
            let (tok, p) = match lex_minus(input, pos) {
                Ok(v) => v,
                Err(e) => {
                    return Err(e);
                },
            };
            tokens.push(tok);
            pos = p;
            proof {
                lemma_lex_loop_step(input@, prev_pos, pos as int, prev_tokens, tok);
            }
        } else if b == B_ASTERISK {
            let (tok, p) = match lex_asterisk(input, pos) {
                Ok(v) => v,
                Err(e) => {
                    return Err(e);
                },
            };
            tokens.push(tok);
            pos = p;
            proof {
                lemma_lex_loop_step(input@, prev_pos, pos as int, prev_tokens, tok);
            }
        } else if b == B_SLASH {
            let (tok, p) = match lex_slash(input, pos) {
                Ok(v) => v,
                Err(e) => {
                    return Err(e);
                },
            };
            tokens.push(tok);
            pos = p;
            proof {
                lemma_lex_loop_step(input@, prev_pos, pos as int, prev_tokens, tok);
            }
        } else if b == B_LPAREN {
            let (tok, p) = match lex_lparen(input, pos) {
                Ok(v) => v,
                Err(e) => {
                    return Err(e);
                },
            };
            tokens.push(tok);
            pos = p;
            proof {
                lemma_lex_loop_step(input@, prev_pos, pos as int, prev_tokens, tok);
            }
        } else if b == B_RPAREN {
            let (tok, p) = match lex_rparen(input, pos) {
                Ok(v) => v,
                Err(e) => {
                    return Err(e);
                },
            };
            tokens.push(tok);
            pos = p;
            proof {
                lemma_lex_loop_step(input@, prev_pos, pos as int, prev_tokens, tok);
            }
        } else if b == B_SPACE || b == B_NEWLINE || b == B_TAB {
            let (_, p) = match skip_space(input, pos) {
                Ok(v) => v,
                Err(e) => {
                    return Err(e);
                },
            };
            pos = p;
            proof {
                lemma_space_run_end_bounds(input@, prev_pos);
            }
        } else {
            return Err(LexError::invalid_char(b as char, Loc(pos, pos + 1)));
        }
    }
    proof {
        assert(tokens@ + Seq::<Token>::empty() =~= tokens@);
    }
    Ok(tokens)
}

/// After one token is emitted and the cursor advanced, the loop's account of
/// the remaining input still matches the model.
proof fn lemma_lex_loop_step(input: Seq<u8>, pos: int, end: int, prefix: Seq<Token>, tok: Token)
    requires
        0 <= pos < input.len(),
        match spec_lex_from(input, pos) {
            Ok(rest) => spec_lex(input) == Ok::<Seq<Token>, LexError>(prefix + rest),
            Err(e) => spec_lex(input) == Err::<Seq<Token>, LexError>(e),
        },
        spec_lex_from(input, pos) == match spec_lex_from(input, end) {
            Ok(rest) => Ok::<Seq<Token>, LexError>(seq![tok] + rest),
            Err(e) => Err::<Seq<Token>, LexError>(e),
        },
    ensures
        match spec_lex_from(input, end) {
            Ok(rest) => spec_lex(input) == Ok::<Seq<Token>, LexError>(prefix.push(tok) + rest),
            Err(e) => spec_lex(input) == Err::<Seq<Token>, LexError>(e),
        },
{
    match spec_lex_from(input, end) {
        Ok(rest) => {
            assert(prefix + (seq![tok] + rest) =~= prefix.push(tok) + rest);
        },
        Err(_) => {},
    }
}

/// If the byte at `pos` is the expected one, consume it and advance by one;
/// report `Eof` past the end and `InvalidChar` on any other byte.
pub fn consume_byte(input: &[u8], pos: usize, b: u8) -> (r: Result<(u8, usize), LexError>)
    ensures
        r == spec_consume_byte(input@, pos, b),
{
    if input.len() <= pos {
        return Err(LexError::eof(Loc(pos, pos)));
    }
    if input[pos] != b {
        return Err(LexError::invalid_char(input[pos] as char, Loc(pos, pos + 1)));
    }
    Ok((b, pos + 1))
}

pub fn lex_plus(input: &[u8], start: usize) -> (r: Result<(Token, usize), LexError>)
    ensures
        r == spec_lex_byte(input@, start, B_PLUS, TokenKind::Plus),
{
    match consume_byte(input, start, B_PLUS) {
        Ok((_, end)) => Ok((Token::plus(Loc(start, end)), end)),
        Err(e) => Err(e),
    }
}

pub fn lex_minus(input: &[u8], start: usize) -> (r: Result<(Token, usize), LexError>)
    ensures
        r == spec_lex_byte(input@, start, B_MINUS, TokenKind::Minus),
{
    match consume_byte(input, start, B_MINUS) {
        Ok((_, end)) => Ok((Token::minus(Loc(start, end)), end)),
        Err(e) => Err(e),
    }
}

pub fn lex_asterisk(input: &[u8], start: usize) -> (r: Result<(Token, usize), LexError>)
    ensures
        r == spec_lex_byte(input@, start, B_ASTERISK, TokenKind::Asterisk),
{
    match consume_byte(input, start, B_ASTERISK) {
        Ok((_, end)) => Ok((Token::asterisk(Loc(start, end)), end)),
        Err(e) => Err(e),
    }
}

pub fn lex_slash(input: &[u8], start: usize) -> (r: Result<(Token, usize), LexError>)
    ensures
        r == spec_lex_byte(input@, start, B_SLASH, TokenKind::Slash),
{
    match consume_byte(input, start, B_SLASH) {
        Ok((_, end)) => Ok((Token::slash(Loc(start, end)), end)),
        Err(e) => Err(e),
    }
}

pub fn lex_lparen(input: &[u8], start: usize) -> (r: Result<(Token, usize), LexError>)
    ensures
        r == spec_lex_byte(input@, start, B_LPAREN, TokenKind::LParen),
{
    match consume_byte(input, start, B_LPAREN) {
        Ok((_, end)) => Ok((Token::lparen(Loc(start, end)), end)),
        Err(e) => Err(e),
    }
}

pub fn lex_rparen(input: &[u8], start: usize) -> (r: Result<(Token, usize), LexError>)
    ensures
        r == spec_lex_byte(input@, start, B_RPAREN, TokenKind::RParen),
{
    match consume_byte(input, start, B_RPAREN) {
        Ok((_, end)) => Ok((Token::rparen(Loc(start, end)), end)),
        Err(e) => Err(e),
    }
}

/// Reads the maximal run of digit bytes starting at `pos` and emits the
/// number token it denotes, spanning exactly that run.
pub fn lex_number(input: &[u8], pos: usize) -> (r: Result<(Token, usize), LexError>)
    requires
        pos < input@.len(),
        is_digit(input@[pos as int]),
    ensures
        ({
            let end = digit_run_end(input@, pos as int);
            r == Ok::<(Token, usize), LexError>(
                (
                    Annot {
                        value: TokenKind::Number(num_value(input@, pos as int, end)),
                        loc: Loc(pos, end as usize),
                    },
                    end as usize,
                ),
            )
        }),
{
    let start = pos;
    let f = |b: u8| -> (res: bool)
        ensures
            res == is_digit(b),
        { B_ZERO <= b && b <= B_NINE };
    let end = recognize_many(input, start, f);
    proof {
        assert forall|i: int| start <= i < end implies is_digit(input@[i]) by {
            assert(f.ensures((input@[i],), true));
        }
        if (end as int) < input@.len() {
            assert(f.ensures((input@[end as int],), false));
        }
        lemma_digit_run_end_is(input@, start as int, end as int);
    }
    let mut n: u64 = 0;
    let mut i = start;
    while i < end
        invariant
            start <= i <= end,
            end <= input@.len(),
            forall|j: int| start <= j < end ==> is_digit(input@[j]),
            num_value(input@, start as int, end as int) == num_value_from(
                input@,
                i as int,
                end as int,
                n,
            ),
        decreases end - i,
    {
        let d = input[i] - B_ZERO;
        let wide: u128 = (n as u128) * 10 + (d as u128);
        n = (wide % 0x1_0000_0000_0000_0000u128) as u64;
        i = i + 1;
    }
    Ok((Token::number(n, Loc(start, end)), end))
}

/// Skips the maximal run of whitespace bytes starting at `pos`.
pub fn skip_space(input: &[u8], pos: usize) -> (r: Result<((), usize), LexError>)
    requires
        pos <= input@.len(),
    ensures
        r == Ok::<((), usize), LexError>(((), space_run_end(input@, pos as int) as usize)),
{
    let f = |b: u8| -> (res: bool)
        ensures
            res == is_space(b),
        { b == B_SPACE || b == B_NEWLINE || b == B_TAB };
    let end = recognize_many(input, pos, f);
    proof {
        assert forall|i: int| pos <= i < end implies is_space(input@[i]) by {
            assert(f.ensures((input@[i],), true));
        }
        if (end as int) < input@.len() {
            assert(f.ensures((input@[end as int],), false));
        }
        lemma_space_run_end_is(input@, pos as int, end as int);
    }
    Ok(((), end))
}

/// Advances the cursor over the maximal run of bytes accepted by `f`.
pub fn recognize_many<F: Fn(u8) -> bool>(input: &[u8], pos: usize, f: F) -> (end: usize)
    requires
        pos <= input@.len(),
        forall|b: u8| #[trigger] f.requires((b,)),
    ensures
        pos <= end <= input@.len(),
        forall|i: int| pos <= i < end ==> f.ensures((input@[i],), true),
        end < input@.len() ==> f.ensures((input@[end as int],), false),
{
    let mut end = pos;
    while end < input.len() && f(input[end])
        invariant
            pos <= end <= input@.len(),
            forall|b: u8| #[trigger] f.requires((b,)),
            forall|i: int| pos <= i < end ==> f.ensures((input@[i],), true),
        decreases input@.len() - end,
    {
        end = end + 1;
    }
    end
}

} // verus!
