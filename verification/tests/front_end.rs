use bicycle_book::annot::Annot;
use bicycle_book::annot::Loc;
use bicycle_book::ast::Ast;
use bicycle_book::ast::BinOp;
use bicycle_book::ast::BinOpKind;
use bicycle_book::ast::UniOp;
use bicycle_book::diag::marker_line;
use bicycle_book::error::Cause;
use bicycle_book::error::Error;
use bicycle_book::lexer::consume_byte;
use bicycle_book::lexer::lex;
use bicycle_book::parser::parse;
use bicycle_book::parser::ParseError;
use bicycle_book::token::LexError;
use bicycle_book::token::Token;

#[test]
fn test_lexer() {
    assert_eq!(
        lex(b"1 + 2 * 3 - -10"),
        Ok(vec![
            Token::number(1, Loc(0, 1)),
            Token::plus(Loc(2, 3)),
            Token::number(2, Loc(4, 5)),
            Token::asterisk(Loc(6, 7)),
            Token::number(3, Loc(8, 9)),
            Token::minus(Loc(10, 11)),
            Token::minus(Loc(12, 13)),
            Token::number(10, Loc(13, 15)),
        ])
    );
}

#[test]
fn test_parser() {
    // 1 + 2 * 3 - -10
    let ast = parse(vec![
        Token::number(1, Loc(0, 1)),
        Token::plus(Loc(2, 3)),
        Token::number(2, Loc(4, 5)),
        Token::asterisk(Loc(6, 7)),
        Token::number(3, Loc(8, 9)),
        Token::minus(Loc(10, 11)),
        Token::minus(Loc(12, 13)),
        Token::number(10, Loc(13, 15)),
    ]);
    assert_eq!(
        ast,
        Ok(Ast::binop(
            BinOp::sub(Loc(10, 11)),
            Ast::binop(
                BinOp::add(Loc(2, 3)),
                Ast::num(1, Loc(0, 1)),
                Ast::binop(
                    BinOp::new(BinOpKind::Mult, Loc(6, 7)),
                    Ast::num(2, Loc(4, 5)),
                    Ast::num(3, Loc(8, 9)),
                    Loc(4, 9)
                ),
                Loc(0, 9)
            ),
            Ast::uniop(
                UniOp::minus(Loc(12, 13)),
                Ast::num(10, Loc(13, 15)),
                Loc(12, 15)
            ),
            Loc(0, 15)
        ))
    )
}

#[test]
fn subtraction_is_left_associative() {
    // "1 - 2 - 3" parses as (1 - 2) - 3, not 1 - (2 - 3).
    let ast = Ast::from_text(b"1 - 2 - 3");
    assert_eq!(
        ast,
        Ok(Ast::binop(
            BinOp::sub(Loc(6, 7)),
            Ast::binop(
                BinOp::sub(Loc(2, 3)),
                Ast::num(1, Loc(0, 1)),
                Ast::num(2, Loc(4, 5)),
                Loc(0, 5)
            ),
            Ast::num(3, Loc(8, 9)),
            Loc(0, 9)
        ))
    );
}

#[test]
fn multiplication_binds_tighter_than_addition() {
    // "1 + 2 * 3" parses as 1 + (2 * 3).
    let ast = Ast::from_text(b"1 + 2 * 3");
    assert_eq!(
        ast,
        Ok(Ast::binop(
            BinOp::add(Loc(2, 3)),
            Ast::num(1, Loc(0, 1)),
            Ast::binop(
                BinOp::mult(Loc(6, 7)),
                Ast::num(2, Loc(4, 5)),
                Ast::num(3, Loc(8, 9)),
                Loc(4, 9)
            ),
            Loc(0, 9)
        ))
    );
}

#[test]
fn relexing_token_spans_reproduces_the_tokens() {
    let input: &[u8] = b"12 + 345 * (6 - 7) / 89";
    let tokens = lex(input).unwrap();
    assert!(!tokens.is_empty());
    for tok in &tokens {
        let sub = &input[tok.loc.0..tok.loc.1];
        let relexed = lex(sub).unwrap();
        assert_eq!(relexed.len(), 1);
        assert_eq!(relexed[0].value, tok.value);
        assert_eq!(relexed[0].loc, Loc(0, tok.loc.1 - tok.loc.0));
    }
}

#[test]
fn lexing_rejects_an_invalid_byte() {
    assert_eq!(
        lex(b"1 # 2"),
        Err(LexError::invalid_char('#', Loc(2, 3)))
    );
}

#[test]
fn parsing_a_dangling_operator_reports_eof() {
    // Tokens for "1 +": the operator is there, the right operand is not.
    let tokens = lex(b"1 +").unwrap();
    assert_eq!(parse(tokens), Err(ParseError::Eof));
}

#[test]
fn parsing_trailing_tokens_reports_them_redundant() {
    // Tokens for "1 2": a complete expression, then one token too many.
    let tokens = lex(b"1 2").unwrap();
    assert_eq!(
        parse(tokens),
        Err(ParseError::RedundantExpression(Token::number(2, Loc(2, 3))))
    );
}

#[test]
fn parsing_an_unclosed_paren_fails() {
    // Tokens for "(1 + 2": no closing parenthesis, so no silent success.
    let tokens = lex(b"(1 + 2").unwrap();
    let result = parse(tokens);
    assert!(result.is_err());
    assert_eq!(
        result,
        Err(ParseError::NotExpression(Token::lparen(Loc(0, 1))))
    );
}

#[test]
fn parsing_a_stray_operator_reports_not_expression() {
    let tokens = lex(b"+ *").unwrap();
    assert_eq!(
        parse(tokens),
        Err(ParseError::NotExpression(Token::asterisk(Loc(2, 3))))
    );
}

#[test]
fn parenthesized_spans_cover_the_inner_expression_only() {
    let ast = Ast::from_text(b"(1 + 2) * 3");
    assert_eq!(
        ast,
        Ok(Ast::binop(
            BinOp::mult(Loc(8, 9)),
            Ast::binop(
                BinOp::add(Loc(3, 4)),
                Ast::num(1, Loc(1, 2)),
                Ast::num(2, Loc(5, 6)),
                Loc(1, 6)
            ),
            Ast::num(3, Loc(10, 11)),
            Loc(1, 11)
        ))
    );
}

#[test]
fn a_unary_sign_merges_with_its_operand() {
    let ast = Ast::from_text(b"-5");
    assert_eq!(
        ast,
        Ok(Ast::uniop(
            UniOp::minus(Loc(0, 1)),
            Ast::num(5, Loc(1, 2)),
            Loc(0, 2)
        ))
    );
}

#[test]
fn division_is_left_associative_too() {
    // "8 / 4 / 2" parses as (8 / 4) / 2.
    let ast = Ast::from_text(b"8 / 4 / 2");
    assert_eq!(
        ast,
        Ok(Ast::binop(
            BinOp::div(Loc(6, 7)),
            Ast::binop(
                BinOp::div(Loc(2, 3)),
                Ast::num(8, Loc(0, 1)),
                Ast::num(4, Loc(4, 5)),
                Loc(0, 5)
            ),
            Ast::num(2, Loc(8, 9)),
            Loc(0, 9)
        ))
    );
}

#[test]
fn lexing_an_empty_input_yields_no_tokens() {
    assert_eq!(lex(b""), Ok(vec![]));
    assert_eq!(lex(b" \t\n"), Ok(vec![]));
}

#[test]
fn parsing_an_empty_sequence_reports_eof() {
    assert_eq!(parse(vec![]), Err(ParseError::Eof));
}

#[test]
fn the_largest_literal_fits_and_the_next_wraps() {
    assert_eq!(
        lex(b"18446744073709551615"),
        Ok(vec![Token::number(u64::MAX, Loc(0, 20))])
    );
    // One past the native range truncates, as 2 to the 64th wraps to zero.
    assert_eq!(
        lex(b"18446744073709551616"),
        Ok(vec![Token::number(0, Loc(0, 20))])
    );
}

#[test]
fn consuming_a_byte_past_the_end_reports_eof() {
    assert_eq!(consume_byte(b"", 0, 43), Err(LexError::eof(Loc(0, 0))));
    assert_eq!(
        consume_byte(b"a", 0, 43),
        Err(LexError::invalid_char('a', Loc(0, 1)))
    );
    assert_eq!(consume_byte(b"+", 0, 43), Ok((43, 1)));
}

#[test]
fn from_text_tags_each_layer_of_failure() {
    assert_eq!(
        Ast::from_text(b"1 # 2"),
        Err(Error::Lexer(LexError::invalid_char('#', Loc(2, 3))))
    );
    assert_eq!(Ast::from_text(b"1 +"), Err(Error::Parser(ParseError::Eof)));
    assert_eq!(
        Ast::from_text(b"7"),
        Ok(Ast::num(7, Loc(0, 1)))
    );
}

#[test]
fn an_error_exposes_its_cause() {
    let lex_err = LexError::invalid_char('#', Loc(2, 3));
    let e = Error::from(lex_err.clone());
    assert_eq!(e, Error::Lexer(lex_err.clone()));
    match e.source() {
        Cause::Lexer(c) => assert_eq!(*c, lex_err),
        Cause::Parser(_) => panic!("a lexer error must expose a lexer cause"),
    }

    let parse_err = ParseError::Eof;
    let e = Error::from(parse_err.clone());
    assert_eq!(e, Error::Parser(parse_err.clone()));
    match e.source() {
        Cause::Parser(c) => assert_eq!(*c, parse_err),
        Cause::Lexer(_) => panic!("a parser error must expose a parser cause"),
    }
}

#[test]
fn the_marker_line_underlines_the_range() {
    assert_eq!(marker_line(Loc(2, 3)), "  ^".to_string());
    assert_eq!(marker_line(Loc(0, 4)), "^^^^".to_string());
    assert_eq!(marker_line(Loc(3, 3)), "   ".to_string());
}

#[test]
fn annotations_pair_a_value_with_its_range() {
    let a = Annot::new(7u64, Loc(1, 4));
    assert_eq!(a.value, 7);
    assert_eq!(a.loc, Loc(1, 4));
    assert_eq!(Loc(1, 4).merge(&Loc(2, 9)), Loc(1, 9));
    assert_eq!(Loc(5, 6).merge(&Loc(0, 2)), Loc(0, 6));
}
