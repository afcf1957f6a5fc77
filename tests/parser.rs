use simplelang::ast::{BinaryOperator, ExpressionNode, UnaryOperator};
use simplelang::lexer::Lexer;
use simplelang::parser::Parser;
use simplelang::{Span, SyntaxError, SyntaxErrorKind, TextPosition, Token, TokenKind};

#[test]
fn expr_integer() {
    assert_eq!(parse_expr("123"), ExpressionNode::Integer(123));
}

#[test]
fn expr_string() {
    assert_eq!(
        parse_expr("\"hello\""),
        ExpressionNode::String("hello".to_string())
    );
}

#[test]
fn expr_parenthesis() {
    assert_eq!(parse_expr("(456)"), ExpressionNode::Integer(456));
}

#[test]
fn expr_binary() {
    assert_eq!(
        parse_expr("12 + 34"),
        ExpressionNode::Binary(
            BinaryOperator::Add,
            Box::new(ExpressionNode::Integer(12)),
            Box::new(ExpressionNode::Integer(34)),
        )
    );
}

#[test]
fn expr_binary_precendence() {
    assert_eq!(
        parse_expr("12 + 34 * 56"),
        ExpressionNode::Binary(
            BinaryOperator::Add,
            Box::new(ExpressionNode::Integer(12)),
            Box::new(ExpressionNode::Binary(
                BinaryOperator::Mul,
                Box::new(ExpressionNode::Integer(34)),
                Box::new(ExpressionNode::Integer(56)),
            )),
        )
    );

    assert_eq!(
        parse_expr("12 * 34 + 56"),
        ExpressionNode::Binary(
            BinaryOperator::Add,
            Box::new(ExpressionNode::Binary(
                BinaryOperator::Mul,
                Box::new(ExpressionNode::Integer(12)),
                Box::new(ExpressionNode::Integer(34)),
            )),
            Box::new(ExpressionNode::Integer(56)),
        )
    );
}

#[test]
fn expr_binary_associativity() {
    assert_eq!(
        parse_expr("12 + 34 + 56"),
        ExpressionNode::Binary(
            BinaryOperator::Add,
            Box::new(ExpressionNode::Binary(
                BinaryOperator::Add,
                Box::new(ExpressionNode::Integer(12)),
                Box::new(ExpressionNode::Integer(34)),
            )),
            Box::new(ExpressionNode::Integer(56)),
        )
    );
}

#[test]
fn expr_unary_prefix() {
    assert_eq!(
        parse_expr("+-5"),
        ExpressionNode::Unary(
            UnaryOperator::Plus,
            Box::new(ExpressionNode::Unary(
                UnaryOperator::Negate,
                Box::new(ExpressionNode::Integer(5)),
            )),
        )
    );
}

#[test]
fn expr_unary_postfix() {
    assert_eq!(
        parse_expr("5--++"),
        ExpressionNode::Unary(
            UnaryOperator::PostInc,
            Box::new(ExpressionNode::Unary(
                UnaryOperator::PostDec,
                Box::new(ExpressionNode::Integer(5)),
            )),
        )
    );
}

#[test]
fn expr_prefix_binds_looser_than_postfix() {
    assert_eq!(
        parse_expr("--7++"),
        ExpressionNode::Unary(
            UnaryOperator::PreDec,
            Box::new(ExpressionNode::Unary(
                UnaryOperator::PostInc,
                Box::new(ExpressionNode::Integer(7)),
            )),
        )
    );
}

#[test]
fn expr_products_inside_sums() {
    let product = |a: i32, b: i32| {
        ExpressionNode::Binary(
            BinaryOperator::Mul,
            Box::new(ExpressionNode::Integer(a)),
            Box::new(ExpressionNode::Integer(b)),
        )
    };
    assert_eq!(
        parse_expr("1 * 2 + 3 * 4"),
        ExpressionNode::Binary(BinaryOperator::Add, Box::new(product(1, 2)), Box::new(product(3, 4)))
    );
    assert_eq!(
        parse_expr("(1 + 2) * 3"),
        ExpressionNode::Binary(
            BinaryOperator::Mul,
            Box::new(ExpressionNode::Binary(
                BinaryOperator::Add,
                Box::new(ExpressionNode::Integer(1)),
                Box::new(ExpressionNode::Integer(2)),
            )),
            Box::new(ExpressionNode::Integer(3)),
        )
    );
}

#[test]
fn expr_largest_integer() {
    assert_eq!(parse_expr("2147483647"), ExpressionNode::Integer(2147483647));
    assert_eq!(parse_expr("007"), ExpressionNode::Integer(7));
}

#[test]
fn expr_leaves_trailing_tokens() {
    let tokens = Lexer::new().lex("1 2 )").unwrap();
    let (rest, expr) = Parser::new().expression(&tokens).unwrap();
    assert_eq!(expr, ExpressionNode::Integer(1));
    assert_eq!(rest.len(), 2);
    assert_eq!(rest[0].kind, TokenKind::Integer);
    assert_eq!(rest[1].kind, TokenKind::RParen);
}

#[test]
fn expr_unclosed_parenthesis_at_end() {
    assert_eq!(
        parse_err("(456"),
        SyntaxError {
            kind: SyntaxErrorKind::UnclosedParenthesis { open: pos(0), found: None },
            span: Some(span(0, 1)),
        }
    );
}

#[test]
fn expr_unclosed_parenthesis_before_token() {
    assert_eq!(
        parse_err("(1 2"),
        SyntaxError {
            kind: SyntaxErrorKind::UnclosedParenthesis {
                open: pos(0),
                found: Some(TokenKind::Integer),
            },
            span: Some(span(3, 4)),
        }
    );
}

#[test]
fn expr_unexpected_end_of_input() {
    let expected = SyntaxError { kind: SyntaxErrorKind::UnexpectedEndOfInput, span: None };
    assert_eq!(parse_err(""), expected);
    assert_eq!(parse_err("1 +"), expected);
    assert_eq!(parse_err("-"), expected);
}

#[test]
fn expr_expected_literal_or_group() {
    assert_eq!(
        parse_err("1 * fn"),
        SyntaxError {
            kind: SyntaxErrorKind::ExpectedLiteralOrGroup { kind: TokenKind::FnKeyword },
            span: Some(span(4, 6)),
        }
    );
}

#[test]
fn expr_literal_out_of_range() {
    assert_eq!(
        parse_err(" 2147483648"),
        SyntaxError { kind: SyntaxErrorKind::LiteralOutOfRange, span: Some(span(1, 11)) }
    );
}

#[test]
fn expr_hand_made_tokens() {
    let tokens = vec![
        Token { text: "'ab'".to_string(), start: pos(0), end: pos(4), kind: TokenKind::String },
        Token { text: "x".to_string(), start: pos(5), end: pos(6), kind: TokenKind::Integer },
    ];
    let (rest, expr) = Parser::new().expression(&tokens).unwrap();
    assert_eq!(expr, ExpressionNode::String("ab".to_string()));
    assert_eq!(rest.len(), 1);
    assert_eq!(
        Parser::new().expression(&tokens[1..]).unwrap_err(),
        SyntaxError { kind: SyntaxErrorKind::LiteralOutOfRange, span: Some(span(5, 6)) }
    );
}

fn pos(index: usize) -> TextPosition {
    TextPosition { index }
}

fn span(start: usize, end: usize) -> Span {
    Span { start: pos(start), end: pos(end) }
}

fn parse_err(input: &str) -> SyntaxError {
    let tokens = Lexer::new().lex(input).expect("Lex error");
    Parser::new().expression(&tokens).unwrap_err()
}

fn parse_expr(input: &str) -> ExpressionNode {
    let tokens = Lexer::new().lex(input).expect("Lex error");
    let (tokens, expr) = Parser::new().expression(&tokens).expect("Parse error");
    assert_eof(tokens);
    expr
}

fn assert_eof(tokens: &[Token]) {
    assert!(
        tokens.len() == 0,
        "Expected end of file got tokens {:?}",
        tokens.iter().map(|t| &t.text).collect::<Vec<&String>>()
    );
}
