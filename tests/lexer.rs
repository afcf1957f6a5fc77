use simplelang::lexer::Lexer;
use simplelang::{Span, SyntaxError, SyntaxErrorKind, TextPosition, Token, TokenKind};

#[test]
fn empty() {
    assert_tokens("", Vec::<Token>::new());
}

#[test]
fn tokens() {
    assert_token("123", TokenKind::Integer);
    assert_token("\"Hello, World!\"", TokenKind::String);
    assert_token("hello", TokenKind::Identifier);
    assert_token("fn", TokenKind::FnKeyword);
    assert_token("fnabc", TokenKind::Identifier);
    assert_token("abcfn", TokenKind::Identifier);
}

#[test]
fn op_tokens() {
    assert_token("+", TokenKind::Plus);
    assert_token("++", TokenKind::PlusPlus);
    assert_token("+=", TokenKind::PlusEqual);
    assert_tokens(
        "+++",
        vec![
            new_token(0, "++", TokenKind::PlusPlus),
            new_token(2, "+", TokenKind::Plus),
        ],
    );
}

#[test]
fn whitespace() {
    assert_tokens(" \r \t \n ", Vec::<Token>::new());
    assert_tokens(" 123 ", vec![new_token(1, "123", TokenKind::Integer)]);
    assert_tokens(
        "12 34 ",
        vec![
            new_token(0, "12", TokenKind::Integer),
            new_token(3, "34", TokenKind::Integer),
        ],
    );
}

#[test]
fn every_symbol() {
    assert_token("-", TokenKind::Minus);
    assert_token("--", TokenKind::MinusMinus);
    assert_token("-=", TokenKind::MinusEqual);
    assert_token("*", TokenKind::Asterisk);
    assert_token("*=", TokenKind::AsteriskEqual);
    assert_token("(", TokenKind::LParen);
    assert_token(")", TokenKind::RParen);
    assert_token("_x1", TokenKind::Identifier);
}

#[test]
fn mixed_line() {
    assert_tokens(
        "fn(a1)*=\"b c\"--7",
        vec![
            new_token(0, "fn", TokenKind::FnKeyword),
            new_token(2, "(", TokenKind::LParen),
            new_token(3, "a1", TokenKind::Identifier),
            new_token(5, ")", TokenKind::RParen),
            new_token(6, "*=", TokenKind::AsteriskEqual),
            new_token(8, "\"b c\"", TokenKind::String),
            new_token(13, "--", TokenKind::MinusMinus),
            new_token(15, "7", TokenKind::Integer),
        ],
    );
}

#[test]
fn token_width_matches_text() {
    let tokens = Lexer::new().lex("abc += \"q\" 1234 ++x").unwrap();
    assert_eq!(tokens.len(), 6);
    for t in &tokens {
        assert_eq!(t.end.index - t.start.index, t.text.chars().count());
    }
}

#[test]
fn positions_restart_on_each_line() {
    assert_tokens(
        "12\n 34\r\nfn",
        vec![
            new_token(0, "12", TokenKind::Integer),
            new_token(1, "34", TokenKind::Integer),
            new_token(0, "fn", TokenKind::FnKeyword),
        ],
    );
}

#[test]
fn unexpected_symbol() {
    let err = Lexer::new().lex("a $").unwrap_err();
    assert_eq!(
        err,
        SyntaxError {
            kind: SyntaxErrorKind::UnexpectedSymbol { symbol: '$' },
            span: Some(span(2, 2)),
        }
    );
}

#[test]
fn unclosed_string() {
    let err = Lexer::new().lex("x \"abc").unwrap_err();
    assert_eq!(
        err,
        SyntaxError { kind: SyntaxErrorKind::UnclosedString, span: Some(span(2, 7)) }
    );
}

#[test]
fn string_does_not_run_past_line_end() {
    let err = Lexer::new().lex("\"ab\r\n\"").unwrap_err();
    assert_eq!(
        err,
        SyntaxError { kind: SyntaxErrorKind::UnclosedString, span: Some(span(0, 4)) }
    );
}

#[test]
fn first_error_wins() {
    let err = Lexer::new().lex("1 #\n$").unwrap_err();
    assert_eq!(err.kind, SyntaxErrorKind::UnexpectedSymbol { symbol: '#' });
}

fn span(start: usize, end: usize) -> Span {
    Span { start: TextPosition { index: start }, end: TextPosition { index: end } }
}

fn assert_tokens(input: &str, expected: Vec<Token>) {
    let actual = Lexer::new().lex(input).unwrap();
    assert_eq!(expected, actual);
}

fn assert_token(input: &str, kind: TokenKind) {
    let token = new_token(0, input, kind);
    assert_tokens(input, vec![token]);
}

fn new_token(start: usize, text: &str, kind: TokenKind) -> Token {
    Token {
        start: TextPosition { index: start },
        end: TextPosition { index: start + text.len() },
        text: text.to_owned(),
        kind: kind,
    }
}
