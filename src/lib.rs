//! Front end of a small expression language: a lexer that turns text into
//! positioned tokens, and a precedence-climbing parser that turns tokens into
//! an expression tree.
use vstd::prelude::*;

pub mod ast;
pub mod indexed_slice;
pub mod lexer;
pub mod parser;

mod text;

verus! {

use crate::ast::UnaryOperator;

/// A character offset within the current line of input.
#[derive(Clone, Copy, Debug, PartialEq, Eq, Structural)]
pub struct TextPosition {
    pub index: usize,
}

impl TextPosition {
    /// The position one character further on.
    pub fn next(&self) -> (r: TextPosition)
        requires
            self.index < usize::MAX,
        ensures
            r.index == self.index + 1,
    {
        TextPosition { index: self.index + 1 }
    }
}

/// The position at character offset `i`.
pub open spec fn pos(i: int) -> TextPosition {
    TextPosition { index: i as usize }
}

#[derive(Clone, Copy, Debug, PartialEq, Eq, Hash, Structural)]
pub enum TokenKind {
    Identifier,
    Integer,
    String,
    // keywords
    FnKeyword,
    // symbols
    Plus,
    PlusPlus,
    PlusEqual,
    Minus,
    MinusMinus,
    MinusEqual,
    Asterisk,
    AsteriskEqual,
    LParen,
    RParen,
}

impl TokenKind {
    /// The unary operator that a token of this kind denotes before an operand.
    pub open spec fn prefix_operator(self) -> Option<UnaryOperator> {
        match self {
            TokenKind::Plus => Some(UnaryOperator::Plus),
            TokenKind::Minus => Some(UnaryOperator::Negate),
            TokenKind::PlusPlus => Some(UnaryOperator::PreInc),
            TokenKind::MinusMinus => Some(UnaryOperator::PreDec),
            _ => None,
        }
    }

    /// The unary operator that a token of this kind denotes after an operand.
    pub open spec fn postfix_operator(self) -> Option<UnaryOperator> {
        match self {
            TokenKind::PlusPlus => Some(UnaryOperator::PostInc),
            TokenKind::MinusMinus => Some(UnaryOperator::PostDec),
            _ => None,
        }
    }

    pub fn as_prefix_operator(self) -> (r: Option<UnaryOperator>)
        ensures
            r == self.prefix_operator(),
    {
        match self {
            TokenKind::Plus => Some(UnaryOperator::Plus),
            TokenKind::Minus => Some(UnaryOperator::Negate),
            TokenKind::PlusPlus => Some(UnaryOperator::PreInc),
            TokenKind::MinusMinus => Some(UnaryOperator::PreDec),
            _ => None,
        }
    }

    pub fn as_postfix_operator(self) -> (r: Option<UnaryOperator>)
        ensures
            r == self.postfix_operator(),
    {
        match self {
            TokenKind::PlusPlus => Some(UnaryOperator::PostInc),
            TokenKind::MinusMinus => Some(UnaryOperator::PostDec),
            _ => None,
        }
    }
}

/// A classified piece of source text. `text` is the exact source text
/// (quotes included for string literals); `end` is one past its last character.
#[derive(Debug, PartialEq, Eq)]
pub struct Token {
    pub text: String,
    pub start: TextPosition,
    pub end: TextPosition,
    pub kind: TokenKind,
}

/// The mathematical value of a token.
pub struct TokenView {
    pub text: Seq<char>,
    pub start: TextPosition,
    pub end: TextPosition,
    pub kind: TokenKind,
}

impl View for Token {
    type V = TokenView;

    open spec fn view(&self) -> TokenView {
        TokenView { text: self.text@, start: self.start, end: self.end, kind: self.kind }
    }
}

/// The views of a sequence of tokens.
pub open spec fn token_views(ts: Seq<Token>) -> Seq<TokenView> {
    ts.map_values(|t: Token| t@)
}

/// What went wrong, with what the lexer or parser found there.
#[derive(Clone, Copy, Debug, PartialEq, Eq, Structural)]
pub enum SyntaxErrorKind {
    /// A character that starts no token.
    UnexpectedSymbol { symbol: char },
    /// A string literal without its closing quote on the same line.
    UnclosedString,
    /// The parser needed a token and none was left.
    UnexpectedEndOfInput,
    /// A `(` at `open` whose `)` is missing: `found` is the token that stands
    /// in its place, `None` at the end of the input.
    UnclosedParenthesis { open: TextPosition, found: Option<TokenKind> },
    /// A primary expression was expected and a token of kind `kind` came.
    ExpectedLiteralOrGroup { kind: TokenKind },
    /// An integer literal that is not a decimal numeral within the range of `i32`.
    LiteralOutOfRange,
}

/// A stretch of a line, from `start` up to (not including) `end`.
#[derive(Clone, Copy, Debug, PartialEq, Eq, Structural)]
pub struct Span {
    pub start: TextPosition,
    pub end: TextPosition,
}

/// A lexical or syntax error, with the span of source it concerns
/// (`None` where no position is known).
#[derive(Clone, Copy, Debug, PartialEq, Eq, Structural)]
pub struct SyntaxError {
    pub kind: SyntaxErrorKind,
    pub span: Option<Span>,
}

pub type SyntaxResult<T> = Result<T, SyntaxError>;

impl SyntaxError {
    pub fn at_pos<T>(position: TextPosition, kind: SyntaxErrorKind) -> (r: SyntaxResult<T>)
        ensures
            r == (Err::<T, SyntaxError>(SyntaxError { kind, span: Some(Span { start: position, end: position }) })),
    {
        Err(SyntaxError { kind, span: Some(Span { start: position, end: position }) })
    }

    pub fn at_range<T>(start: TextPosition, end: TextPosition, kind: SyntaxErrorKind) -> (r:
        SyntaxResult<T>)
        ensures
            r == (Err::<T, SyntaxError>(SyntaxError { kind, span: Some(Span { start, end }) })),
    {
        Err(SyntaxError { kind, span: Some(Span { start, end }) })
    }

    pub fn from_token<T>(token: &Token, kind: SyntaxErrorKind) -> (r: SyntaxResult<T>)
        ensures
            r == (Err::<T, SyntaxError>(SyntaxError { kind, span: Some(Span { start: token.start, end: token.end }) })),
    {
        Err(SyntaxError { kind, span: Some(Span { start: token.start, end: token.end }) })
    }
}

} // verus!
