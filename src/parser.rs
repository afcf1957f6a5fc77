use vstd::prelude::*;

use crate::ast::{BinaryOperator, Expr, ExpressionNode, UnaryOperator};
use crate::lexer::spec_is_digit;
use crate::text::chars_of;
use crate::{token_views, Span, SyntaxError, SyntaxErrorKind, SyntaxResult, Token, TokenKind, TokenView};

verus! {

/// A parse from some token index: the index of the first token left over and
/// the expression read, or the error met.
///
/// The grammar below is a sum of products of primary expressions, each
/// operator grouping to the left. Its index guards (`i < j <= ts.len()`)
/// always hold, as the progress lemmas show; they make termination evident.
pub type Parsed = SyntaxResult<(int, Expr)>;

pub open spec fn end_of_input() -> SyntaxError {
    SyntaxError { kind: SyntaxErrorKind::UnexpectedEndOfInput, span: None }
}

pub open spec fn error_at(t: TokenView, kind: SyntaxErrorKind) -> SyntaxError {
    SyntaxError { kind, span: Some(Span { start: t.start, end: t.end }) }
}

/// The binary operator that a token kind denotes, with its precedence
/// (higher binds tighter).
pub open spec fn binary_operator(kind: TokenKind) -> Option<(BinaryOperator, u32)> {
    match kind {
        TokenKind::Asterisk => Some((BinaryOperator::Mul, 6)),
        TokenKind::Plus => Some((BinaryOperator::Add, 5)),
        _ => None,
    }
}

/// `s` is a non-empty run of decimal digits.
pub open spec fn is_numeral(s: Seq<char>) -> bool {
    s.len() > 0 && forall|k: int| 0 <= k < s.len() ==> spec_is_digit(#[trigger] s[k])
}

pub open spec fn digit_value(c: char) -> int {
    c as int - '0' as int
}

/// The number that the decimal digits `s` write.
pub open spec fn numeral_value(s: Seq<char>) -> int
    decreases s.len(),
{
    if s.len() == 0 {
        0
    } else {
        numeral_value(s.drop_last()) * 10 + digit_value(s.last())
    }
}

/// The value of an integer literal, if its text is a numeral within the range of `i32`.
pub open spec fn integer_value(text: Seq<char>) -> Option<i32> {
    if is_numeral(text) && numeral_value(text) <= i32::MAX {
        Some(numeral_value(text) as i32)
    } else {
        None
    }
}

/// The value of a string literal: its text less the first and the last character.
pub open spec fn string_value(text: Seq<char>) -> Seq<char> {
    if text.len() >= 2 {
        text.subrange(1, text.len() - 1)
    } else {
        Seq::empty()
    }
}

/// `e` under the unary operators `ops`, the first outermost.
pub open spec fn wrap(ops: Seq<UnaryOperator>, e: Expr) -> Expr
    decreases ops.len(),
{
    if ops.len() == 0 {
        e
    } else {
        Expr::Unary(ops[0], Box::new(wrap(ops.drop_first(), e)))
    }
}

pub open spec fn wrap_parsed(ops: Seq<UnaryOperator>, r: Parsed) -> Parsed {
    match r {
        Ok((j, e)) => Ok((j, wrap(ops, e))),
        Err(err) => Err(err),
    }
}

/// `e` under the postfix operators that follow it from index `i` on, the first innermost.
pub open spec fn postfix(ts: Seq<TokenView>, i: int, e: Expr) -> (int, Expr)
    decreases ts.len() - i,
{
    if 0 <= i < ts.len() && ts[i].kind.postfix_operator() is Some {
        postfix(ts, i + 1, Expr::Unary(ts[i].kind.postfix_operator()->0, Box::new(e)))
    } else {
        (i, e)
    }
}

/// A primary expression: prefix operators, then a literal or a parenthesised
/// expression, then postfix operators. Prefix operators bind looser than postfix ones.
pub open spec fn parse_primary(ts: Seq<TokenView>, i: int) -> Parsed
    decreases ts.len() - i, 1int,
{
    if i < 0 || i >= ts.len() {
        Err(end_of_input())
    } else {
        match ts[i].kind.prefix_operator() {
            Some(op) => wrap_parsed(seq![op], parse_primary(ts, i + 1)),
            None => match parse_operand(ts, i) {
                Ok((j, e)) => Ok(postfix(ts, j, e)),
                Err(err) => Err(err),
            },
        }
    }
}

/// A literal or a parenthesised expression.
pub open spec fn parse_operand(ts: Seq<TokenView>, i: int) -> Parsed
    decreases ts.len() - i, 0int,
{
    if i < 0 || i >= ts.len() {
        Err(end_of_input())
    } else {
        let t = ts[i];
        match t.kind {
            TokenKind::Integer => match integer_value(t.text) {
                Some(v) => Ok((i + 1, Expr::Integer(v))),
                None => Err(error_at(t, SyntaxErrorKind::LiteralOutOfRange)),
            },
            TokenKind::LParen => match parse_expression(ts, i + 1) {
                Err(err) => Err(err),
                Ok((j, e)) => if 0 <= j < ts.len() {
                    if ts[j].kind == TokenKind::RParen {
                        Ok((j + 1, e))
                    } else {
                        Err(
                            error_at(
                                ts[j],
                                SyntaxErrorKind::UnclosedParenthesis {
                                    open: t.start,
                                    found: Some(ts[j].kind),
                                },
                            ),
                        )
                    }
                } else {
                    Err(
                        error_at(
                            t,
                            SyntaxErrorKind::UnclosedParenthesis { open: t.start, found: None },
                        ),
                    )
                },
            },
            TokenKind::String => Ok((i + 1, Expr::Str(string_value(t.text)))),
            _ => Err(error_at(t, SyntaxErrorKind::ExpectedLiteralOrGroup { kind: t.kind })),
        }
    }
}

/// `lhs` followed by the `* primary` that come from index `i` on, grouped to the left.
pub open spec fn product_tail(ts: Seq<TokenView>, i: int, lhs: Expr) -> Parsed
    decreases ts.len() - i, 3int,
{
    if 0 <= i < ts.len() && ts[i].kind == TokenKind::Asterisk {
        match parse_primary(ts, i + 1) {
            Err(err) => Err(err),
            Ok((j, rhs)) => {
                let e = Expr::Binary(BinaryOperator::Mul, Box::new(lhs), Box::new(rhs));
                if i < j <= ts.len() {
                    product_tail(ts, j, e)
                } else {
                    Ok((j, e))
                }
            },
        }
    } else {
        Ok((i, lhs))
    }
}

/// `lhs` followed by the `+ product` that come from index `i` on, grouped to the left.
pub open spec fn sum_tail(ts: Seq<TokenView>, i: int, lhs: Expr) -> Parsed
    decreases ts.len() - i, 4int,
{
    if 0 <= i < ts.len() && ts[i].kind == TokenKind::Plus {
        match parse_primary(ts, i + 1) {
            Err(err) => Err(err),
            Ok((j, p)) => if i < j <= ts.len() {
                match product_tail(ts, j, p) {
                    Err(err) => Err(err),
                    Ok((k, rhs)) => {
                        let e = Expr::Binary(BinaryOperator::Add, Box::new(lhs), Box::new(rhs));
                        if j <= k <= ts.len() {
                            sum_tail(ts, k, e)
                        } else {
                            Ok((k, e))
                        }
                    },
                }
            } else {
                Ok((j, p))
            },
        }
    } else {
        Ok((i, lhs))
    }
}

/// An expression from index `i`: a sum of products of primary expressions.
pub open spec fn parse_expression(ts: Seq<TokenView>, i: int) -> Parsed
    decreases ts.len() - i, 2int,
{
    match parse_primary(ts, i) {
        Err(err) => Err(err),
        Ok((j, p)) => if i < j <= ts.len() {
            match product_tail(ts, j, p) {
                Err(err) => Err(err),
                Ok((k, e)) => if j <= k <= ts.len() {
                    sum_tail(ts, k, e)
                } else {
                    Ok((k, e))
                },
            }
        } else {
            Ok((j, p))
        },
    }
}

/// What follows `lhs` from index `i` on, taking only the binary operators
/// of precedence `min` or more (5 is that of `+`, 6 that of `*`).
pub open spec fn climb(ts: Seq<TokenView>, i: int, lhs: Expr, min: u32) -> Parsed {
    if min <= 5 {
        match product_tail(ts, i, lhs) {
            Err(err) => Err(err),
            Ok((j, e)) => sum_tail(ts, j, e),
        }
    } else if min <= 6 {
        product_tail(ts, i, lhs)
    } else {
        Ok((i, lhs))
    }
}

pub open spec fn parsed_view(r: SyntaxResult<(usize, ExpressionNode)>) -> Parsed {
    match r {
        Ok((j, e)) => Ok((j as int, e@)),
        Err(err) => Err(err),
    }
}

/// The binary operator at index `i`, with its precedence, if there is one
/// of precedence `min` or more.
pub open spec fn operator_at(ts: Seq<TokenView>, i: int, min: u32) -> Option<(BinaryOperator, u32)> {
    if 0 <= i < ts.len() {
        match binary_operator(ts[i].kind) {
            Some((op, p)) => if p >= min {
                Some((op, p))
            } else {
                None
            },
            None => None,
        }
    } else {
        None
    }
}

pub proof fn lemma_postfix_bounds(ts: Seq<TokenView>, i: int, e: Expr)
    requires
        0 <= i <= ts.len(),
    ensures
        i <= postfix(ts, i, e).0 <= ts.len(),
    decreases ts.len() - i,
{
    if 0 <= i < ts.len() && ts[i].kind.postfix_operator() is Some {
        lemma_postfix_bounds(ts, i + 1, Expr::Unary(ts[i].kind.postfix_operator()->0, Box::new(e)));
    }
}

/// A primary expression takes at least one token, and no more than there are.
pub proof fn lemma_progress_primary(ts: Seq<TokenView>, i: int)
    requires
        0 <= i,
    ensures
        parse_primary(ts, i) matches Ok((j, _)) ==> i < j <= ts.len(),
    decreases ts.len() - i, 1int,
{
    if i < ts.len() {
        match ts[i].kind.prefix_operator() {
            Some(op) => lemma_progress_primary(ts, i + 1),
            None => {
                lemma_progress_operand(ts, i);
                if let Ok((j, e)) = parse_operand(ts, i) {
                    lemma_postfix_bounds(ts, j, e);
                }
            },
        }
    }
}

pub proof fn lemma_progress_operand(ts: Seq<TokenView>, i: int)
    requires
        0 <= i,
    ensures
        parse_operand(ts, i) matches Ok((j, _)) ==> i < j <= ts.len(),
    decreases ts.len() - i, 0int,
{
    if i < ts.len() && ts[i].kind == TokenKind::LParen {
        lemma_progress_expression(ts, i + 1);
    }
}

/// An expression takes at least one token, and no more than there are.
pub proof fn lemma_progress_expression(ts: Seq<TokenView>, i: int)
    requires
        0 <= i,
    ensures
        parse_expression(ts, i) matches Ok((j, _)) ==> i < j <= ts.len(),
    decreases ts.len() - i, 2int,
{
    lemma_progress_primary(ts, i);
    if let Ok((j, p)) = parse_primary(ts, i) {
        lemma_progress_product(ts, j, p);
        if let Ok((k, e)) = product_tail(ts, j, p) {
            lemma_progress_sum(ts, k, e);
        }
    }
}

pub proof fn lemma_progress_product(ts: Seq<TokenView>, i: int, lhs: Expr)
    requires
        0 <= i <= ts.len(),
    ensures
        product_tail(ts, i, lhs) matches Ok((j, _)) ==> i <= j <= ts.len(),
    decreases ts.len() - i, 3int,
{
    if 0 <= i < ts.len() && ts[i].kind == TokenKind::Asterisk {
        lemma_progress_primary(ts, i + 1);
        if let Ok((j, rhs)) = parse_primary(ts, i + 1) {
            lemma_progress_product(
                ts,
                j,
                Expr::Binary(BinaryOperator::Mul, Box::new(lhs), Box::new(rhs)),
            );
        }
    }
}

pub proof fn lemma_progress_sum(ts: Seq<TokenView>, i: int, lhs: Expr)
    requires
        0 <= i <= ts.len(),
    ensures
        sum_tail(ts, i, lhs) matches Ok((j, _)) ==> i <= j <= ts.len(),
    decreases ts.len() - i, 4int,
{
    if 0 <= i < ts.len() && ts[i].kind == TokenKind::Plus {
        lemma_progress_primary(ts, i + 1);
        if let Ok((j, p)) = parse_primary(ts, i + 1) {
            lemma_progress_product(ts, j, p);
            if let Ok((k, rhs)) = product_tail(ts, j, p) {
                lemma_progress_sum(
                    ts,
                    k,
                    Expr::Binary(BinaryOperator::Add, Box::new(lhs), Box::new(rhs)),
                );
            }
        }
    }
}

proof fn lemma_wrap_push(ops: Seq<UnaryOperator>, op: UnaryOperator, e: Expr)
    ensures
        wrap(ops.push(op), e) == wrap(ops, Expr::Unary(op, Box::new(e))),
    decreases ops.len(),
{
    let pushed = ops.push(op);
    if ops.len() == 0 {
        assert(pushed.drop_first() =~= Seq::<UnaryOperator>::empty());
        assert(wrap(pushed.drop_first(), e) == e);
        assert(wrap(ops, Expr::Unary(op, Box::new(e))) == Expr::Unary(op, Box::new(e)));
    } else {
        assert(pushed.drop_first() =~= ops.drop_first().push(op));
        lemma_wrap_push(ops.drop_first(), op, e);
        assert(pushed[0] == ops[0]);
        assert(wrap(pushed, e) == Expr::Unary(ops[0], Box::new(wrap(pushed.drop_first(), e))));
    }
}

proof fn lemma_numeral_prefix(s: Seq<char>, k: int)
    requires
        0 <= k <= s.len(),
        forall|j: int| 0 <= j < s.len() ==> spec_is_digit(#[trigger] s[j]),
    ensures
        0 <= numeral_value(s.subrange(0, k)) <= numeral_value(s),
    decreases s.len(),
{
    if k == s.len() {
        assert(s.subrange(0, k) =~= s);
        if s.len() > 0 {
            lemma_numeral_prefix(s.drop_last(), 0);
        }
    } else {
        let d = s.drop_last();
        lemma_numeral_prefix(d, k);
        lemma_numeral_prefix(d, 0);
        assert(d.subrange(0, k) =~= s.subrange(0, k));
    }
}

/// The value of an integer literal's text, if it is a numeral within the range of `i32`.
fn integer_value_of(text: &String) -> (r: Option<i32>)
    ensures
        r == integer_value(text@),
{
    let cs = chars_of(text.as_str());
    if cs.len() == 0 {
        return None;
    }
    let mut value: i64 = 0;
    let mut k: usize = 0;
    while k < cs.len()
        invariant
            cs@ == text@,
            cs@.len() > 0,
            k <= cs@.len(),
            value == numeral_value(cs@.subrange(0, k as int)),
            0 <= value <= i32::MAX,
            forall|j: int| 0 <= j < k ==> spec_is_digit(#[trigger] cs@[j]),
        decreases cs@.len() - k,
    {
        let c = cs[k];
        if !('0' <= c && c <= '9') {
            return None;
        }
        assert(cs@.subrange(0, k + 1).drop_last() =~= cs@.subrange(0, k as int));
        value = value * 10 + (c as u32 - '0' as u32) as i64;
        if value > i32::MAX as i64 {
            proof {
                if is_numeral(cs@) {
                    lemma_numeral_prefix(cs@, k + 1);
                }
            }
            return None;
        }
        k += 1;
    }
    assert(cs@.subrange(0, k as int) =~= cs@);
    Some(value as i32)
}

/// The value of a string literal's text: the text less its first and last character.
fn string_value_of(text: &String) -> (r: String)
    ensures
        r@ == string_value(text@),
{
    let s = text.as_str();
    let n = s.unicode_len();
    if n >= 2 {
        String::from_str(s.substring_char(1, n - 1))
    } else {
        String::new()
    }
}

/// The token at index `i`, or the end-of-input error where there is none.
fn pop_first(tokens: &[Token], i: usize) -> (r: SyntaxResult<&Token>)
    ensures
        match r {
            Ok(t) => i < tokens@.len() && *t == tokens@[i as int],
            Err(e) => i >= tokens@.len() && e == end_of_input(),
        },
{
    if i < tokens.len() {
        Ok(&tokens[i])
    } else {
        Err(SyntaxError { kind: SyntaxErrorKind::UnexpectedEndOfInput, span: None })
    }
}

/// A row of the binary operator table.
#[derive(Clone, Copy)]
struct OperatorInfo {
    token_kind: TokenKind,
    operator: BinaryOperator,
    precedence: u32,
}

/// Reads expressions from tokens, with a fixed table of binary operators.
pub struct Parser {
    operators: Vec<OperatorInfo>,
}

impl Parser {
    #[verifier::type_invariant]
    spec fn table_matches(self) -> bool {
        &&& self.operators@.len() == 2
        &&& self.operators@[0].token_kind == TokenKind::Asterisk
        &&& self.operators@[1].token_kind == TokenKind::Plus
        &&& forall|k: int|
            0 <= k < 2 ==> binary_operator(#[trigger] self.operators@[k].token_kind) == Some(
                (self.operators@[k].operator, self.operators@[k].precedence),
            )
    }

    pub fn new() -> (r: Self) {
        let mut operators: Vec<OperatorInfo> = Vec::new();
        operators.push(
            OperatorInfo {
                token_kind: TokenKind::Asterisk,
                operator: BinaryOperator::Mul,
                precedence: 6,
            },
        );
        operators.push(
            OperatorInfo { token_kind: TokenKind::Plus, operator: BinaryOperator::Add, precedence: 5 },
        );
        Parser { operators }
    }

    /// Reads one expression from the start of `tokens`; returns the tokens
    /// left over after it, and the expression.
    pub fn expression<'a>(&self, tokens: &'a [Token]) -> (r: SyntaxResult<(&'a [Token], ExpressionNode)>)
        ensures
            match parse_expression(token_views(tokens@), 0) {
                Ok((j, e)) => r matches Ok((rest, node)) && rest@ == tokens@.subrange(j, tokens@.len() as int)
                    && node@ == e,
                Err(err) => r matches Err(x) && x == err,
            },
    {
        match self.expression_at(tokens, 0) {
            Ok((j, node)) => Ok((&tokens[j..tokens.len()], node)),
            Err(e) => Err(e),
        }
    }

    fn expression_at(&self, tokens: &[Token], pos: usize) -> (r: SyntaxResult<(usize, ExpressionNode)>)
        requires
            pos <= tokens@.len(),
        ensures
            parsed_view(r) == parse_expression(token_views(tokens@), pos as int),
            r matches Ok((j, _)) ==> pos < j <= tokens@.len(),
        decreases tokens@.len() - pos, 2int,
    {
        let ghost ts = token_views(tokens@);
        let (j, lhs) = match self.primary_expression(tokens, pos) {
            Ok(x) => x,
            Err(e) => {
                return Err(e);
            },
        };
        proof {
            lemma_progress_product(ts, j as int, lhs@);
        }
        self.binary_rhs_expression(tokens, j, lhs, 0)
    }

    /// Extends `lhs` with the binary operators of precedence `min_precedence`
    /// or more that follow from `pos` on.
    fn binary_rhs_expression(
        &self,
        tokens: &[Token],
        pos: usize,
        left: ExpressionNode,
        min_precedence: u32,
    ) -> (r: SyntaxResult<(usize, ExpressionNode)>)
        requires
            pos <= tokens@.len(),
        ensures
            parsed_view(r) == climb(token_views(tokens@), pos as int, left@, min_precedence),
            r matches Ok((j, _)) ==> pos <= j <= tokens@.len() && operator_at(
                token_views(tokens@),
                j as int,
                min_precedence,
            ) is None,
        decreases tokens@.len() - pos, 3int,
    {
        let ghost ts = token_views(tokens@);
        let n_tokens = tokens.len();
        let mut at = pos;
        let mut lhs = left;
        loop
            invariant
                ts == token_views(tokens@),
                n_tokens == tokens@.len(),
                pos <= at <= tokens@.len(),
                climb(ts, pos as int, left@, min_precedence) == climb(
                    ts,
                    at as int,
                    lhs@,
                    min_precedence,
                ),
            decreases tokens@.len() - at,
        {
            let info = match self.read_binary_operator(tokens, at, min_precedence) {
                None => {
                    proof {
                        assert(operator_at(ts, at as int, min_precedence) is None);
                        if at < tokens@.len() {
                            assert(ts[at as int] == tokens@[at as int]@);
                            if min_precedence <= 6 {
                                assert(ts[at as int].kind != TokenKind::Asterisk);
                            }
                            if min_precedence <= 5 {
                                assert(ts[at as int].kind != TokenKind::Plus);
                            }
                        }
                    }
                    return Ok((at, lhs));
                },
                Some(info) => info,
            };
            proof {
                assert(at < tokens@.len());
            }
            let (next, rhs) = match self.primary_expression(tokens, at + 1) {
                Ok(x) => x,
                Err(e) => {
                    return Err(e);
                },
            };
            let next_precedence = info.precedence + 1;
            let (after, rhs) = if self.read_binary_operator(tokens, next, next_precedence).is_some() {
                match self.binary_rhs_expression(tokens, next, rhs, next_precedence) {
                    Ok(x) => x,
                    Err(e) => {
                        return Err(e);
                    },
                }
            } else {
                (next, rhs)
            };
            lhs = ExpressionNode::Binary(info.operator, Box::new(lhs), Box::new(rhs));
            at = after;
        }
    }

    /// The table's operator at `pos`, if there is one of precedence `min_precedence` or more.
    fn read_binary_operator(&self, tokens: &[Token], pos: usize, min_precedence: u32) -> (r: Option<
        OperatorInfo,
    >)
        ensures
            match r {
                Some(info) => operator_at(token_views(tokens@), pos as int, min_precedence) == Some(
                    (info.operator, info.precedence),
                ),
                None => operator_at(token_views(tokens@), pos as int, min_precedence) is None,
            },
    {
        proof {
            use_type_invariant(self);
        }
        if pos >= tokens.len() {
            return None;
        }
        let kind = tokens[pos].kind;
        assert(token_views(tokens@)[pos as int] == tokens@[pos as int]@);
        let mut k: usize = 0;
        while k < self.operators.len()
            invariant
                k <= self.operators@.len(),
                pos < tokens@.len(),
                kind == tokens@[pos as int].kind,
                token_views(tokens@)[pos as int] == tokens@[pos as int]@,
                forall|j: int| 0 <= j < k ==> self.operators@[j].token_kind != kind,
            decreases self.operators@.len() - k,
        {
            let info = self.operators[k];
            if info.token_kind == kind {
                proof {
                    use_type_invariant(self);
                    assert(binary_operator(self.operators@[k as int].token_kind) == Some(
                        (info.operator, info.precedence),
                    ));
                }
                if info.precedence >= min_precedence {
                    return Some(info);
                } else {
                    return None;
                }
            }
            k += 1;
        }
        proof {
            use_type_invariant(self);
        }
        None
    }

    fn primary_expression(&self, tokens: &[Token], pos: usize) -> (r: SyntaxResult<(usize, ExpressionNode)>)
        requires
            pos <= tokens@.len(),
        ensures
            parsed_view(r) == parse_primary(token_views(tokens@), pos as int),
            r matches Ok((j, _)) ==> pos < j <= tokens@.len(),
        decreases tokens@.len() - pos, 1int,
    {
        let ghost ts = token_views(tokens@);
        let n_tokens = tokens.len();
        let mut i = pos;
        let mut prefix_operators: Vec<UnaryOperator> = Vec::new();
        let mut token = match pop_first(tokens, i) {
            Ok(t) => t,
            Err(e) => {
                return Err(e);
            },
        };
        proof {
            assert(prefix_operators@ =~= Seq::<UnaryOperator>::empty());
            match parse_primary(ts, pos as int) {
                Ok((j, e)) => {},
                Err(_) => {},
            }
        }
        loop
            invariant
                ts == token_views(tokens@),
                n_tokens == tokens@.len(),
                pos <= i < tokens@.len(),
                *token == tokens@[i as int],
                parse_primary(ts, pos as int) == wrap_parsed(prefix_operators@, parse_primary(ts, i as int)),
            ensures
                pos <= i < tokens@.len(),
                ts[i as int].kind.prefix_operator() is None,
                parse_primary(ts, pos as int) == wrap_parsed(prefix_operators@, parse_primary(ts, i as int)),
            decreases tokens@.len() - i,
        {
            match token.kind.as_prefix_operator() {
                None => {
                    break;
                },
                Some(unary) => {
                    proof {
                        assert(ts[i as int] == tokens@[i as int]@);
                        assert(seq![unary].drop_first() =~= Seq::<UnaryOperator>::empty());
                        match parse_primary(ts, i + 1) {
                            Ok((j, e)) => {
                                assert(wrap(Seq::<UnaryOperator>::empty(), e) == e);
                                assert(wrap(seq![unary], e) == Expr::Unary(unary, Box::new(e)));
                                lemma_wrap_push(prefix_operators@, unary, e);
                            },
                            Err(_) => {},
                        }
                    }
                    prefix_operators.push(unary);
                    i += 1;
                    token = match pop_first(tokens, i) {
                        Ok(t) => t,
                        Err(e) => {
                            return Err(e);
                        },
                    };
                },
            }
        }
        let (after, core) = match self.operand(tokens, i) {
            Ok(x) => x,
            Err(e) => {
                return Err(e);
            },
        };
        let ghost core_view = core@;
        let mut exp = core;
        let mut j = after;
        loop
            invariant
                ts == token_views(tokens@),
                i < after <= j <= tokens@.len(),
                postfix(ts, after as int, core_view) == postfix(ts, j as int, exp@),
            ensures
                i < after <= j <= tokens@.len(),
                postfix(ts, after as int, core_view) == (j as int, exp@),
            decreases tokens@.len() - j,
        {
            if j >= tokens.len() {
                break;
            }
            match tokens[j].kind.as_postfix_operator() {
                None => {
                    assert(ts[j as int] == tokens@[j as int]@);
                    break;
                },
                Some(unary) => {
                    exp = ExpressionNode::Unary(unary, Box::new(exp));
                    j += 1;
                },
            }
        }
        let ghost applied = exp@;
        let n = prefix_operators.len();
        let mut k = n;
        proof {
            assert(prefix_operators@.subrange(k as int, n as int) =~= Seq::<UnaryOperator>::empty());
        }
        while k > 0
            invariant
                k <= n == prefix_operators@.len(),
                exp@ == wrap(prefix_operators@.subrange(k as int, n as int), applied),
            decreases k,
        {
            k -= 1;
            proof {
                assert(prefix_operators@.subrange(k as int, n as int).drop_first()
                    =~= prefix_operators@.subrange(k + 1, n as int));
            }
            exp = ExpressionNode::Unary(prefix_operators[k], Box::new(exp));
        }
        proof {
            assert(prefix_operators@.subrange(0, n as int) =~= prefix_operators@);
        }
        Ok((j, exp))
    }

    /// A literal or a parenthesised expression at `pos`.
    fn operand(&self, tokens: &[Token], pos: usize) -> (r: SyntaxResult<(usize, ExpressionNode)>)
        requires
            pos < tokens@.len(),
        ensures
            parsed_view(r) == parse_operand(token_views(tokens@), pos as int),
            r matches Ok((j, _)) ==> pos < j <= tokens@.len(),
        decreases tokens@.len() - pos, 0int,
    {
        let token = &tokens[pos];
        match token.kind {
            TokenKind::Integer => match integer_value_of(&token.text) {
                Some(v) => Ok((pos + 1, ExpressionNode::Integer(v))),
                None => SyntaxError::from_token(token, SyntaxErrorKind::LiteralOutOfRange),
            },
            TokenKind::LParen => {
                let (j, exp) = match self.expression_at(tokens, pos + 1) {
                    Ok(x) => x,
                    Err(e) => {
                        return Err(e);
                    },
                };
                if j < tokens.len() {
                    let closing = &tokens[j];
                    if closing.kind == TokenKind::RParen {
                        Ok((j + 1, exp))
                    } else {
                        SyntaxError::from_token(
                            closing,
                            SyntaxErrorKind::UnclosedParenthesis {
                                open: token.start,
                                found: Some(closing.kind),
                            },
                        )
                    }
                } else {
                    SyntaxError::from_token(
                        token,
                        SyntaxErrorKind::UnclosedParenthesis { open: token.start, found: None },
                    )
                }
            },
            TokenKind::String => Ok((pos + 1, ExpressionNode::String(string_value_of(&token.text)))),
            _ => SyntaxError::from_token(
                token,
                SyntaxErrorKind::ExpectedLiteralOrGroup { kind: token.kind },
            ),
        }
    }
}

} // verus!
