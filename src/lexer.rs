use vstd::prelude::*;

use crate::text::{chars_of, string_of};
use crate::{
    pos, token_views, Span, SyntaxError, SyntaxErrorKind, SyntaxResult, TextPosition, Token,
    TokenKind, TokenView,
};

verus! {

pub open spec fn spec_is_whitespace(c: char) -> bool {
    c == ' ' || c == '\r' || c == '\n' || c == '\t'
}

pub open spec fn spec_is_digit(c: char) -> bool {
    '0' <= c && c <= '9'
}

pub open spec fn spec_is_identifier_start(c: char) -> bool {
    ('a' <= c && c <= 'z') || ('A' <= c && c <= 'Z') || c == '_'
}

pub open spec fn spec_is_identifier_body(c: char) -> bool {
    spec_is_identifier_start(c) || spec_is_digit(c)
}

pub open spec fn spec_is_quote(c: char) -> bool {
    c == '"'
}

/// The characters that a run read by the lexer may hold.
#[derive(Clone, Copy)]
pub enum CharClass {
    /// Letters, digits and `_`: the rest of an identifier.
    IdentifierBody,
    /// Decimal digits: the rest of an integer literal.
    Digit,
    /// Anything but `"`: the inside of a string literal.
    StringBody,
    /// Anything but a line break: the rest of a line.
    LineBody,
}

pub open spec fn in_class(cls: CharClass, c: char) -> bool {
    match cls {
        CharClass::IdentifierBody => spec_is_identifier_body(c),
        CharClass::Digit => spec_is_digit(c),
        CharClass::StringBody => !spec_is_quote(c),
        CharClass::LineBody => c != '\n',
    }
}

/// Where the longest run of characters of class `cls` that starts at `i` in `s` ends.
pub open spec fn run_end(s: Seq<char>, i: int, cls: CharClass) -> int
    decreases s.len() - i,
{
    if 0 <= i < s.len() && in_class(cls, s[i]) {
        run_end(s, i + 1, cls)
    } else {
        i
    }
}

/// The kind of the keyword spelled `text`, if it is one.
pub open spec fn keyword(text: Seq<char>) -> Option<TokenKind> {
    if text == seq!['f', 'n'] {
        Some(TokenKind::FnKeyword)
    } else {
        None
    }
}

/// The operator or punctuation token that starts with `c`, followed by `next`,
/// with its width: two characters where they form one, else one.
pub open spec fn operator(c: char, next: Option<char>) -> Option<(TokenKind, int)> {
    if c == '+' && next == Some('+') {
        Some((TokenKind::PlusPlus, 2))
    } else if c == '+' && next == Some('=') {
        Some((TokenKind::PlusEqual, 2))
    } else if c == '-' && next == Some('-') {
        Some((TokenKind::MinusMinus, 2))
    } else if c == '-' && next == Some('=') {
        Some((TokenKind::MinusEqual, 2))
    } else if c == '*' && next == Some('=') {
        Some((TokenKind::AsteriskEqual, 2))
    } else if c == '+' {
        Some((TokenKind::Plus, 1))
    } else if c == '-' {
        Some((TokenKind::Minus, 1))
    } else if c == '*' {
        Some((TokenKind::Asterisk, 1))
    } else if c == '(' {
        Some((TokenKind::LParen, 1))
    } else if c == ')' {
        Some((TokenKind::RParen, 1))
    } else {
        None
    }
}

/// The token of kind `kind` made of the characters `i .. e` of `s`.
pub open spec fn token_at(s: Seq<char>, i: int, e: int, kind: TokenKind) -> TokenView {
    TokenView { text: s.subrange(i, e), start: pos(i), end: pos(e), kind }
}

/// The token that starts at `i`, a character of `s` that is not whitespace.
pub open spec fn scan_token(s: Seq<char>, i: int) -> SyntaxResult<TokenView> {
    let c = s[i];
    if spec_is_identifier_start(c) {
        let e = run_end(s, i + 1, CharClass::IdentifierBody);
        let kind = match keyword(s.subrange(i, e)) {
            Some(k) => k,
            None => TokenKind::Identifier,
        };
        Ok(token_at(s, i, e, kind))
    } else if spec_is_digit(c) {
        Ok(token_at(s, i, run_end(s, i + 1, CharClass::Digit), TokenKind::Integer))
    } else if spec_is_quote(c) {
        let e = run_end(s, i + 1, CharClass::StringBody);
        if e < s.len() {
            Ok(token_at(s, i, e + 1, TokenKind::String))
        } else {
            Err(
                SyntaxError {
                    kind: SyntaxErrorKind::UnclosedString,
                    span: Some(Span { start: pos(i), end: pos(e + 1) }),
                },
            )
        }
    } else {
        let next = if i + 1 < s.len() {
            Some(s[i + 1])
        } else {
            None
        };
        match operator(c, next) {
            Some((kind, w)) => Ok(token_at(s, i, i + w, kind)),
            None => Err(
                SyntaxError {
                    kind: SyntaxErrorKind::UnexpectedSymbol { symbol: c },
                    span: Some(Span { start: pos(i), end: pos(i) }),
                },
            ),
        }
    }
}

/// `ts` followed by the tokens of `r`, or the error of `r`.
pub open spec fn prepend(ts: Seq<TokenView>, r: SyntaxResult<Seq<TokenView>>) -> SyntaxResult<
    Seq<TokenView>,
> {
    match r {
        Ok(rest) => Ok(ts + rest),
        Err(e) => Err(e),
    }
}

/// The tokens of the line `s` from offset `i` on, or the first error there.
/// (Every token ends past its start and within the line, so the guard on
/// `t.end` always holds; it makes termination evident.)
pub open spec fn lex_from(s: Seq<char>, i: int) -> SyntaxResult<Seq<TokenView>>
    decreases s.len() - i,
{
    if i < 0 || i >= s.len() {
        Ok(Seq::empty())
    } else if spec_is_whitespace(s[i]) {
        lex_from(s, i + 1)
    } else {
        match scan_token(s, i) {
            Err(e) => Err(e),
            Ok(t) => if i < t.end.index <= s.len() {
                prepend(seq![t], lex_from(s, t.end.index as int))
            } else {
                Ok(seq![t])
            },
        }
    }
}

/// The tokens of one line, positions counted from its start.
pub open spec fn lex_line(s: Seq<char>) -> SyntaxResult<Seq<TokenView>> {
    lex_from(s, 0)
}

/// A line without the carriage return that may end it.
pub open spec fn strip_cr(l: Seq<char>) -> Seq<char> {
    if l.len() > 0 && l.last() == '\r' {
        l.drop_last()
    } else {
        l
    }
}

/// The tokens of the lines of `s` that start at offset `i` or later.
pub open spec fn lex_lines_from(s: Seq<char>, i: int) -> SyntaxResult<Seq<TokenView>>
    decreases s.len() - i,
{
    if i < 0 || i >= s.len() {
        Ok(Seq::empty())
    } else {
        let e = run_end(s, i, CharClass::LineBody);
        match lex_line(strip_cr(s.subrange(i, e))) {
            Err(err) => Err(err),
            Ok(ts) => if i <= e < s.len() {
                prepend(ts, lex_lines_from(s, e + 1))
            } else {
                Ok(ts)
            },
        }
    }
}

/// The tokens of a text: each line (split at `'\n'`, less a final `'\r'`)
/// lexed on its own, positions counted from the line's start.
pub open spec fn lex_text(s: Seq<char>) -> SyntaxResult<Seq<TokenView>> {
    lex_lines_from(s, 0)
}

pub open spec fn token_result_view(r: SyntaxResult<Token>) -> SyntaxResult<TokenView> {
    match r {
        Ok(t) => Ok(t@),
        Err(e) => Err(e),
    }
}

pub proof fn lemma_run_end_bounds(s: Seq<char>, i: int, cls: CharClass)
    requires
        0 <= i <= s.len(),
    ensures
        i <= run_end(s, i, cls) <= s.len(),
    decreases s.len() - i,
{
    if i < s.len() && in_class(cls, s[i]) {
        lemma_run_end_bounds(s, i + 1, cls);
    }
}

/// Every token of a line spans as many positions as its text has characters.
pub proof fn lemma_token_width(s: Seq<char>)
    requires
        s.len() < usize::MAX,
    ensures
        lex_line(s) matches Ok(ts) ==> forall|k: int|
            0 <= k < ts.len() ==> #[trigger] ts[k].end.index - ts[k].start.index == ts[k].text.len(),
{
    lemma_token_width_from(s, 0);
}

/// The tokens of a line lie within it, in order, without overlapping.
pub proof fn lemma_tokens_ordered(s: Seq<char>)
    requires
        s.len() < usize::MAX,
    ensures
        lex_line(s) matches Ok(ts) ==> {
            &&& forall|k: int|
                0 <= k < ts.len() ==> #[trigger] ts[k].start.index < ts[k].end.index <= s.len()
            &&& forall|k: int|
                0 <= k < ts.len() - 1 ==> #[trigger] ts[k].end.index <= ts[k + 1].start.index
        },
{
    lemma_tokens_ordered_from(s, 0);
}

proof fn lemma_tokens_ordered_from(s: Seq<char>, i: int)
    requires
        0 <= i <= s.len() < usize::MAX,
    ensures
        lex_from(s, i) matches Ok(ts) ==> {
            &&& forall|k: int|
                0 <= k < ts.len() ==> i <= #[trigger] ts[k].start.index < ts[k].end.index <= s.len()
            &&& forall|k: int|
                0 <= k < ts.len() - 1 ==> #[trigger] ts[k].end.index <= ts[k + 1].start.index
        },
    decreases s.len() - i,
{
    if i < s.len() {
        if spec_is_whitespace(s[i]) {
            lemma_tokens_ordered_from(s, i + 1);
        } else if let Ok(t) = scan_token(s, i) {
            lemma_run_end_bounds(s, i + 1, CharClass::IdentifierBody);
            lemma_run_end_bounds(s, i + 1, CharClass::Digit);
            lemma_run_end_bounds(s, i + 1, CharClass::StringBody);
            assert(t.start.index == i && i < t.end.index <= s.len());
            if i < t.end.index <= s.len() {
                let j = t.end.index as int;
                lemma_tokens_ordered_from(s, j);
                if let Ok(rest) = lex_from(s, j) {
                    let ts = seq![t] + rest;
                    assert forall|k: int| 0 <= k < ts.len() implies i <= #[trigger] ts[k].start.index
                        < ts[k].end.index <= s.len() by {
                        if k > 0 {
                            assert(ts[k] == rest[k - 1]);
                        }
                    }
                    assert forall|k: int| 0 <= k < ts.len() - 1 implies #[trigger] ts[k].end.index
                        <= ts[k + 1].start.index by {
                        assert(ts[k + 1] == rest[k]);
                        if k > 0 {
                            assert(ts[k] == rest[k - 1]);
                        }
                    }
                }
            }
        }
    }
}

/// Every token of a text spans as many positions as its text has characters.
pub proof fn lemma_text_token_width(s: Seq<char>)
    requires
        s.len() < usize::MAX,
    ensures
        lex_text(s) matches Ok(ts) ==> forall|k: int|
            0 <= k < ts.len() ==> #[trigger] ts[k].end.index - ts[k].start.index == ts[k].text.len(),
{
    lemma_lines_token_width(s, 0);
}

proof fn lemma_lines_token_width(s: Seq<char>, i: int)
    requires
        0 <= i,
        s.len() < usize::MAX,
    ensures
        lex_lines_from(s, i) matches Ok(ts) ==> forall|k: int|
            0 <= k < ts.len() ==> #[trigger] ts[k].end.index - ts[k].start.index == ts[k].text.len(),
    decreases s.len() - i,
{
    if i < s.len() {
        let e = run_end(s, i, CharClass::LineBody);
        lemma_run_end_bounds(s, i, CharClass::LineBody);
        let line = strip_cr(s.subrange(i, e));
        lemma_token_width(line);
        if let Ok(ts) = lex_line(line) {
            if i <= e < s.len() {
                lemma_lines_token_width(s, e + 1);
                if let Ok(rest) = lex_lines_from(s, e + 1) {
                    let all = ts + rest;
                    assert forall|k: int| 0 <= k < all.len() implies #[trigger] all[k].end.index
                        - all[k].start.index == all[k].text.len() by {
                        if k >= ts.len() {
                            assert(all[k] == rest[k - ts.len()]);
                        } else {
                            assert(all[k] == ts[k]);
                        }
                    }
                }
            }
        }
    }
}

proof fn lemma_token_width_from(s: Seq<char>, i: int)
    requires
        0 <= i <= s.len() < usize::MAX,
    ensures
        lex_from(s, i) matches Ok(ts) ==> forall|k: int|
            0 <= k < ts.len() ==> #[trigger] ts[k].end.index - ts[k].start.index == ts[k].text.len(),
    decreases s.len() - i,
{
    if i < s.len() {
        if spec_is_whitespace(s[i]) {
            lemma_token_width_from(s, i + 1);
        } else {
            lemma_run_end_bounds(s, i + 1, CharClass::IdentifierBody);
            lemma_run_end_bounds(s, i + 1, CharClass::Digit);
            lemma_run_end_bounds(s, i + 1, CharClass::StringBody);
            if let Ok(t) = scan_token(s, i) {
                assert(t.end.index - t.start.index == t.text.len());
                if i < t.end.index <= s.len() {
                    lemma_token_width_from(s, t.end.index as int);
                    if let Ok(rest) = lex_from(s, t.end.index as int) {
                        let ts = seq![t] + rest;
                        assert forall|k: int| 0 <= k < ts.len() implies #[trigger] ts[k].end.index
                            - ts[k].start.index == ts[k].text.len() by {
                            if k > 0 {
                                assert(ts[k] == rest[k - 1]);
                            }
                        }
                    }
                }
            }
        }
    }
}

pub struct Lexer {
    keyword_mapping: Vec<(String, TokenKind)>,
}

impl Lexer {
    #[verifier::type_invariant]
    spec fn keywords_match(self) -> bool {
        &&& self.keyword_mapping@.len() == 1
        &&& self.keyword_mapping@[0].0@ == seq!['f', 'n']
        &&& self.keyword_mapping@[0].1 == TokenKind::FnKeyword
    }

    pub fn new() -> (r: Self) {
        let mut keyword_mapping: Vec<(String, TokenKind)> = Vec::new();
        let text = String::from_str("fn");
        proof {
            reveal_strlit("fn");
        }
        assert(text@ == seq!['f', 'n']);
        keyword_mapping.push((text, TokenKind::FnKeyword));
        Lexer { keyword_mapping }
    }

    /// The kind of the keyword spelled `text`, if it is one.
    fn lookup_keyword(&self, text: &String) -> (r: Option<TokenKind>)
        ensures
            r == keyword(text@),
    {
        proof {
            use_type_invariant(self);
        }
        let mut k: usize = 0;
        while k < self.keyword_mapping.len()
            invariant
                k <= self.keyword_mapping@.len(),
                forall|j: int| 0 <= j < k ==> self.keyword_mapping@[j].0@ != text@,
            decreases self.keyword_mapping.len() - k,
        {
            if self.keyword_mapping[k].0 == *text {
                proof {
                    use_type_invariant(self);
                }
                return Some(self.keyword_mapping[k].1);
            }
            k += 1;
        }
        None
    }
}


impl Lexer {
    /// The tokens of `input`, or the first lexical error in it. Each line is
    /// lexed on its own, with positions counted from the start of the line.
    pub fn lex(&self, input: &str) -> (r: SyntaxResult<Vec<Token>>)
        requires
            input@.len() < usize::MAX,
        ensures
            match lex_text(input@) {
                Ok(ts) => r matches Ok(tokens) && token_views(tokens@) == ts,
                Err(e) => r == Err::<Vec<Token>, SyntaxError>(e),
            },
    {
        let chars = chars_of(input);
        let text = chars.as_slice();
        let mut tokens: Vec<Token> = Vec::new();
        let mut start: usize = 0;
        while start < text.len()
            invariant
                text@ == input@,
                text@.len() < usize::MAX,
                start <= text@.len(),
                lex_text(text@) == prepend(token_views(tokens@), lex_lines_from(text@, start as int)),
            decreases text@.len() - start,
        {
            let end = read_while(text, start, CharClass::LineBody);
            let mut line_end = end;
            if line_end > start && text[line_end - 1] == '\r' {
                line_end -= 1;
            }
            let line = &text[start..line_end];
            proof {
                assert(line@ == strip_cr(text@.subrange(start as int, end as int)));
            }
            let ghost before = tokens@;
            match self.line(line, &mut tokens) {
                Err(e) => {
                    return Err(e);
                },
                Ok(()) => {},
            }
            proof {
                let ts = lex_line(line@)->Ok_0;
                assert(token_views(tokens@) == token_views(before) + ts);
                if end < text@.len() {
                    assert(prepend(token_views(before), prepend(ts, lex_lines_from(text@, end + 1)))
                        == prepend(token_views(tokens@), lex_lines_from(text@, end + 1))) by {
                        match lex_lines_from(text@, end + 1) {
                            Ok(rest) => {
                                assert(token_views(before) + (ts + rest) =~= token_views(tokens@) + rest);
                            },
                            Err(_) => {},
                        }
                    }
                } else {
                    assert(token_views(tokens@) =~= token_views(tokens@) + Seq::<TokenView>::empty());
                }
            }
            start = if end < text.len() { end + 1 } else { end };
        }
        proof {
            assert(token_views(tokens@) =~= token_views(tokens@) + Seq::<TokenView>::empty());
        }
        Ok(tokens)
    }

    /// Lexes one line, appending its tokens to `result`.
    fn line(&self, line: &[char], result: &mut Vec<Token>) -> (r: SyntaxResult<()>)
        requires
            line@.len() < usize::MAX,
        ensures
            match lex_line(line@) {
                Ok(ts) => r is Ok && token_views(final(result)@) == token_views(old(result)@) + ts,
                Err(e) => r == Err::<(), SyntaxError>(e),
            },
    {
        let ghost pushed: Seq<TokenView> = Seq::empty();
        let mut i: usize = 0;
        proof {
            assert(token_views(result@) =~= token_views(old(result)@) + pushed);
            assert(lex_from(line@, 0) =~= prepend(pushed, lex_from(line@, 0))) by {
                match lex_from(line@, 0) {
                    Ok(ts) => {
                        assert(pushed + ts =~= ts);
                    },
                    Err(_) => {},
                }
            }
        }
        while i < line.len()
            invariant
                i <= line@.len() < usize::MAX,
                token_views(result@) == token_views(old(result)@) + pushed,
                lex_line(line@) == prepend(pushed, lex_from(line@, i as int)),
            decreases line@.len() - i,
        {
            let c = line[i];
            if is_whitespace(c) {
                i += 1;
            } else {
                let token = if is_identifier_start(c) {
                    self.identifier(line, i)
                } else if is_digit(c) {
                    self.integer(line, i)
                } else if is_quote(c) {
                    match self.string(line, i) {
                        Ok(t) => t,
                        Err(e) => {
                            return Err(e);
                        },
                    }
                } else {
                    match self.symbol(line, i) {
                        Ok(t) => t,
                        Err(e) => {
                            return Err(e);
                        },
                    }
                };
                proof {
                    let t = token@;
                    assert(lex_from(line@, i as int) == prepend(seq![t], lex_from(line@, t.end.index as int)));
                    assert(token_views(result@.push(token)) =~= token_views(result@).push(t));
                    assert(prepend(pushed, prepend(seq![t], lex_from(line@, t.end.index as int)))
                        == prepend(pushed.push(t), lex_from(line@, t.end.index as int))) by {
                        match lex_from(line@, t.end.index as int) {
                            Ok(rest) => {
                                assert(pushed + (seq![t] + rest) =~= pushed.push(t) + rest);
                            },
                            Err(_) => {},
                        }
                    }
                    pushed = pushed.push(t);
                    assert(token_views(old(result)@) + pushed =~= token_views(result@).push(t));
                }
                i = token.end.index;
                result.push(token);
            }
        }
        proof {
            assert(token_views(result@) =~= token_views(old(result)@) + pushed);
        }
        Ok(())
    }

    /// The identifier or keyword token that starts at `start`.
    fn identifier(&self, line: &[char], start: usize) -> (r: Token)
        requires
            start < line@.len() < usize::MAX,
            spec_is_identifier_start(line@[start as int]),
        ensures
            Ok::<TokenView, SyntaxError>(r@) == scan_token(line@, start as int),
            start < r.end.index <= line@.len(),
    {
        let end = read_while(line, start + 1, CharClass::IdentifierBody);
        let text = string_of(&line[start..end]);
        let kind = match self.lookup_keyword(&text) {
            Some(k) => k,
            None => TokenKind::Identifier,
        };
        Token { text, start: TextPosition { index: start }, end: TextPosition { index: end }, kind }
    }

    /// The integer literal token that starts at `start`.
    fn integer(&self, line: &[char], start: usize) -> (r: Token)
        requires
            start < line@.len() < usize::MAX,
            spec_is_digit(line@[start as int]),
        ensures
            Ok::<TokenView, SyntaxError>(r@) == scan_token(line@, start as int),
            start < r.end.index <= line@.len(),
    {
        let end = read_while(line, start + 1, CharClass::Digit);
        let text = string_of(&line[start..end]);
        Token {
            text,
            start: TextPosition { index: start },
            end: TextPosition { index: end },
            kind: TokenKind::Integer,
        }
    }

    /// The string literal token that starts at `start`, quotes included.
    fn string(&self, line: &[char], start: usize) -> (r: SyntaxResult<Token>)
        requires
            start < line@.len() < usize::MAX,
            spec_is_quote(line@[start as int]),
        ensures
            token_result_view(r) == scan_token(line@, start as int),
            r matches Ok(t) ==> start < t.end.index <= line@.len(),
    {
        let body_end = read_while(line, start + 1, CharClass::StringBody);
        if body_end < line.len() {
            let text = string_of(&line[start..body_end + 1]);
            Ok(
                Token {
                    text,
                    start: TextPosition { index: start },
                    end: TextPosition { index: body_end + 1 },
                    kind: TokenKind::String,
                },
            )
        } else {
            SyntaxError::at_range(
                TextPosition { index: start },
                TextPosition { index: body_end + 1 },
                SyntaxErrorKind::UnclosedString,
            )
        }
    }

    /// The operator or punctuation token that starts at `start`.
    fn symbol(&self, line: &[char], start: usize) -> (r: SyntaxResult<Token>)
        requires
            start < line@.len() < usize::MAX,
            !spec_is_identifier_start(line@[start as int]),
            !spec_is_digit(line@[start as int]),
            !spec_is_quote(line@[start as int]),
        ensures
            token_result_view(r) == scan_token(line@, start as int),
            r matches Ok(t) ==> start < t.end.index <= line@.len(),
    {
        let c = line[start];
        let next = if start + 1 < line.len() {
            Some(line[start + 1])
        } else {
            None
        };
        let (kind, width): (TokenKind, usize) = match (c, next) {
            ('+', Some('+')) => (TokenKind::PlusPlus, 2),
            ('+', Some('=')) => (TokenKind::PlusEqual, 2),
            ('-', Some('-')) => (TokenKind::MinusMinus, 2),
            ('-', Some('=')) => (TokenKind::MinusEqual, 2),
            ('*', Some('=')) => (TokenKind::AsteriskEqual, 2),
            ('+', _) => (TokenKind::Plus, 1),
            ('-', _) => (TokenKind::Minus, 1),
            ('*', _) => (TokenKind::Asterisk, 1),
            ('(', _) => (TokenKind::LParen, 1),
            (')', _) => (TokenKind::RParen, 1),
            _ => {
                return SyntaxError::at_pos(
                    TextPosition { index: start },
                    SyntaxErrorKind::UnexpectedSymbol { symbol: c },
                );
            },
        };
        let text = string_of(&line[start..start + width]);
        Ok(
            Token {
                text,
                start: TextPosition { index: start },
                end: TextPosition { index: start + width },
                kind,
            },
        )
    }
}

/// Where the run of characters of class `cls` that starts at `start` ends.
fn read_while(line: &[char], start: usize, cls: CharClass) -> (end: usize)
    requires
        start <= line@.len(),
    ensures
        end == run_end(line@, start as int, cls),
        start <= end <= line@.len(),
{
    let mut end = start;
    while end < line.len() && in_char_class(cls, line[end])
        invariant
            start <= end <= line@.len(),
            run_end(line@, start as int, cls) == run_end(line@, end as int, cls),
        decreases line@.len() - end,
    {
        end += 1;
    }
    end
}

fn in_char_class(cls: CharClass, c: char) -> (r: bool)
    ensures
        r == in_class(cls, c),
{
    match cls {
        CharClass::IdentifierBody => is_identifier_body(c),
        CharClass::Digit => is_digit(c),
        CharClass::StringBody => !is_quote(c),
        CharClass::LineBody => c != '\n',
    }
}

fn is_whitespace(c: char) -> (r: bool)
    ensures
        r == spec_is_whitespace(c),
{
    c == ' ' || c == '\r' || c == '\n' || c == '\t'
}

fn is_digit(c: char) -> (r: bool)
    ensures
        r == spec_is_digit(c),
{
    '0' <= c && c <= '9'
}

fn is_identifier_start(c: char) -> (r: bool)
    ensures
        r == spec_is_identifier_start(c),
{
    ('a' <= c && c <= 'z') || ('A' <= c && c <= 'Z') || c == '_'
}

fn is_identifier_body(c: char) -> (r: bool)
    ensures
        r == spec_is_identifier_body(c),
{
    is_identifier_start(c) || is_digit(c)
}

fn is_quote(c: char) -> (r: bool)
    ensures
        r == spec_is_quote(c),
{
    c == '"'
}

} // verus!
