//! Tokens, and the lexer that turns source characters into them.
use vstd::prelude::*;
use vstd::string::*;
use vstd::std_specs::iter::IteratorSpec;
use crate::chars::{
    alphabetic_class, is_alphabetic, is_alphanumeric, is_literal, is_numeric,
    is_whitespace, numeric_class, owned, push_char, whitespace_class,
};

verus! {

/// One lexical unit of the source.
#[derive(Debug, Clone, PartialEq)]
pub enum Token {
    OpenBracket,
    CloseBracket,
    Colon,
    Comma,
    Arrow,
    Identifier(String),
    /// A numeric literal, held as its decimal numeral (`12`, `-0.5`).
    Number(String),
    String(String),
    Keyword(String),
    Plus,
    Minus,
    Star,
    Slash,
    Eq,
    NotEq,
    Gt,
    Lt,
    GtEq,
    LtEq,
    And,
    Or,
    Not,
    /// The end of the input.
    Eof,
}

/// The mathematical model of a [`Token`].
pub enum TokenView {
    OpenBracket,
    CloseBracket,
    Colon,
    Comma,
    Arrow,
    Identifier(Seq<char>),
    Number(Seq<char>),
    String(Seq<char>),
    Keyword(Seq<char>),
    Plus,
    Minus,
    Star,
    Slash,
    Eq,
    NotEq,
    Gt,
    Lt,
    GtEq,
    LtEq,
    And,
    Or,
    Not,
    Eof,
}

impl View for Token {
    type V = TokenView;

    open spec fn view(&self) -> TokenView {
        match self {
            Token::OpenBracket => TokenView::OpenBracket,
            Token::CloseBracket => TokenView::CloseBracket,
            Token::Colon => TokenView::Colon,
            Token::Comma => TokenView::Comma,
            Token::Arrow => TokenView::Arrow,
            Token::Identifier(s) => TokenView::Identifier(s@),
            Token::Number(n) => TokenView::Number(n@),
            Token::String(s) => TokenView::String(s@),
            Token::Keyword(k) => TokenView::Keyword(k@),
            Token::Plus => TokenView::Plus,
            Token::Minus => TokenView::Minus,
            Token::Star => TokenView::Star,
            Token::Slash => TokenView::Slash,
            Token::Eq => TokenView::Eq,
            Token::NotEq => TokenView::NotEq,
            Token::Gt => TokenView::Gt,
            Token::Lt => TokenView::Lt,
            Token::GtEq => TokenView::GtEq,
            Token::LtEq => TokenView::LtEq,
            Token::And => TokenView::And,
            Token::Or => TokenView::Or,
            Token::Not => TokenView::Not,
            Token::Eof => TokenView::Eof,
        }
    }
}

/// How a token is written in source; a string gets its double quotes back.
pub open spec fn token_display(t: TokenView) -> Seq<char> {
    match t {
        TokenView::OpenBracket => "["@,
        TokenView::CloseBracket => "]"@,
        TokenView::Colon => ":"@,
        TokenView::Comma => ","@,
        TokenView::Arrow => "->"@,
        TokenView::Identifier(s) => s,
        TokenView::Number(n) => n,
        TokenView::String(s) => "\""@ + s + "\""@,
        TokenView::Keyword(k) => k,
        TokenView::Plus => "+"@,
        TokenView::Minus => "-"@,
        TokenView::Star => "*"@,
        TokenView::Slash => "/"@,
        TokenView::Eq => "="@,
        TokenView::NotEq => "!="@,
        TokenView::Gt => ">"@,
        TokenView::Lt => "<"@,
        TokenView::GtEq => ">="@,
        TokenView::LtEq => "<="@,
        TokenView::And => "and"@,
        TokenView::Or => "or"@,
        TokenView::Not => "not"@,
        TokenView::Eof => "EOF"@,
    }
}

impl Token {
    /// The token as written in source; the end of input shows as `EOF`.
    pub fn to_display_string(&self) -> (r: String)
        ensures
            r@ == token_display(self@),
    {
        match self {
            Token::OpenBracket => owned("["),
            Token::CloseBracket => owned("]"),
            Token::Colon => owned(":"),
            Token::Comma => owned(","),
            Token::Arrow => owned("->"),
            Token::Identifier(s) => s.clone(),
            Token::Number(n) => n.clone(),
            Token::String(s) => owned("\"").concat(s.as_str()).concat("\""),
            Token::Keyword(k) => k.clone(),
            Token::Plus => owned("+"),
            Token::Minus => owned("-"),
            Token::Star => owned("*"),
            Token::Slash => owned("/"),
            Token::Eq => owned("="),
            Token::NotEq => owned("!="),
            Token::Gt => owned(">"),
            Token::Lt => owned("<"),
            Token::GtEq => owned(">="),
            Token::LtEq => owned("<="),
            Token::And => owned("and"),
            Token::Or => owned("or"),
            Token::Not => owned("not"),
            Token::Eof => owned("EOF"),
        }
    }
}

/// Why the source could not be split into tokens.
#[derive(Debug, Clone, Copy, PartialEq, Eq, Structural)]
pub enum LexError {
    /// A `/*` comment with no `*/`.
    UnclosedBlockComment,
    /// A numeral with a digit that is not an ASCII digit.
    InvalidNumber,
    /// A string literal with no closing quote.
    UnterminatedString,
    /// A `!` not followed by `=`.
    UnexpectedBang,
    /// A character that starts no token.
    UnexpectedCharacter(char),
}

/// The character at `p`, if `p` is inside the input.
pub open spec fn char_at(input: Seq<char>, p: int) -> Option<char> {
    if 0 <= p < input.len() {
        Some(input[p])
    } else {
        None
    }
}

/// The first position at or after `p` that does not hold whitespace.
pub open spec fn skip_ws(input: Seq<char>, p: int) -> int
    decreases input.len() - p,
{
    if 0 <= p < input.len() && whitespace_class(input[p]) {
        skip_ws(input, p + 1)
    } else {
        p
    }
}

/// The position just after the first newline at or after `p`, or the end.
pub open spec fn line_comment_end(input: Seq<char>, p: int) -> int
    decreases input.len() - p,
{
    if 0 <= p < input.len() {
        if input[p] == '\n' {
            p + 1
        } else {
            line_comment_end(input, p + 1)
        }
    } else {
        p
    }
}

/// The position just after the first `*/` at or after `p`, if there is one.
pub open spec fn block_comment_end(input: Seq<char>, p: int) -> Option<int>
    decreases input.len() - p,
{
    if 0 <= p < input.len() {
        if input[p] == '*' && char_at(input, p + 1) == Some('/') {
            Some(p + 2)
        } else {
            block_comment_end(input, p + 1)
        }
    } else {
        None
    }
}

/// Whether `c` may continue an identifier.
pub open spec fn ident_char(c: char) -> bool {
    alphabetic_class(c) || numeric_class(c) || c == '_' || c == '-'
}

/// The end of the identifier that starts at `p`.
pub open spec fn ident_end(input: Seq<char>, p: int) -> int
    decreases input.len() - p,
{
    if 0 <= p < input.len() && ident_char(input[p]) {
        ident_end(input, p + 1)
    } else {
        p
    }
}

/// The end of the numeral that starts at `p`: numeric characters, with at
/// most one `.`, taken only when a numeric character follows it. `dot` tells
/// whether a `.` was already taken.
pub open spec fn number_end(input: Seq<char>, p: int, dot: bool) -> int
    decreases input.len() - p,
{
    if 0 <= p < input.len() {
        let c = input[p];
        if numeric_class(c) {
            number_end(input, p + 1, dot)
        } else if c == '.' && !dot && (char_at(input, p + 1) matches Some(d) && numeric_class(d)) {
            number_end(input, p + 1, true)
        } else {
            p
        }
    } else {
        p
    }
}

/// Whether a numeral denotes a number: it is not empty and all of its
/// characters are ASCII digits or the decimal point.
pub open spec fn numeral_ok(s: Seq<char>) -> bool {
    s.len() > 0 && forall|i: int| 0 <= i < s.len() ==> numeral_char(#[trigger] s[i])
}

/// An ASCII digit or the decimal point.
pub open spec fn numeral_char(c: char) -> bool {
    c == '.' || ('0' <= c && c <= '9')
}

/// The character that the escape `\c` stands for.
pub open spec fn escaped(c: char) -> char {
    if c == 'n' {
        '\n'
    } else if c == 't' {
        '\t'
    } else {
        c
    }
}

/// Reads the body of a string literal from `p` up to the closing `quote`,
/// after the characters `acc` already read: the contents and the position
/// after the closing quote.
pub open spec fn scan_string(input: Seq<char>, p: int, quote: char, acc: Seq<char>) -> Result<
    (Seq<char>, int),
    LexError,
>
    decreases input.len() - p,
{
    if 0 <= p < input.len() {
        let c = input[p];
        if c == quote {
            Ok((acc, p + 1))
        } else if c == '\\' {
            if p + 1 < input.len() {
                scan_string(input, p + 2, quote, acc.push(escaped(input[p + 1])))
            } else {
                Err(LexError::UnterminatedString)
            }
        } else {
            scan_string(input, p + 1, quote, acc.push(c))
        }
    } else {
        Err(LexError::UnterminatedString)
    }
}

/// The position of the next token at or after `p`, past whitespace and
/// comments.
pub open spec fn skip_trivia(input: Seq<char>, p: int) -> Result<int, LexError>
    decreases input.len() - p,
{
    let q = skip_ws(input, p);
    if char_at(input, q) == Some('/') && char_at(input, q + 1) == Some('/') {
        let e = line_comment_end(input, q + 2);
        if p < e <= input.len() {
            skip_trivia(input, e)
        } else {
            Ok(e)
        }
    } else if char_at(input, q) == Some('/') && char_at(input, q + 1) == Some('*') {
        match block_comment_end(input, q + 2) {
            None => Err(LexError::UnclosedBlockComment),
            Some(e) => if p < e <= input.len() {
                skip_trivia(input, e)
            } else {
                Ok(e)
            },
        }
    } else {
        Ok(q)
    }
}

/// The reserved words.
pub open spec fn is_keyword_word(w: Seq<char>) -> bool {
    w == "on"@ || w == "off"@ || w == "and"@ || w == "or"@ || w == "not"@
}

/// The numeral that starts at `p`, as a token with an optional sign; the
/// position after it.
pub open spec fn numeral_at(input: Seq<char>, p: int, sign: Seq<char>) -> Result<(TokenView, int), LexError> {
    let e = number_end(input, p, false);
    let s = input.subrange(p, e);
    if numeral_ok(s) {
        Ok((TokenView::Number(sign + s), e))
    } else {
        Err(LexError::InvalidNumber)
    }
}

/// The token that starts at `q`, where no whitespace or comment starts, and
/// the position after it.
pub open spec fn token_at(input: Seq<char>, q: int) -> Result<(TokenView, int), LexError> {
    let next = char_at(input, q + 1);
    match char_at(input, q) {
        None => Ok((TokenView::Eof, q)),
        Some(c) => if c == '[' {
            Ok((TokenView::OpenBracket, q + 1))
        } else if c == ']' {
            Ok((TokenView::CloseBracket, q + 1))
        } else if c == ':' {
            Ok((TokenView::Colon, q + 1))
        } else if c == ',' {
            Ok((TokenView::Comma, q + 1))
        } else if c == '-' {
            if next == Some('>') {
                Ok((TokenView::Arrow, q + 2))
            } else if next matches Some(d) && numeric_class(d) {
                numeral_at(input, q + 1, seq!['-'])
            } else {
                Ok((TokenView::Minus, q + 1))
            }
        } else if c == '+' {
            Ok((TokenView::Plus, q + 1))
        } else if c == '*' {
            Ok((TokenView::Star, q + 1))
        } else if c == '/' {
            Ok((TokenView::Slash, q + 1))
        } else if c == '=' {
            Ok((TokenView::Eq, q + 1))
        } else if c == '!' {
            if next == Some('=') {
                Ok((TokenView::NotEq, q + 2))
            } else {
                Err(LexError::UnexpectedBang)
            }
        } else if c == '>' {
            if next == Some('=') {
                Ok((TokenView::GtEq, q + 2))
            } else {
                Ok((TokenView::Gt, q + 1))
            }
        } else if c == '<' {
            if next == Some('=') {
                Ok((TokenView::LtEq, q + 2))
            } else {
                Ok((TokenView::Lt, q + 1))
            }
        } else if c == '"' || c == '\'' {
            match scan_string(input, q + 1, c, seq![]) {
                Ok((s, e)) => Ok((TokenView::String(s), e)),
                Err(x) => Err(x),
            }
        } else if numeric_class(c) {
            numeral_at(input, q, seq![])
        } else if alphabetic_class(c) || c == '_' {
            let e = ident_end(input, q);
            let w = input.subrange(q, e);
            if is_keyword_word(w) {
                Ok((TokenView::Keyword(w), e))
            } else {
                Ok((TokenView::Identifier(w), e))
            }
        } else {
            Err(LexError::UnexpectedCharacter(c))
        },
    }
}

/// The next token at or after `p`, and the position after it.
pub open spec fn next_token_at(input: Seq<char>, p: int) -> Result<(TokenView, int), LexError> {
    match skip_trivia(input, p) {
        Err(e) => Err(e),
        Ok(q) => token_at(input, q),
    }
}

/// The tokens from `p` to the end, the last of them `Eof`.
pub open spec fn lex_from(input: Seq<char>, p: int) -> Result<Seq<TokenView>, LexError>
    decreases input.len() - p,
{
    match next_token_at(input, p) {
        Err(e) => Err(e),
        Ok((t, e)) => if t is Eof {
            Ok(seq![t])
        } else if p < e <= input.len() {
            match lex_from(input, e) {
                Ok(ts) => Ok(seq![t] + ts),
                Err(x) => Err(x),
            }
        } else {
            Err(LexError::UnexpectedCharacter(input[p]))
        },
    }
}

/// A place in the source: 1-based line and column, and the byte offset in
/// the UTF-8 text.
#[derive(Debug, Clone, Copy, PartialEq, Eq, Structural)]
pub struct SourcePosition {
    pub line: usize,
    pub column: usize,
    pub offset: usize,
}

/// The number of bytes that `c` takes in UTF-8.
pub open spec fn utf8_len(c: char) -> nat {
    let u = c as u32;
    if u < 0x80 {
        1
    } else if u < 0x800 {
        2
    } else if u < 0x10000 {
        3
    } else {
        4
    }
}

/// The line of the character at index `k`.
pub open spec fn line_of(input: Seq<char>, k: int) -> nat
    decreases k,
{
    if k <= 0 {
        1
    } else {
        line_of(input, k - 1) + if input[k - 1] == '\n' {
            1nat
        } else {
            0nat
        }
    }
}

/// The column of the character at index `k`.
pub open spec fn column_of(input: Seq<char>, k: int) -> nat
    decreases k,
{
    if k <= 0 {
        1
    } else if input[k - 1] == '\n' {
        1
    } else {
        column_of(input, k - 1) + 1
    }
}

/// The byte offset of the character at index `k`.
pub open spec fn byte_offset_of(input: Seq<char>, k: int) -> nat
    decreases k,
{
    if k <= 0 {
        0
    } else {
        byte_offset_of(input, k - 1) + utf8_len(input[k - 1])
    }
}

/// The tokens from `p` to the end, each with the index of its first
/// character, the last of them `Eof`.
pub open spec fn lex_spans(input: Seq<char>, p: int) -> Result<Seq<(TokenView, int)>, LexError>
    decreases input.len() - p,
{
    match skip_trivia(input, p) {
        Err(e) => Err(e),
        Ok(q) => match token_at(input, q) {
            Err(e) => Err(e),
            Ok((t, e)) => if t is Eof {
                Ok(seq![(t, q)])
            } else if p < e <= input.len() {
                match lex_spans(input, e) {
                    Ok(ts) => Ok(seq![(t, q)] + ts),
                    Err(x) => Err(x),
                }
            } else {
                Err(LexError::UnexpectedCharacter(input[p]))
            },
        },
    }
}

/// The bytes that `c` takes in UTF-8.
fn char_width(c: char) -> (r: usize)
    ensures
        r == utf8_len(c),
{
    let u = c as u32;
    if u < 0x80 {
        1
    } else if u < 0x800 {
        2
    } else if u < 0x10000 {
        3
    } else {
        4
    }
}

/// Splits source text into tokens.
pub struct Lexer {
    input: Vec<char>,
    position: usize,
}

impl Lexer {
    /// The source characters.
    pub closed spec fn source(&self) -> Seq<char> {
        self.input@
    }

    /// The index of the next character to read.
    pub closed spec fn offset(&self) -> int {
        self.position as int
    }

    /// A lexer at the start of `input`.
    pub fn new(input: &str) -> (r: Lexer)
        ensures
            r.source() == input@,
            r.offset() == 0,
    {
        let mut chars: Vec<char> = Vec::new();
        for c in it: input.chars()
            invariant
                chars@ == it.seq().take(it.index() as int),
        {
            chars.push(c);
            assert(chars@ =~= it.seq().take(it.index() as int + 1));
        }
        assert(chars@ =~= input@);
        Lexer { input: chars, position: 0 }
    }

    /// The line, column and byte offset of the character at `index`; an
    /// index at the end of the input gives the place just past the last
    /// character.
    pub fn position_of(&self, index: usize) -> (r: SourcePosition)
        requires
            index <= self.source().len(),
            4 * index + 1 <= usize::MAX,
        ensures
            r.line == line_of(self.source(), index as int),
            r.column == column_of(self.source(), index as int),
            r.offset == byte_offset_of(self.source(), index as int),
    {
        let mut line: usize = 1;
        let mut column: usize = 1;
        let mut offset: usize = 0;
        let mut i: usize = 0;
        while i < index
            invariant
                i <= index <= self.input@.len(),
                4 * index + 1 <= usize::MAX,
                line == line_of(self.input@, i as int),
                column == column_of(self.input@, i as int),
                offset == byte_offset_of(self.input@, i as int),
                line <= i + 1,
                column <= i + 1,
                offset <= 4 * i,
            decreases index - i,
        {
            let c = self.input[i];
            offset = offset + char_width(c);
            if c == '\n' {
                line = line + 1;
                column = 1;
            } else {
                column = column + 1;
            }
            i = i + 1;
        }
        SourcePosition { line, column, offset }
    }

    /// The character at the current position, if any.
    pub fn current(&self) -> (r: Option<char>)
        ensures
            r == char_at(self.source(), self.offset()),
            self.source().len() <= usize::MAX,
    {
        if self.position < self.input.len() {
            Some(self.input[self.position])
        } else {
            None
        }
    }

    /// The character `offset` places after the current one, if any.
    pub fn peek(&self, offset: usize) -> (r: Option<char>)
        requires
            self.offset() + offset <= usize::MAX,
        ensures
            r == char_at(self.source(), self.offset() + offset),
    {
        let pos = self.position + offset;
        if pos < self.input.len() {
            Some(self.input[pos])
        } else {
            None
        }
    }

    /// Moves one character on.
    pub fn advance(&mut self)
        requires
            old(self).offset() < usize::MAX,
        ensures
            final(self).source() == old(self).source(),
            final(self).offset() == old(self).offset() + 1,
    {
        self.position += 1;
    }

    /// Skips whitespace.
    pub fn skip_whitespace(&mut self)
        requires
            old(self).offset() <= old(self).source().len(),
        ensures
            final(self).source() == old(self).source(),
            final(self).offset() == skip_ws(old(self).source(), old(self).offset()),
            old(self).offset() <= final(self).offset() <= final(self).source().len(),
    {
        loop
            invariant
                self.input@ == old(self).input@,
                old(self).position <= self.position <= self.input@.len(),
                skip_ws(self.input@, old(self).position as int) == skip_ws(
                    self.input@,
                    self.position as int,
                ),
            decreases self.input@.len() - self.position,
        {
            match self.current() {
                Some(ch) => {
                    if is_whitespace(ch) {
                        self.advance();
                    } else {
                        return;
                    }
                },
                None => {
                    return;
                },
            }
        }
    }

    /// Skips a `//` comment, through the end of its line.
    pub fn skip_line_comment(&mut self)
        requires
            old(self).offset() + 2 <= old(self).source().len(),
        ensures
            final(self).source() == old(self).source(),
            final(self).offset() == line_comment_end(old(self).source(), old(self).offset() + 2),
            old(self).offset() + 2 <= final(self).offset() <= final(self).source().len(),
    {
        let _n = self.input.len();
        self.advance();
        self.advance();
        loop
            invariant
                self.input@ == old(self).input@,
                old(self).position + 2 <= self.position <= self.input@.len(),
                line_comment_end(self.input@, old(self).position + 2) == line_comment_end(
                    self.input@,
                    self.position as int,
                ),
            decreases self.input@.len() - self.position,
        {
            match self.current() {
                Some(ch) => {
                    self.advance();
                    if ch == '\n' {
                        return;
                    }
                },
                None => {
                    return;
                },
            }
        }
    }

    /// Skips a `/* ... */` comment; fails where it is never closed.
    pub fn skip_block_comment(&mut self) -> (r: Result<(), LexError>)
        requires
            old(self).offset() + 2 <= old(self).source().len(),
        ensures
            final(self).source() == old(self).source(),
            match block_comment_end(old(self).source(), old(self).offset() + 2) {
                Some(e) => r is Ok && final(self).offset() == e,
                None => r == Err::<(), LexError>(LexError::UnclosedBlockComment),
            },
            old(self).offset() + 2 <= final(self).offset() <= final(self).source().len(),
    {
        let _n = self.input.len();
        self.advance();
        self.advance();
        loop
            invariant
                self.input@ == old(self).input@,
                old(self).position + 2 <= self.position <= self.input@.len(),
                block_comment_end(self.input@, old(self).position + 2) == block_comment_end(
                    self.input@,
                    self.position as int,
                ),
            decreases self.input@.len() - self.position,
        {
            match self.current() {
                Some(ch) => {
                    if ch == '*' && self.peek(1) == Some('/') {
                        self.advance();
                        self.advance();
                        return Ok(());
                    }
                    self.advance();
                },
                None => {
                    return Err(LexError::UnclosedBlockComment);
                },
            }
        }
    }

    /// Reads an identifier: letters, digits, `_` and `-`.
    pub fn read_identifier(&mut self) -> (r: String)
        requires
            old(self).offset() <= old(self).source().len(),
        ensures
            final(self).source() == old(self).source(),
            final(self).offset() == ident_end(old(self).source(), old(self).offset()),
            r@ == old(self).source().subrange(old(self).offset(), final(self).offset()),
            old(self).offset() <= final(self).offset() <= final(self).source().len(),
            (old(self).offset() < old(self).source().len() && ident_char(
                old(self).source()[old(self).offset()],
            )) ==> old(self).offset() < final(self).offset(),
    {
        let mut result = String::new();
        loop
            invariant
                self.input@ == old(self).input@,
                old(self).position <= self.position <= self.input@.len(),
                ident_end(self.input@, old(self).position as int) == ident_end(
                    self.input@,
                    self.position as int,
                ),
                result@ == self.input@.subrange(old(self).position as int, self.position as int),
            decreases self.input@.len() - self.position,
        {
            match self.current() {
                Some(ch) => {
                    if is_alphanumeric(ch) || ch == '_' || ch == '-' {
                        push_char(&mut result, ch);
                        self.advance();
                        assert(result@ =~= self.input@.subrange(
                            old(self).position as int,
                            self.position as int,
                        ));
                    } else {
                        return result;
                    }
                },
                None => {
                    return result;
                },
            }
        }
    }

    /// Reads a numeral: numeric characters with at most one decimal point,
    /// taken only when a numeric character follows it. Fails where the
    /// numeral does not denote a number.
    pub fn read_number(&mut self) -> (r: Result<String, LexError>)
        requires
            old(self).offset() <= old(self).source().len(),
        ensures
            final(self).source() == old(self).source(),
            final(self).offset() == number_end(old(self).source(), old(self).offset(), false),
            old(self).offset() <= final(self).offset() <= final(self).source().len(),
            ({
                let s = old(self).source().subrange(old(self).offset(), final(self).offset());
                if numeral_ok(s) {
                    r matches Ok(t) && t@ == s
                } else {
                    r == Err::<String, LexError>(LexError::InvalidNumber)
                }
            }),
    {
        let mut result = String::new();
        let mut has_dot = false;
        let mut plain = true;
        loop
            invariant
                self.input@ == old(self).input@,
                old(self).position <= self.position <= self.input@.len(),
                number_end(self.input@, old(self).position as int, false) == number_end(
                    self.input@,
                    self.position as int,
                    has_dot,
                ),
                result@ == self.input@.subrange(old(self).position as int, self.position as int),
                plain == forall|i: int| 0 <= i < result@.len() ==> numeral_char(#[trigger] result@[i]),
            ensures
                self.input@ == old(self).input@,
                old(self).position <= self.position <= self.input@.len(),
                number_end(self.input@, old(self).position as int, false) == self.position,
                result@ == self.input@.subrange(old(self).position as int, self.position as int),
                plain == forall|i: int| 0 <= i < result@.len() ==> numeral_char(#[trigger] result@[i]),
            decreases self.input@.len() - self.position,
        {
            match self.current() {
                Some(ch) => {
                    let take = if is_numeric(ch) {
                        true
                    } else if ch == '.' && !has_dot {
                        match self.peek(1) {
                            Some(d) => {
                                if is_numeric(d) {
                                    has_dot = true;
                                    true
                                } else {
                                    false
                                }
                            },
                            None => false,
                        }
                    } else {
                        false
                    };
                    if !take {
                        break;
                    }
                    let ghost before = result@;
                    let ghost was_plain = plain;
                    push_char(&mut result, ch);
                    plain = plain && (ch == '.' || ('0' <= ch && ch <= '9'));
                    self.advance();
                    assert(result@ =~= self.input@.subrange(
                        old(self).position as int,
                        self.position as int,
                    ));
                    assert(result@ =~= before.push(ch));
                    proof {
                        if plain {
                            assert forall|i: int| 0 <= i < result@.len() implies numeral_char(#[trigger] result@[i]) by {
                                if i < before.len() {
                                    assert(result@[i] == before[i]);
                                }
                            }
                        } else if !was_plain {
                            let j = choose|j: int| 0 <= j < before.len() && !numeral_char(#[trigger] before[j]);
                            assert(result@[j] == before[j]);
                        } else {
                            assert(!numeral_char(result@[result@.len() - 1]));
                        }
                    }
                },
                None => {
                    break;
                },
            }
        }
        if plain && result.as_str().unicode_len() > 0 {
            Ok(result)
        } else {
            Err(LexError::InvalidNumber)
        }
    }

    /// Reads a string literal whose opening quote is the current character.
    /// Escapes: `\n` and `\t`; any other escaped character stands for itself.
    pub fn read_string(&mut self) -> (r: Result<String, LexError>)
        requires
            old(self).offset() < old(self).source().len(),
        ensures
            final(self).source() == old(self).source(),
            match scan_string(
                old(self).source(),
                old(self).offset() + 1,
                old(self).source()[old(self).offset()],
                seq![],
            ) {
                Ok((s, e)) => r matches Ok(t) && t@ == s && final(self).offset() == e,
                Err(x) => r == Err::<String, LexError>(x),
            },
            r is Ok ==> old(self).offset() < final(self).offset() <= final(self).source().len(),
    {
        let quote = match self.current() {
            Some(q) => q,
            None => {
                return Err(LexError::UnterminatedString);
            },
        };
        self.advance();
        let mut result = String::new();
        loop
            invariant
                self.input@ == old(self).input@,
                old(self).position < self.position <= self.input@.len(),
                quote == self.input@[old(self).position as int],
                scan_string(self.input@, old(self).position + 1, quote, seq![]) == scan_string(
                    self.input@,
                    self.position as int,
                    quote,
                    result@,
                ),
            decreases self.input@.len() - self.position,
        {
            match self.current() {
                Some(ch) => {
                    if ch == quote {
                        self.advance();
                        return Ok(result);
                    } else if ch == '\\' {
                        self.advance();
                        match self.current() {
                            Some(c) => {
                                let e = if c == 'n' {
                                    '\n'
                                } else if c == 't' {
                                    '\t'
                                } else {
                                    c
                                };
                                push_char(&mut result, e);
                            },
                            None => {
                                return Err(LexError::UnterminatedString);
                            },
                        }
                        self.advance();
                    } else {
                        push_char(&mut result, ch);
                        self.advance();
                    }
                },
                None => {
                    return Err(LexError::UnterminatedString);
                },
            }
        }
    }

    /// Skips whitespace and comments up to the next token.
    fn skip_trivia(&mut self) -> (r: Result<(), LexError>)
        requires
            old(self).offset() <= old(self).source().len(),
        ensures
            final(self).source() == old(self).source(),
            match skip_trivia(old(self).source(), old(self).offset()) {
                Ok(q) => r is Ok && final(self).offset() == q,
                Err(e) => r == Err::<(), LexError>(e),
            },
            old(self).offset() <= final(self).offset() <= final(self).source().len(),
    {
        loop
            invariant
                self.input@ == old(self).input@,
                old(self).position <= self.position <= self.input@.len(),
                skip_trivia(self.input@, old(self).position as int) == skip_trivia(
                    self.input@,
                    self.position as int,
                ),
            decreases self.input@.len() - self.position,
        {
            self.skip_whitespace();
            if self.current() == Some('/') && self.peek(1) == Some('/') {
                self.skip_line_comment();
            } else if self.current() == Some('/') && self.peek(1) == Some('*') {
                self.skip_block_comment()?;
            } else {
                return Ok(());
            }
        }
    }

    /// Reads the next token; at the end of the input it is `Eof`.
    fn next_token(&mut self) -> (r: Result<Token, LexError>)
        requires
            old(self).offset() <= old(self).source().len(),
        ensures
            final(self).source() == old(self).source(),
            match next_token_at(old(self).source(), old(self).offset()) {
                Ok((t, e)) => r matches Ok(k) && k@ == t && final(self).offset() == e,
                Err(x) => r == Err::<Token, LexError>(x),
            },
            (r matches Ok(k) && !(k is Eof)) ==> old(self).offset() < final(self).offset()
                <= final(self).source().len(),
    {
        self.skip_trivia()?;
        self.token_here()
    }

    /// Reads the token that starts at the current position.
    fn token_here(&mut self) -> (r: Result<Token, LexError>)
        requires
            old(self).offset() <= old(self).source().len(),
        ensures
            final(self).source() == old(self).source(),
            match token_at(old(self).source(), old(self).offset()) {
                Ok((t, e)) => r matches Ok(k) && k@ == t && final(self).offset() == e,
                Err(x) => r == Err::<Token, LexError>(x),
            },
            (r matches Ok(k) && !(k is Eof)) ==> old(self).offset() < final(self).offset()
                <= final(self).source().len(),
    {
        let ghost q = self.position as int;
        proof {
            reveal_strlit("-");
        }
        match self.current() {
            None => Ok(Token::Eof),
            Some(c) => {
                if c == '[' {
                    self.advance();
                    Ok(Token::OpenBracket)
                } else if c == ']' {
                    self.advance();
                    Ok(Token::CloseBracket)
                } else if c == ':' {
                    self.advance();
                    Ok(Token::Colon)
                } else if c == ',' {
                    self.advance();
                    Ok(Token::Comma)
                } else if c == '-' {
                    let next = self.peek(1);
                    if next == Some('>') {
                        self.advance();
                        self.advance();
                        Ok(Token::Arrow)
                    } else if next.is_some() && is_numeric(next.unwrap()) {
                        self.advance();
                        let num = self.read_number()?;
                        let signed = owned("-").concat(num.as_str());
                        assert("-"@ =~= seq!['-']);
                        assert(self.position > q + 1);
                        Ok(Token::Number(signed))
                    } else {
                        self.advance();
                        Ok(Token::Minus)
                    }
                } else if c == '+' {
                    self.advance();
                    Ok(Token::Plus)
                } else if c == '*' {
                    self.advance();
                    Ok(Token::Star)
                } else if c == '/' {
                    self.advance();
                    Ok(Token::Slash)
                } else if c == '=' {
                    self.advance();
                    Ok(Token::Eq)
                } else if c == '!' {
                    if self.peek(1) == Some('=') {
                        self.advance();
                        self.advance();
                        Ok(Token::NotEq)
                    } else {
                        Err(LexError::UnexpectedBang)
                    }
                } else if c == '>' {
                    if self.peek(1) == Some('=') {
                        self.advance();
                        self.advance();
                        Ok(Token::GtEq)
                    } else {
                        self.advance();
                        Ok(Token::Gt)
                    }
                } else if c == '<' {
                    if self.peek(1) == Some('=') {
                        self.advance();
                        self.advance();
                        Ok(Token::LtEq)
                    } else {
                        self.advance();
                        Ok(Token::Lt)
                    }
                } else if c == '"' || c == '\'' {
                    let s = self.read_string()?;
                    Ok(Token::String(s))
                } else if is_numeric(c) {
                    let num = self.read_number()?;
                    assert(Seq::<char>::empty() + num@ =~= num@);
                    assert(self.position > q);
                    Ok(Token::Number(num))
                } else if is_alphabetic(c) || c == '_' {
                    let ident = self.read_identifier();
                    if is_literal(&ident, "on") || is_literal(&ident, "off") || is_literal(
                        &ident,
                        "and",
                    ) || is_literal(&ident, "or") || is_literal(&ident, "not") {
                        Ok(Token::Keyword(ident))
                    } else {
                        Ok(Token::Identifier(ident))
                    }
                } else {
                    Err(LexError::UnexpectedCharacter(c))
                }
            },
        }
    }
}

/// Splits `input` into tokens, ending with `Eof`. Fails at the first
/// character that starts no token.
pub fn tokenize(input: &str) -> (r: Result<Vec<Token>, LexError>)
    ensures
        match lex_from(input@, 0) {
            Ok(ts) => r matches Ok(v) && v@.map_values(|t: Token| t@) == ts,
            Err(e) => r == Err::<Vec<Token>, LexError>(e),
        },
{
    let mut lexer = Lexer::new(input);
    let mut tokens: Vec<Token> = Vec::new();
    loop
        invariant
            lexer.source() == input@,
            0 <= lexer.offset() <= input@.len(),
            lex_from(input@, 0) == match lex_from(input@, lexer.offset()) {
                Ok(ts) => Ok(tokens@.map_values(|t: Token| t@) + ts),
                Err(e) => Err::<Seq<TokenView>, LexError>(e),
            },
        decreases input@.len() - lexer.offset(),
    {
        let ghost before = tokens@;
        let token = lexer.next_token()?;
        let is_eof = matches!(token, Token::Eof);
        tokens.push(token);
        assert(tokens@.map_values(|t: Token| t@) =~= before.map_values(|t: Token| t@).push(
            tokens@.last()@,
        ));
        if is_eof {
            assert(tokens@.map_values(|t: Token| t@) =~= before.map_values(|t: Token| t@) + seq![
                TokenView::Eof,
            ]);
            return Ok(tokens);
        }
        proof {
            let ts = lex_from(input@, lexer.offset());
            if ts is Ok {
                assert(before.map_values(|t: Token| t@) + (seq![tokens@.last()@] + ts->Ok_0)
                    =~= tokens@.map_values(|t: Token| t@) + ts->Ok_0);
            }
        }
    }
}

/// Splits `input` into tokens, as [`tokenize`] does, each with the index of
/// its first character.
pub fn tokenize_spanned(input: &str) -> (r: Result<Vec<(Token, usize)>, LexError>)
    ensures
        match lex_spans(input@, 0) {
            Ok(ts) => r matches Ok(v) && v@.map_values(|t: (Token, usize)| (t.0@, t.1 as int)) == ts,
            Err(e) => r == Err::<Vec<(Token, usize)>, LexError>(e),
        },
{
    let mut lexer = Lexer::new(input);
    let mut tokens: Vec<(Token, usize)> = Vec::new();
    loop
        invariant
            lexer.source() == input@,
            0 <= lexer.offset() <= input@.len(),
            lex_spans(input@, 0) == match lex_spans(input@, lexer.offset()) {
                Ok(ts) => Ok(tokens@.map_values(|t: (Token, usize)| (t.0@, t.1 as int)) + ts),
                Err(e) => Err::<Seq<(TokenView, int)>, LexError>(e),
            },
        decreases input@.len() - lexer.offset(),
    {
        let ghost before = tokens@;
        lexer.skip_trivia()?;
        let start = lexer.position;
        let token = lexer.token_here()?;
        let is_eof = matches!(token, Token::Eof);
        tokens.push((token, start));
        assert(tokens@.map_values(|t: (Token, usize)| (t.0@, t.1 as int)) =~= before.map_values(
            |t: (Token, usize)| (t.0@, t.1 as int),
        ).push((tokens@.last().0@, start as int)));
        if is_eof {
            return Ok(tokens);
        }
        proof {
            let ts = lex_spans(input@, lexer.offset());
            if ts is Ok {
                assert(before.map_values(|t: (Token, usize)| (t.0@, t.1 as int)) + (seq![
                    (tokens@.last().0@, start as int),
                ] + ts->Ok_0) =~= tokens@.map_values(|t: (Token, usize)| (t.0@, t.1 as int))
                    + ts->Ok_0);
            }
        }
    }
}

} // verus!
