use packard::lexer::{tokenize, tokenize_spanned, LexError, Lexer, SourcePosition, Token};

fn ident(s: &str) -> Token {
    Token::Identifier(s.to_string())
}

fn num(s: &str) -> Token {
    Token::Number(s.to_string())
}

#[test]
fn tokenize_simple_tag() {
    let toks = tokenize("[character: [text: \"Alice\"]]").unwrap();
    assert_eq!(
        toks,
        vec![
            Token::OpenBracket,
            ident("character"),
            Token::Colon,
            Token::OpenBracket,
            ident("text"),
            Token::Colon,
            Token::String("Alice".to_string()),
            Token::CloseBracket,
            Token::CloseBracket,
            Token::Eof,
        ]
    );
}

#[test]
fn tokenize_empty_source_is_only_eof() {
    assert_eq!(tokenize("").unwrap(), vec![Token::Eof]);
    assert_eq!(tokenize(" \t\n ").unwrap(), vec![Token::Eof]);
}

#[test]
fn tokenize_keywords_and_identifiers() {
    let toks = tokenize("on off and or not onward snake_case kebab-case x2").unwrap();
    assert_eq!(
        toks,
        vec![
            Token::Keyword("on".to_string()),
            Token::Keyword("off".to_string()),
            Token::Keyword("and".to_string()),
            Token::Keyword("or".to_string()),
            Token::Keyword("not".to_string()),
            ident("onward"),
            ident("snake_case"),
            ident("kebab-case"),
            ident("x2"),
            Token::Eof,
        ]
    );
}

#[test]
fn tokenize_numbers() {
    let toks = tokenize("42 -3.5 0.25 7").unwrap();
    assert_eq!(toks, vec![num("42"), num("-3.5"), num("0.25"), num("7"), Token::Eof]);
}

#[test]
fn tokenize_dot_without_digit_is_not_part_of_number() {
    assert_eq!(tokenize("1.x"), Err(LexError::UnexpectedCharacter('.')));
}

#[test]
fn tokenize_non_ascii_digit_is_invalid_number() {
    assert_eq!(tokenize("\u{00B2}"), Err(LexError::InvalidNumber));
    assert_eq!(tokenize("1\u{0663}"), Err(LexError::InvalidNumber));
}

#[test]
fn tokenize_operators() {
    let toks = tokenize("-> + - * / = != > < >= <=").unwrap();
    assert_eq!(
        toks,
        vec![
            Token::Arrow,
            Token::Plus,
            Token::Minus,
            Token::Star,
            Token::Slash,
            Token::Eq,
            Token::NotEq,
            Token::Gt,
            Token::Lt,
            Token::GtEq,
            Token::LtEq,
            Token::Eof,
        ]
    );
}

#[test]
fn tokenize_skips_comments() {
    let toks = tokenize("// first line\n[a /* inner */ : b] // tail").unwrap();
    assert_eq!(
        toks,
        vec![Token::OpenBracket, ident("a"), Token::Colon, ident("b"), Token::CloseBracket, Token::Eof]
    );
}

#[test]
fn tokenize_unclosed_block_comment() {
    assert_eq!(tokenize("[a: b] /* never closed"), Err(LexError::UnclosedBlockComment));
}

#[test]
fn tokenize_string_escapes() {
    let toks = tokenize(r#""a\nb\tc\\d\"e\'f\qg" 'single'"#).unwrap();
    assert_eq!(
        toks,
        vec![
            Token::String("a\nb\tc\\d\"e'fqg".to_string()),
            Token::String("single".to_string()),
            Token::Eof,
        ]
    );
}

#[test]
fn tokenize_unterminated_string() {
    assert_eq!(tokenize("\"abc"), Err(LexError::UnterminatedString));
    assert_eq!(tokenize("\"abc\\"), Err(LexError::UnterminatedString));
}

#[test]
fn tokenize_bang_without_equals() {
    assert_eq!(tokenize("!x"), Err(LexError::UnexpectedBang));
}

#[test]
fn tokenize_unexpected_character() {
    assert_eq!(tokenize("[a: #]"), Err(LexError::UnexpectedCharacter('#')));
}

#[test]
fn tokenize_unicode_whitespace_and_letters() {
    let toks = tokenize("\u{00A0}ñame\u{2003}ÿ").unwrap();
    assert_eq!(toks, vec![ident("ñame"), ident("ÿ"), Token::Eof]);
}

#[test]
fn lexer_current_peek_advance() {
    let mut lx = Lexer::new("ab");
    assert_eq!(lx.current(), Some('a'));
    assert_eq!(lx.peek(1), Some('b'));
    assert_eq!(lx.peek(2), None);
    lx.advance();
    assert_eq!(lx.current(), Some('b'));
    lx.advance();
    assert_eq!(lx.current(), None);
}

#[test]
fn lexer_skip_whitespace_stops_at_text() {
    let mut lx = Lexer::new(" \t\n x");
    lx.skip_whitespace();
    assert_eq!(lx.current(), Some('x'));
}

#[test]
fn lexer_skip_line_comment_consumes_newline() {
    let mut lx = Lexer::new("// note\ny");
    lx.skip_line_comment();
    assert_eq!(lx.current(), Some('y'));
}

#[test]
fn lexer_skip_block_comment() {
    let mut lx = Lexer::new("/* a * b */z");
    assert_eq!(lx.skip_block_comment(), Ok(()));
    assert_eq!(lx.current(), Some('z'));
    let mut open = Lexer::new("/* a");
    assert_eq!(open.skip_block_comment(), Err(LexError::UnclosedBlockComment));
}

#[test]
fn lexer_read_identifier() {
    let mut lx = Lexer::new("név_1-x: rest");
    assert_eq!(lx.read_identifier(), "név_1-x".to_string());
    assert_eq!(lx.current(), Some(':'));
}

#[test]
fn lexer_read_string() {
    let mut lx = Lexer::new("'it\\'s'!");
    assert_eq!(lx.read_string(), Ok("it's".to_string()));
    assert_eq!(lx.current(), Some('!'));
}

#[test]
fn lexer_read_number() {
    let mut lx = Lexer::new("12.50.3");
    assert_eq!(lx.read_number(), Ok("12.50".to_string()));
    assert_eq!(lx.current(), Some('.'));
}

#[test]
fn tokenize_spanned_records_token_starts() {
    let spans = tokenize_spanned("[a: // c\n \"é\"]").unwrap();
    let starts: Vec<usize> = spans.iter().map(|(_, s)| *s).collect();
    assert_eq!(starts, vec![0, 1, 2, 10, 13, 14]);
    assert_eq!(spans[3].0, Token::String("é".to_string()));
    assert_eq!(spans[5].0, Token::Eof);
    assert_eq!(tokenize_spanned("[a: 'x"), Err(LexError::UnterminatedString));
}

#[test]
fn position_of_counts_lines_columns_and_bytes() {
    let lx = Lexer::new("ab\nçd\n\u{1F600}x");
    assert_eq!(lx.position_of(0), SourcePosition { line: 1, column: 1, offset: 0 });
    assert_eq!(lx.position_of(2), SourcePosition { line: 1, column: 3, offset: 2 });
    assert_eq!(lx.position_of(3), SourcePosition { line: 2, column: 1, offset: 3 });
    assert_eq!(lx.position_of(5), SourcePosition { line: 2, column: 3, offset: 6 });
    assert_eq!(lx.position_of(7), SourcePosition { line: 3, column: 2, offset: 11 });
    assert_eq!(lx.position_of(8), SourcePosition { line: 3, column: 3, offset: 12 });
}

#[test]
fn token_display_strings() {
    assert_eq!(Token::OpenBracket.to_display_string(), "[");
    assert_eq!(Token::Arrow.to_display_string(), "->");
    assert_eq!(Token::LtEq.to_display_string(), "<=");
    assert_eq!(Token::String("hi".to_string()).to_display_string(), "\"hi\"");
    assert_eq!(num("-1.5").to_display_string(), "-1.5");
    assert_eq!(Token::Eof.to_display_string(), "EOF");
}
