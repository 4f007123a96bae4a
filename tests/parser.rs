use packard::lexer::{tokenize, Token};
use packard::streaming_parser::{ParseError, ParseErrorKind, StreamingParser};
use packard::tag::{format_tag, Primitive, TagNode};

fn kw(s: &str) -> TagNode {
    TagNode::Primitive(Primitive::Keyword(s.to_string()))
}

fn id(s: &str) -> TagNode {
    TagNode::Primitive(Primitive::Identifier(s.to_string()))
}

fn comp(l: TagNode, r: TagNode) -> TagNode {
    TagNode::Composite { ltag: Box::new(l), rtag: Box::new(r) }
}

fn parse_src(src: &str) -> Result<TagNode, ParseError> {
    StreamingParser::new(tokenize(src).unwrap()).parse()
}

#[test]
fn empty_program_is_root_list_item() {
    let root = parse_src("").unwrap();
    assert_eq!(root, comp(kw("root"), comp(kw("list"), kw("item"))));
    assert_eq!(root.to_display_string(), "[root: [list: item]]");
}

#[test]
fn empty_token_stream_without_eof() {
    let root = StreamingParser::new(Vec::new()).parse().unwrap();
    assert_eq!(root, comp(kw("root"), comp(kw("list"), kw("item"))));
}

#[test]
fn single_tag_goes_directly_under_list() {
    let root = parse_src("[a: b]").unwrap();
    assert_eq!(root, comp(kw("root"), comp(kw("list"), comp(id("a"), id("b")))));
}

#[test]
fn three_tags_form_right_nested_chain() {
    let root = parse_src("[a: 1] [b: 2] [c: 3]").unwrap();
    let n = |s: &str| TagNode::Primitive(Primitive::Number(s.to_string()));
    let t1 = comp(id("a"), n("1"));
    let t2 = comp(id("b"), n("2"));
    let t3 = comp(id("c"), n("3"));
    assert_eq!(root, comp(kw("root"), comp(kw("list"), comp(t1, comp(t2, t3)))));
}

#[test]
fn two_tags_chain_ends_in_last_tag() {
    let root = parse_src("[x: y] [p: q]").unwrap();
    assert_eq!(
        root.to_display_string(),
        "[root: [list: [[x: y]: [p: q]]]]"
    );
}

#[test]
fn nested_tags_on_both_sides() {
    let root = parse_src("[[set: [attribute: [text: \"score\"]]]: [number: 9]]").unwrap();
    assert_eq!(
        root.to_display_string(),
        "[root: [list: [[set: [attribute: [text: \"score\"]]]: [number: 9]]]]"
    );
}

#[test]
fn commas_are_ignored() {
    let root = parse_src("[a, : , b ,]").unwrap();
    assert_eq!(root, comp(kw("root"), comp(kw("list"), comp(id("a"), id("b")))));
}

#[test]
fn top_level_must_start_with_bracket() {
    let err = parse_src("[a: b] c").unwrap_err();
    assert_eq!(
        err,
        ParseError {
            kind: ParseErrorKind::ExpectedOpenBracket,
            position: 5,
            depth: 0,
            left_filled: false,
            right_filled: false,
        }
    );
}

#[test]
fn filled_slot_is_an_error() {
    let err = parse_src("[a b: c]").unwrap_err();
    assert_eq!(
        err,
        ParseError {
            kind: ParseErrorKind::SlotFilled,
            position: 2,
            depth: 1,
            left_filled: true,
            right_filled: false,
        }
    );
}

#[test]
fn nested_tag_into_filled_slot_is_an_error() {
    let err = parse_src("[a: b [c: d]]").unwrap_err();
    assert_eq!(err.kind, ParseErrorKind::SlotFilled);
    assert_eq!(err.position, 8);
    assert_eq!(err.depth, 1);
    assert!(err.left_filled && err.right_filled);
}

#[test]
fn colon_before_left_side_is_an_error() {
    let err = parse_src("[: b]").unwrap_err();
    assert_eq!(err.kind, ParseErrorKind::MissingLeft);
    assert_eq!(err.position, 1);
}

#[test]
fn closing_incomplete_tag_is_an_error() {
    let err = parse_src("[a]").unwrap_err();
    assert_eq!(
        err,
        ParseError {
            kind: ParseErrorKind::IncompleteTag,
            position: 2,
            depth: 1,
            left_filled: true,
            right_filled: false,
        }
    );
}

#[test]
fn end_of_input_inside_tag_reports_depth() {
    let err = parse_src("[a: [b: c]").unwrap_err();
    assert_eq!(
        err,
        ParseError {
            kind: ParseErrorKind::UnexpectedEnd,
            position: 8,
            depth: 1,
            left_filled: true,
            right_filled: true,
        }
    );
    let deeper = StreamingParser::new(vec![Token::OpenBracket, Token::OpenBracket]).parse();
    assert_eq!(deeper.unwrap_err().depth, 2);
}

#[test]
fn operator_token_inside_tag_is_unexpected() {
    let err = parse_src("[a: +]").unwrap_err();
    assert_eq!(err.kind, ParseErrorKind::UnexpectedToken);
    assert_eq!(err.position, 3);
}

#[test]
fn format_tag_lays_out_tree() {
    let tree = comp(id("a"), comp(id("b"), TagNode::Primitive(Primitive::String("s".to_string()))));
    assert_eq!(
        format_tag(&tree, 2),
        "[\n  ltag: a\n  rtag: [\n    ltag: b\n    rtag: \"s\"\n  ]\n]"
    );
}
