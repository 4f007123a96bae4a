use packard::evaluator::{lookup_operation, EvalError, Evaluator, Operation};
use packard::lexer::tokenize;
use packard::name_map::NameMap;
use packard::streaming_parser::StreamingParser;
use packard::tag::{Primitive, TagNode, Value};

fn tree(src: &str) -> TagNode {
    StreamingParser::new(tokenize(src).unwrap()).parse().unwrap()
}

/// The first top-level tag of `src`, without the root and list wrapping.
fn single(src: &str) -> TagNode {
    match tree(src) {
        TagNode::Composite { rtag, .. } => match *rtag {
            TagNode::Composite { rtag, .. } => *rtag,
            other => other,
        },
        other => other,
    }
}

fn text(s: &str) -> Value {
    Value::Text(s.to_string())
}

fn number(s: &str) -> Value {
    Value::Number(s.to_string())
}

#[test]
fn character_round_trip() {
    let mut ev = Evaluator::new();
    let r = ev.execute_root(&tree("[character:[text:\"Alice\"]]"));
    assert_eq!(r, Ok(text("character:Alice")));
    assert_eq!(ev.store().len(), 1);
    assert_eq!(ev.store().get("Alice"), Some(Value::Item));
    assert_eq!(ev.store().names(), vec!["Alice".to_string()]);
}

#[test]
fn unknown_operation_rejected_before_any_effect() {
    let mut ev = Evaluator::new();
    let r = ev.execute_root(&tree("[character:[text:\"Bob\"]] [bogus: 1]"));
    assert_eq!(r, Err(EvalError::UnknownOperation("bogus".to_string())));
    assert_eq!(ev.store().len(), 0);
    assert_eq!(ev.store().get("Bob"), None);
    assert_eq!(ev.depth(), 1);
}

#[test]
fn numeric_operation_name_fails_validation() {
    let ev = Evaluator::new();
    assert_eq!(ev.validate(&tree("[5: x]")), Err(EvalError::NonTextOperation));
    let mut ev2 = Evaluator::new();
    assert_eq!(ev2.evaluate_tag(&single("[5: x]")), Err(EvalError::NonTextOperation));
}

#[test]
fn valid_tree_passes_validation() {
    let ev = Evaluator::new();
    let t = tree("[define: [[set: [attribute: [text: x]]]: [flag: on]]] [item: item] [list: [root: [number: 1]]]");
    assert_eq!(ev.validate(&t), Ok(()));
}

#[test]
fn redeclared_attribute_reuses_enclosing_slot() {
    let mut ev = Evaluator::new();
    assert_eq!(ev.evaluate_tag(&single("[attribute:[text:\"x\"]]")), Ok(Value::Reference("x".to_string())));
    assert_eq!(ev.attribute("x"), Some(Value::Item));
    let r = ev.evaluate_tag(&single("[define: [define: [[set:[attribute:[text:\"x\"]]]:[number:7]]]]"));
    assert_eq!(r, Ok(number("7")));
    assert_eq!(ev.depth(), 1);
    assert_eq!(ev.attribute("x"), Some(number("7")));
}

#[test]
fn set_after_define_scope_closed_is_undefined() {
    let mut ev = Evaluator::new();
    let r = ev.execute_root(&tree("[[set:[define:[attribute:[text:\"x\"]]]]:[number:1]]"));
    assert_eq!(r, Err(EvalError::UndefinedTarget("x".to_string())));
    assert_eq!(ev.attribute("x"), None);
}

#[test]
fn define_pops_its_frame() {
    let mut ev = Evaluator::new();
    let r = ev.evaluate_tag(&single("[define: [attribute: [text: inner]]]"));
    assert_eq!(r, Ok(Value::Reference("inner".to_string())));
    assert_eq!(ev.depth(), 1);
    assert_eq!(ev.attribute("inner"), None);
}

#[test]
fn set_then_read_score() {
    let mut ev = Evaluator::new();
    let r = ev.evaluate_tag(&single("[[set:[attribute:[text:\"score\"]]]:[number:9]]"));
    assert_eq!(r, Ok(number("9")));
    assert_eq!(ev.attribute("score"), Some(number("9")));
    let again = ev.evaluate_tag(&single("[[set:[attribute:[text:\"score\"]]]:[number:12]]"));
    assert_eq!(again, Ok(number("12")));
    assert_eq!(ev.attribute("score"), Some(number("12")));
}

#[test]
fn set_inside_define_block_yields_assigned_value() {
    let mut ev = Evaluator::new();
    let r = ev.execute_root(&tree("[define: [[set:[attribute:[text:\"score\"]]]:[number:9]]]"));
    assert_eq!(r, Ok(number("9")));
}

#[test]
fn attribute_operation_given_number_fails() {
    let mut ev = Evaluator::new();
    let src = "[define: [[[attribute:[text:\"score\"]]:[number:5]] : [[set:[attribute:[text:\"score\"]]]:[number:9]]]]";
    assert_eq!(ev.execute_root(&tree(src)), Err(EvalError::AttributeNameNotText));
    let mut ev2 = Evaluator::new();
    assert_eq!(
        ev2.execute_root(&tree("[[attribute:[text:\"score\"]]:[number:5]]")),
        Err(EvalError::AttributeNameNotText)
    );
}

#[test]
fn character_requires_text() {
    let mut ev = Evaluator::new();
    assert_eq!(ev.execute_root(&tree("[character: [number: 3]]")), Err(EvalError::CharacterNameNotText));
}

#[test]
fn set_with_primitive_left_side_is_malformed() {
    let mut ev = Evaluator::new();
    assert_eq!(ev.execute_root(&tree("[set: x]")), Err(EvalError::MalformedSet));
}

#[test]
fn set_target_must_be_reference() {
    let mut ev = Evaluator::new();
    assert_eq!(
        ev.execute_root(&tree("[[set:[text:\"x\"]]:[number:1]]")),
        Err(EvalError::TargetNotReference)
    );
}

#[test]
fn execution_errors_keep_earlier_effects() {
    let mut ev = Evaluator::new();
    let r = ev.execute_root(&tree("[character: [character: [text: \"A\"]]]"));
    assert_eq!(r, Ok(text("character:character:A")));
    let mut ev2 = Evaluator::new();
    let bad = ev2.execute_root(&tree("[character: [[set:[define:[attribute:[text:\"q\"]]]]: [character: [text: \"B\"]]]]"));
    assert_eq!(bad, Err(EvalError::UndefinedTarget("q".to_string())));
    assert_eq!(ev2.store().get("B"), Some(Value::Item));
}

#[test]
fn primitives_evaluate_by_kind() {
    let mut ev = Evaluator::new();
    assert_eq!(ev.evaluate_tag(&single("[flag: on]")), Ok(Value::Flag(true)));
    assert_eq!(ev.evaluate_tag(&single("[flag: off]")), Ok(Value::Flag(false)));
    assert_eq!(ev.evaluate_tag(&single("[text: and]")), Ok(text("and")));
    assert_eq!(ev.evaluate_tag(&single("[number: -2.5]")), Ok(number("-2.5")));
    assert_eq!(ev.evaluate_tag(&single("[text: name]")), Ok(text("name")));
    assert_eq!(ev.evaluate_tag(&single("[item: 4]")), Ok(Value::Item));
}

#[test]
fn root_and_list_pass_values_through() {
    let mut ev = Evaluator::new();
    assert_eq!(ev.execute_root(&tree("")), Ok(text("item")));
    assert_eq!(ev.execute_root(&tree("[text: \"hi\"]")), Ok(text("hi")));
}

#[test]
fn chained_tags_feed_the_first_operation() {
    let mut ev = Evaluator::new();
    let r = ev.execute_root(&tree("[character:[text:\"A\"]] [character:[text:\"B\"]]"));
    assert_eq!(r, Ok(text("character:character:B")));
    assert_eq!(ev.store().get("character:B"), Some(Value::Item));
    assert_eq!(ev.store().get("B"), Some(Value::Item));
    assert_eq!(ev.store().get("A"), None);
}

#[test]
fn evaluate_tags_in_order_stops_at_error() {
    let mut ev = Evaluator::new();
    let tags = vec![
        single("[character: [text: \"A\"]]"),
        single("[character: 5]"),
        single("[character: [text: \"C\"]]"),
    ];
    assert_eq!(ev.evaluate_tags(&tags), Err(EvalError::CharacterNameNotText));
    assert_eq!(ev.store().get("A"), Some(Value::Item));
    assert_eq!(ev.store().get("C"), None);
    let mut ok = Evaluator::new();
    assert_eq!(ok.evaluate_tags(&tags[..1]), Ok(()));
}

#[test]
fn operation_names() {
    assert_eq!(lookup_operation(&"define".to_string()), Some(Operation::Define));
    assert_eq!(lookup_operation(&"set".to_string()), Some(Operation::Assign));
    assert_eq!(lookup_operation(&"attribute".to_string()), Some(Operation::Attribute));
    assert_eq!(lookup_operation(&"root".to_string()), Some(Operation::Root));
    assert_eq!(lookup_operation(&"Define".to_string()), None);
    assert_eq!(lookup_operation(&"".to_string()), None);
}

#[test]
fn name_map_insert_and_replace() {
    let mut m = NameMap::new();
    assert_eq!(m.len(), 0);
    m.insert("a".to_string(), Value::Item);
    m.insert("b".to_string(), number("1"));
    m.insert("a".to_string(), text("z"));
    assert_eq!(m.len(), 2);
    assert_eq!(m.get("a"), Some(text("z")));
    assert!(m.contains_key(&"b".to_string()));
    assert!(!m.contains_key(&"c".to_string()));
    assert_eq!(m.names(), vec!["a".to_string(), "b".to_string()]);
}

#[test]
fn value_display_strings() {
    assert_eq!(number("42").to_display_string(), "42");
    assert_eq!(text("hi").to_display_string(), "\"hi\"");
    assert_eq!(Value::Flag(true).to_display_string(), "on");
    assert_eq!(Value::Flag(false).to_display_string(), "off");
    assert_eq!(Value::Item.to_display_string(), "item");
    assert_eq!(Value::Reference("x".to_string()).to_display_string(), "&x");
    assert_eq!(text("v").duplicate(), text("v"));
}

#[test]
fn primitive_helpers() {
    let k = Primitive::Keyword("on".to_string());
    assert_eq!(k.to_value(), Value::Flag(true));
    assert_eq!(k.as_text(), Some("on".to_string()));
    assert_eq!(Primitive::Number("3".to_string()).as_text(), None);
    assert_eq!(Primitive::String("s".to_string()).as_display_string(), "\"s\"");
    let t = single("[a: [b: c]]");
    assert_eq!(t.evaluate_ltag(), Ok(Value::Item));
    assert_eq!(t.evaluate_rtag(), Ok(Value::Item));
    let p = TagNode::Primitive(Primitive::Identifier("w".to_string()));
    assert_eq!(p.evaluate_ltag(), Ok(text("w")));
}
