//! The tag tree built by the parser, and the runtime values the evaluator computes.
use vstd::prelude::*;
use vstd::string::*;
use crate::chars::{owned, is_literal, repeat_space, spaces};

verus! {

/// A runtime value: the result of evaluating a tag.
#[derive(Debug, Clone, PartialEq)]
pub enum Value {
    /// A number, held as the decimal numeral it was written with (`42`, `-3.25`).
    Number(String),
    Text(String),
    Flag(bool),
    /// The unit, placeholder value.
    Item,
    /// A handle that names a slot, resolved by name in the frame stack.
    Reference(String),
}

/// The mathematical model of a [`Value`].
pub enum ValueView {
    Number(Seq<char>),
    Text(Seq<char>),
    Flag(bool),
    Item,
    Reference(Seq<char>),
}

impl View for Value {
    type V = ValueView;

    open spec fn view(&self) -> ValueView {
        match self {
            Value::Number(n) => ValueView::Number(n@),
            Value::Text(s) => ValueView::Text(s@),
            Value::Flag(b) => ValueView::Flag(*b),
            Value::Item => ValueView::Item,
            Value::Reference(n) => ValueView::Reference(n@),
        }
    }
}

/// How a value is shown: text in double quotes, flags as `on` or `off`,
/// references as `&name`.
pub open spec fn value_display(v: ValueView) -> Seq<char> {
    match v {
        ValueView::Number(n) => n,
        ValueView::Text(s) => "\""@ + s + "\""@,
        ValueView::Flag(b) => if b {
            "on"@
        } else {
            "off"@
        },
        ValueView::Item => "item"@,
        ValueView::Reference(n) => "&"@ + n,
    }
}

impl Value {
    /// The value as shown to a user.
    pub fn to_display_string(&self) -> (r: String)
        ensures
            r@ == value_display(self@),
    {
        match self {
            Value::Number(n) => n.clone(),
            Value::Text(s) => owned("\"").concat(s.as_str()).concat("\""),
            Value::Flag(b) => if *b {
                owned("on")
            } else {
                owned("off")
            },
            Value::Item => owned("item"),
            Value::Reference(n) => owned("&").concat(n.as_str()),
        }
    }

    /// A copy of this value.
    pub fn duplicate(&self) -> (r: Value)
        ensures
            r == *self,
    {
        match self {
            Value::Number(n) => Value::Number(n.clone()),
            Value::Text(s) => Value::Text(s.clone()),
            Value::Flag(b) => Value::Flag(*b),
            Value::Item => Value::Item,
            Value::Reference(n) => Value::Reference(n.clone()),
        }
    }
}

/// A leaf of the tag tree, made directly from one token.
#[derive(Debug, Clone, PartialEq)]
pub enum Primitive {
    Identifier(String),
    /// A numeric literal, held as its decimal numeral.
    Number(String),
    String(String),
    Keyword(String),
}

/// A node of the tag tree: a leaf, or `[ltag : rtag]`.
#[derive(Debug, PartialEq)]
pub enum TagNode {
    Composite { ltag: Box<TagNode>, rtag: Box<TagNode> },
    Primitive(Primitive),
}

/// The value a primitive evaluates to.
pub open spec fn primitive_value(p: Primitive) -> ValueView {
    match p {
        Primitive::Identifier(s) => ValueView::Text(s@),
        Primitive::Number(n) => ValueView::Number(n@),
        Primitive::String(s) => ValueView::Text(s@),
        Primitive::Keyword(k) => if k@ == "on"@ {
            ValueView::Flag(true)
        } else if k@ == "off"@ {
            ValueView::Flag(false)
        } else {
            ValueView::Text(k@)
        },
    }
}

/// The text a primitive stands for, where it has one (numbers have none).
pub open spec fn primitive_text(p: Primitive) -> Option<Seq<char>> {
    match p {
        Primitive::Identifier(s) => Some(s@),
        Primitive::Number(_) => None,
        Primitive::String(s) => Some(s@),
        Primitive::Keyword(k) => Some(k@),
    }
}

/// How a primitive is shown: strings in double quotes, the others as written.
pub open spec fn primitive_display(p: Primitive) -> Seq<char> {
    match p {
        Primitive::Identifier(s) => s@,
        Primitive::Number(n) => n@,
        Primitive::String(s) => "\""@ + s@ + "\""@,
        Primitive::Keyword(k) => k@,
    }
}

/// The one-line form `[l: r]` of a tree.
pub open spec fn tree_display(t: TagNode) -> Seq<char>
    decreases t,
{
    match t {
        TagNode::Primitive(p) => primitive_display(p),
        TagNode::Composite { ltag, rtag } => "["@ + tree_display(*ltag) + ": "@ + tree_display(*rtag)
            + "]"@,
    }
}

/// The height of a tree: 0 for a leaf.
pub open spec fn height(t: TagNode) -> nat
    decreases t,
{
    match t {
        TagNode::Primitive(_) => 0,
        TagNode::Composite { ltag, rtag } => {
            let l = height(*ltag);
            let r = height(*rtag);
            1 + if l >= r {
                l
            } else {
                r
            }
        },
    }
}

/// The indented, multi-line form of a tree; `indent` is the indentation of its fields.
pub open spec fn tree_layout(t: TagNode, indent: nat) -> Seq<char>
    decreases t,
{
    match t {
        TagNode::Primitive(p) => primitive_display(p),
        TagNode::Composite { ltag, rtag } => "[\n"@ + spaces(indent) + "ltag: "@ + tree_layout(
            *ltag,
            indent + 2,
        ) + "\n"@ + spaces(indent) + "rtag: "@ + tree_layout(*rtag, indent + 2) + "\n"@ + spaces(
            (indent - 2) as nat,
        ) + "]"@,
    }
}

impl Primitive {
    /// The runtime value of this primitive: `on` and `off` become flags.
    pub fn to_value(&self) -> (r: Value)
        ensures
            r@ == primitive_value(*self),
    {
        match self {
            Primitive::Identifier(s) => Value::Text(s.clone()),
            Primitive::Number(n) => Value::Number(n.clone()),
            Primitive::String(s) => Value::Text(s.clone()),
            Primitive::Keyword(k) => {
                if is_literal(k, "on") {
                    Value::Flag(true)
                } else if is_literal(k, "off") {
                    Value::Flag(false)
                } else {
                    Value::Text(k.clone())
                }
            },
        }
    }

    /// The primitive as it appears in source; strings get their quotes back.
    pub fn as_display_string(&self) -> (r: String)
        ensures
            r@ == primitive_display(*self),
    {
        match self {
            Primitive::Identifier(s) => s.clone(),
            Primitive::Number(n) => n.clone(),
            Primitive::String(s) => owned("\"").concat(s.as_str()).concat("\""),
            Primitive::Keyword(k) => k.clone(),
        }
    }

    /// The text of this primitive, or `None` for a number.
    pub fn as_text(&self) -> (r: Option<String>)
        ensures
            match r {
                Some(s) => primitive_text(*self) == Some(s@),
                None => primitive_text(*self) is None,
            },
    {
        match self {
            Primitive::Identifier(s) => Some(s.clone()),
            Primitive::Number(_) => None,
            Primitive::String(s) => Some(s.clone()),
            Primitive::Keyword(k) => Some(k.clone()),
        }
    }
}

impl TagNode {
    /// Evaluates a tag without any context: a primitive gives its value, a
    /// composite gives `Item` once both of its sides have been evaluated.
    pub fn evaluate_ltag(&self) -> (r: Result<Value, String>)
        ensures
            r matches Ok(v) && v@ == match *self {
                TagNode::Primitive(p) => primitive_value(p),
                TagNode::Composite { .. } => ValueView::Item,
            },
        decreases self,
    {
        match self {
            TagNode::Primitive(p) => Ok(p.to_value()),
            TagNode::Composite { ltag, rtag } => {
                let _l = ltag.evaluate_ltag()?;
                let _r = rtag.evaluate_ltag()?;
                Ok(Value::Item)
            },
        }
    }

    /// Evaluates a tag without any context, as [`TagNode::evaluate_ltag`] does.
    pub fn evaluate_rtag(&self) -> (r: Result<Value, String>)
        ensures
            r matches Ok(v) && v@ == match *self {
                TagNode::Primitive(p) => primitive_value(p),
                TagNode::Composite { .. } => ValueView::Item,
            },
        decreases self,
    {
        match self {
            TagNode::Primitive(p) => Ok(p.to_value()),
            TagNode::Composite { ltag, rtag } => {
                let _l = ltag.evaluate_rtag()?;
                let _r = rtag.evaluate_rtag()?;
                Ok(Value::Item)
            },
        }
    }

    /// The tree on one line, as `[ltag: rtag]`.
    pub fn to_display_string(&self) -> (r: String)
        ensures
            r@ == tree_display(*self),
        decreases self,
    {
        match self {
            TagNode::Primitive(p) => p.as_display_string(),
            TagNode::Composite { ltag, rtag } => {
                let l = ltag.to_display_string();
                let r = rtag.to_display_string();
                owned("[").concat(l.as_str()).concat(": ").concat(r.as_str()).concat("]")
            },
        }
    }
}

/// The tree laid out over several lines, each side on a line of its own,
/// indented by `indent` spaces, with the closing bracket two spaces less.
pub fn format_tag(tag: &TagNode, indent: usize) -> (r: String)
    requires
        indent >= 2,
        indent + 2 * height(*tag) <= usize::MAX,
    ensures
        r@ == tree_layout(*tag, indent as nat),
    decreases tag,
{
    match tag {
        TagNode::Primitive(p) => p.as_display_string(),
        TagNode::Composite { ltag, rtag } => {
            let ind = repeat_space(indent);
            let l = format_tag(ltag, indent + 2);
            let r = format_tag(rtag, indent + 2);
            let close = repeat_space(indent - 2);
            owned("[\n").concat(ind.as_str()).concat("ltag: ").concat(l.as_str()).concat(
                "\n",
            ).concat(ind.as_str()).concat("rtag: ").concat(r.as_str()).concat("\n").concat(
                close.as_str(),
            ).concat("]")
        },
    }
}

} // verus!
