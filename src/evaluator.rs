//! The tree-walking evaluator.
//!
//! A tree is first validated as a whole, then executed. Execution keeps a
//! stack of frames, pushed and popped by `define`, and a global store filled
//! by `character`.
use vstd::prelude::*;
use vstd::string::*;
use crate::chars::{is_literal, owned};
use crate::name_map::NameMap;
use crate::tag::{height, primitive_text, primitive_value, Primitive, TagNode, Value, ValueView};

verus! {

/// The operations a tag can name.
#[derive(Debug, Clone, Copy, PartialEq, Eq, Structural)]
pub enum Operation {
    Define,
    /// `set`: assignment to a declared name.
    Assign,
    Character,
    Attribute,
    Text,
    Number,
    Flag,
    Item,
    List,
    Root,
}

/// The operation a name denotes, if it is one of the known names.
pub open spec fn operation_of(name: Seq<char>) -> Option<Operation> {
    if name == "define"@ {
        Some(Operation::Define)
    } else if name == "set"@ {
        Some(Operation::Assign)
    } else if name == "character"@ {
        Some(Operation::Character)
    } else if name == "attribute"@ {
        Some(Operation::Attribute)
    } else if name == "text"@ {
        Some(Operation::Text)
    } else if name == "number"@ {
        Some(Operation::Number)
    } else if name == "flag"@ {
        Some(Operation::Flag)
    } else if name == "item"@ {
        Some(Operation::Item)
    } else if name == "list"@ {
        Some(Operation::List)
    } else if name == "root"@ {
        Some(Operation::Root)
    } else {
        None
    }
}

/// The operation that `name` denotes, if any.
pub fn lookup_operation(name: &String) -> (r: Option<Operation>)
    ensures
        r == operation_of(name@),
{
    if is_literal(name, "define") {
        Some(Operation::Define)
    } else if is_literal(name, "set") {
        Some(Operation::Assign)
    } else if is_literal(name, "character") {
        Some(Operation::Character)
    } else if is_literal(name, "attribute") {
        Some(Operation::Attribute)
    } else if is_literal(name, "text") {
        Some(Operation::Text)
    } else if is_literal(name, "number") {
        Some(Operation::Number)
    } else if is_literal(name, "flag") {
        Some(Operation::Flag)
    } else if is_literal(name, "item") {
        Some(Operation::Item)
    } else if is_literal(name, "list") {
        Some(Operation::List)
    } else if is_literal(name, "root") {
        Some(Operation::Root)
    } else {
        None
    }
}

/// Why validation or evaluation failed.
#[derive(Debug, Clone, PartialEq)]
pub enum EvalError {
    /// An operation name bottoms out at a number.
    NonTextOperation,
    /// An operation name that no operation has.
    UnknownOperation(String),
    /// `character` was given something other than text.
    CharacterNameNotText,
    /// `attribute` was given something other than text.
    AttributeNameNotText,
    /// The left side of a `set` is not of the form `[set : target]`.
    MalformedSet,
    /// The target of a `set` did not evaluate to a reference.
    TargetNotReference,
    /// No active frame holds the name that a `set` assigns.
    UndefinedTarget(String),
}

/// The mathematical model of an [`EvalError`].
pub enum EvalErrorView {
    NonTextOperation,
    UnknownOperation(Seq<char>),
    CharacterNameNotText,
    AttributeNameNotText,
    MalformedSet,
    TargetNotReference,
    UndefinedTarget(Seq<char>),
}

impl View for EvalError {
    type V = EvalErrorView;

    open spec fn view(&self) -> EvalErrorView {
        match self {
            EvalError::NonTextOperation => EvalErrorView::NonTextOperation,
            EvalError::UnknownOperation(n) => EvalErrorView::UnknownOperation(n@),
            EvalError::CharacterNameNotText => EvalErrorView::CharacterNameNotText,
            EvalError::AttributeNameNotText => EvalErrorView::AttributeNameNotText,
            EvalError::MalformedSet => EvalErrorView::MalformedSet,
            EvalError::TargetNotReference => EvalErrorView::TargetNotReference,
            EvalError::UndefinedTarget(n) => EvalErrorView::UndefinedTarget(n@),
        }
    }
}

/// The model of an evaluation result.
pub open spec fn result_view(r: Result<Value, EvalError>) -> Result<ValueView, EvalErrorView> {
    match r {
        Ok(v) => Ok(v@),
        Err(e) => Err(e@),
    }
}

/// The model of a check's result.
pub open spec fn check_view(r: Result<(), EvalError>) -> Result<(), EvalErrorView> {
    match r {
        Ok(_) => Ok(()),
        Err(e) => Err(e@),
    }
}

/// The name of the operation that a left side denotes: the text of the
/// primitive reached by following left sides down.
pub open spec fn op_name(t: TagNode) -> Option<Seq<char>>
    decreases t,
{
    match t {
        TagNode::Primitive(p) => primitive_text(p),
        TagNode::Composite { ltag, .. } => op_name(*ltag),
    }
}

/// One scope: variables and attributes, each a map from names to values.
pub struct FrameView {
    pub variables: Map<Seq<char>, ValueView>,
    pub attributes: Map<Seq<char>, ValueView>,
}

/// What evaluation reads and changes: the frame stack, innermost last, and
/// the global store.
pub struct EvalState {
    pub frames: Seq<FrameView>,
    pub store: Map<Seq<char>, ValueView>,
}

/// A frame with nothing declared.
pub open spec fn empty_frame() -> FrameView {
    FrameView { variables: Map::empty(), attributes: Map::empty() }
}

/// The state on entering a `define` block.
pub open spec fn push_frame(s: EvalState) -> EvalState {
    EvalState { frames: s.frames.push(empty_frame()), ..s }
}

/// The state on leaving a `define` block.
pub open spec fn pop_frame(s: EvalState) -> EvalState {
    EvalState { frames: s.frames.drop_last(), ..s }
}

/// Whether some frame declares the attribute `n`.
pub open spec fn attribute_visible(frames: Seq<FrameView>, n: Seq<char>) -> bool {
    exists|i: int| 0 <= i < frames.len() && #[trigger] frames[i].attributes.contains_key(n)
}

/// Whether frame `f` holds `n`, as an attribute or as a variable.
pub open spec fn holds(f: FrameView, n: Seq<char>) -> bool {
    f.attributes.contains_key(n) || f.variables.contains_key(n)
}

/// The innermost of the first `k` frames that holds `n`.
pub open spec fn holder(frames: Seq<FrameView>, n: Seq<char>, k: int) -> Option<int>
    decreases k,
{
    if k <= 0 {
        None
    } else if holds(frames[k - 1], n) {
        Some(k - 1)
    } else {
        holder(frames, n, k - 1)
    }
}

/// The state after assigning `v` to `n` in the innermost frame that holds it,
/// attributes first; `None` where no frame holds `n`.
pub open spec fn assign(s: EvalState, n: Seq<char>, v: ValueView) -> Option<EvalState> {
    match holder(s.frames, n, s.frames.len() as int) {
        Some(i) => {
            let f = s.frames[i];
            let g = if f.attributes.contains_key(n) {
                FrameView { attributes: f.attributes.insert(n, v), ..f }
            } else {
                FrameView { variables: f.variables.insert(n, v), ..f }
            };
            Some(EvalState { frames: s.frames.update(i, g), ..s })
        },
        None => None,
    }
}

/// The state with the attribute `n` declared, as `Item`, in the innermost frame.
pub open spec fn declare(s: EvalState, n: Seq<char>) -> EvalState {
    let last = s.frames.len() - 1;
    let f = s.frames[last];
    EvalState {
        frames: s.frames.update(last, FrameView { attributes: f.attributes.insert(n, ValueView::Item), ..f }),
        ..s
    }
}

/// What the handler of `op` does with the evaluated right side `v`.
pub open spec fn apply(op: Operation, v: ValueView, s: EvalState) -> (Result<
    ValueView,
    EvalErrorView,
>, EvalState) {
    match op {
        Operation::Character => match v {
            ValueView::Text(n) => (
                Ok(ValueView::Text("character:"@ + n)),
                EvalState { store: s.store.insert(n, ValueView::Item), ..s },
            ),
            _ => (Err(EvalErrorView::CharacterNameNotText), s),
        },
        Operation::Attribute => match v {
            ValueView::Text(n) => (
                Ok(ValueView::Reference(n)),
                if attribute_visible(s.frames, n) {
                    s
                } else {
                    declare(s, n)
                },
            ),
            _ => (Err(EvalErrorView::AttributeNameNotText), s),
        },
        Operation::Item => (Ok(ValueView::Item), s),
        _ => (Ok(v), s),
    }
}

/// Evaluates `t` in state `s`: the result and the state after.
pub open spec fn eval(t: TagNode, s: EvalState) -> (Result<ValueView, EvalErrorView>, EvalState)
    decreases t,
{
    match t {
        TagNode::Primitive(p) => (Ok(primitive_value(p)), s),
        TagNode::Composite { ltag, rtag } => match op_name(*ltag) {
            None => (Err(EvalErrorView::NonTextOperation), s),
            Some(name) => match operation_of(name) {
                None => (Err(EvalErrorView::UnknownOperation(name)), s),
                Some(Operation::Define) => {
                    let (r, s1) = eval(*rtag, push_frame(s));
                    match r {
                        Ok(v) => (Ok(v), pop_frame(s1)),
                        Err(e) => (Err(e), s1),
                    }
                },
                Some(Operation::Assign) => match *ltag {
                    TagNode::Primitive(_) => (Err(EvalErrorView::MalformedSet), s),
                    TagNode::Composite { rtag: target, .. } => {
                        let (tr, s1) = eval(*target, s);
                        match tr {
                            Err(e) => (Err(e), s1),
                            Ok(tv) => {
                                let (vr, s2) = eval(*rtag, s1);
                                match vr {
                                    Err(e) => (Err(e), s2),
                                    Ok(v) => match tv {
                                        ValueView::Reference(n) => match assign(s2, n, v) {
                                            Some(s3) => (Ok(v), s3),
                                            None => (Err(EvalErrorView::UndefinedTarget(n)), s2),
                                        },
                                        _ => (Err(EvalErrorView::TargetNotReference), s2),
                                    },
                                }
                            },
                        }
                    },
                },
                Some(op) => {
                    let (r, s1) = eval(*rtag, s);
                    match r {
                        Ok(v) => apply(op, v, s1),
                        Err(e) => (Err(e), s1),
                    }
                },
            },
        },
    }
}

/// Checks every composite of `t`, left side, right side, then the node itself:
/// its operation name must be text and name a known operation.
pub open spec fn validate_tree(t: TagNode) -> Result<(), EvalErrorView>
    decreases t,
{
    match t {
        TagNode::Primitive(_) => Ok(()),
        TagNode::Composite { ltag, rtag } => match validate_tree(*ltag) {
            Err(e) => Err(e),
            Ok(_) => match validate_tree(*rtag) {
                Err(e) => Err(e),
                Ok(_) => match op_name(*ltag) {
                    None => Err(EvalErrorView::NonTextOperation),
                    Some(n) => if operation_of(n) is Some {
                        Ok(())
                    } else {
                        Err(EvalErrorView::UnknownOperation(n))
                    },
                },
            },
        },
    }
}

/// Validates `t`, then evaluates it if it is valid.
pub open spec fn execute(t: TagNode, s: EvalState) -> (Result<ValueView, EvalErrorView>, EvalState) {
    match validate_tree(t) {
        Err(e) => (Err(e), s),
        Ok(_) => eval(t, s),
    }
}

/// Evaluates the tags in order, stopping at the first error.
pub open spec fn eval_all(tags: Seq<TagNode>, s: EvalState) -> (Result<(), EvalErrorView>, EvalState)
    decreases tags.len(),
{
    if tags.len() == 0 {
        (Ok(()), s)
    } else {
        let (r, s1) = eval(tags[0], s);
        match r {
            Err(e) => (Err(e), s1),
            Ok(_) => eval_all(tags.drop_first(), s1),
        }
    }
}

/// Frames `f` and `g` declare the same names.
pub open spec fn same_names(f: FrameView, g: FrameView) -> bool {
    f.attributes.dom() == g.attributes.dom() && f.variables.dom() == g.variables.dom()
}

/// `s2` has as many frames as `s`; the frames below the innermost declare
/// the same names, and the innermost only gains attributes.
pub open spec fn scopes_kept(s: EvalState, s2: EvalState) -> bool {
    &&& s2.frames.len() == s.frames.len()
    &&& forall|i: int| 0 <= i < s.frames.len() - 1 ==> #[trigger] same_names(s.frames[i], s2.frames[i])
    &&& s.frames.len() > 0 ==> s.frames.last().attributes.dom().subset_of(
        s2.frames.last().attributes.dom(),
    ) && s2.frames.last().variables.dom() == s.frames.last().variables.dom()
}

/// Every frame of `s2` declares the same names as the same frame of `s`.
pub open spec fn names_kept(s: EvalState, s2: EvalState) -> bool {
    &&& s2.frames.len() == s.frames.len()
    &&& forall|i: int| 0 <= i < s.frames.len() ==> #[trigger] same_names(s.frames[i], s2.frames[i])
}

proof fn lemma_scopes_kept_trans(a: EvalState, b: EvalState, c: EvalState)
    requires
        scopes_kept(a, b),
        scopes_kept(b, c),
    ensures
        scopes_kept(a, c),
{
    assert forall|i: int| 0 <= i < a.frames.len() - 1 implies #[trigger] same_names(a.frames[i], c.frames[i]) by {
        assert(same_names(a.frames[i], b.frames[i]));
        assert(same_names(b.frames[i], c.frames[i]));
    }
}

proof fn lemma_names_kept_scopes(a: EvalState, b: EvalState)
    requires
        names_kept(a, b),
    ensures
        scopes_kept(a, b),
{
    if a.frames.len() > 0 {
        assert(same_names(a.frames[a.frames.len() - 1], b.frames[a.frames.len() - 1]));
        assert(a.frames.last().attributes.dom() == b.frames.last().attributes.dom());
    }
}

/// Assigning to a held name declares nothing new.
proof fn lemma_assign_names(s: EvalState, n: Seq<char>, v: ValueView)
    requires
        assign(s, n, v) is Some,
    ensures
        names_kept(s, assign(s, n, v)->Some_0),
{
    lemma_holder_range(s.frames, n, s.frames.len() as int);
    let i = holder(s.frames, n, s.frames.len() as int)->Some_0;
    let s2 = assign(s, n, v)->Some_0;
    let f = s.frames[i];
    if f.attributes.contains_key(n) {
        assert(f.attributes.insert(n, v).dom() =~= f.attributes.dom());
    } else {
        assert(f.variables.insert(n, v).dom() =~= f.variables.dom());
    }
    assert forall|j: int| 0 <= j < s.frames.len() implies #[trigger] same_names(s.frames[j], s2.frames[j]) by {
    }
}

/// The frame `holder` finds lies among the first `k` and holds the name.
proof fn lemma_holder_range(frames: Seq<FrameView>, n: Seq<char>, k: int)
    requires
        k <= frames.len(),
    ensures
        holder(frames, n, k) matches Some(i) ==> 0 <= i < k && holds(frames[i], n),
        holder(frames, n, k) is None ==> forall|j: int| 0 <= j < k ==> !holds(#[trigger] frames[j], n),
    decreases k,
{
    if k > 0 {
        lemma_holder_range(frames, n, k - 1);
    }
}

/// Successful evaluation keeps the scopes: as many frames as before, the
/// outer ones declaring the same names, the innermost gaining attributes only.
pub proof fn lemma_eval_scopes(t: TagNode, s: EvalState)
    requires
        s.frames.len() > 0,
    ensures
        eval(t, s).0 is Ok ==> scopes_kept(s, eval(t, s).1),
    decreases t,
{
    assert(s.frames.last().attributes.dom().subset_of(s.frames.last().attributes.dom()));
    assert forall|i: int| 0 <= i < s.frames.len() - 1 implies #[trigger] same_names(s.frames[i], s.frames[i]) by {}
    assert(scopes_kept(s, s));
    match t {
        TagNode::Primitive(_) => {
            assert(eval(t, s).1 == s);
        },
        TagNode::Composite { ltag, rtag } => {
            if let Some(name) = op_name(*ltag) {
                match operation_of(name) {
                    None => {},
                    Some(Operation::Define) => {
                        let p = push_frame(s);
                        lemma_eval_scopes(*rtag, p);
                        let (r, s1) = eval(*rtag, p);
                        if r is Ok {
                            let s2 = pop_frame(s1);
                            let n = s.frames.len();
                            assert forall|i: int| 0 <= i < n implies #[trigger] same_names(s.frames[i], s2.frames[i]) by {
                                assert(p.frames[i] == s.frames[i]);
                                assert(same_names(p.frames[i], s1.frames[i]));
                            }
                            assert(same_names(s.frames[n - 1], s2.frames[n - 1]));
                            assert(s.frames.last().attributes.dom() == s2.frames.last().attributes.dom());
                            assert(scopes_kept(s, s2));
                            assert(eval(t, s).1 == s2);
                        }
                    },
                    Some(Operation::Assign) => {
                        if let TagNode::Composite { rtag: target, .. } = *ltag {
                            lemma_eval_scopes(*target, s);
                            let (tr, s1) = eval(*target, s);
                            if tr is Ok {
                                lemma_eval_scopes(*rtag, s1);
                                let (vr, s2) = eval(*rtag, s1);
                                if vr is Ok {
                                    lemma_scopes_kept_trans(s, s1, s2);
                                    if let ValueView::Reference(n) = tr->Ok_0 {
                                        if assign(s2, n, vr->Ok_0) is Some {
                                            let s3 = assign(s2, n, vr->Ok_0)->Some_0;
                                            lemma_assign_names(s2, n, vr->Ok_0);
                                            lemma_names_kept_scopes(s2, s3);
                                            lemma_scopes_kept_trans(s, s2, s3);
                                        }
                                    }
                                }
                            }
                        }
                    },
                    Some(op) => {
                        lemma_eval_scopes(*rtag, s);
                        let (r, s1) = eval(*rtag, s);
                        if r is Ok {
                            assert(eval(t, s) == apply(op, r->Ok_0, s1));
                            if !(op == Operation::Attribute && r->Ok_0 is Text && !attribute_visible(s1.frames, r->Ok_0->Text_0)) {
                                assert(apply(op, r->Ok_0, s1).1.frames == s1.frames);
                            }
                            if op == Operation::Attribute {
                                if let ValueView::Text(n) = r->Ok_0 {
                                    if !attribute_visible(s1.frames, n) {
                                        let s2 = declare(s1, n);
                                        let last = s1.frames.len() - 1;
                                        assert(s2.frames[last].attributes.dom() =~= s1.frames[last].attributes.dom().insert(n));
                                        assert forall|i: int| 0 <= i < s.frames.len() - 1 implies #[trigger] same_names(s.frames[i], s2.frames[i]) by {
                                            assert(s2.frames[i] == s1.frames[i]);
                                            assert(same_names(s.frames[i], s1.frames[i]));
                                        }
                                        assert(scopes_kept(s, s2));
                                    }
                                }
                            }
                        }
                    },
                }
            }
        },
    }
}

/// The larger height of two trees.
pub open spec fn max_height(a: TagNode, b: TagNode) -> nat {
    if height(a) >= height(b) {
        height(a)
    } else {
        height(b)
    }
}

/// One scope record.
pub struct Frame {
    variables: NameMap,
    attributes: NameMap,
}

impl View for Frame {
    type V = FrameView;

    closed spec fn view(&self) -> FrameView {
        FrameView { variables: self.variables@, attributes: self.attributes@ }
    }
}

impl Frame {
    pub closed spec fn wf(&self) -> bool {
        self.variables.wf() && self.attributes.wf()
    }

    fn new() -> (r: Frame)
        ensures
            r.wf(),
            r@ == empty_frame(),
    {
        Frame { variables: NameMap::new(), attributes: NameMap::new() }
    }
}

/// Evaluates tag trees.
pub struct Evaluator {
    store: NameMap,
    frames: Vec<Frame>,
}

impl View for Evaluator {
    type V = EvalState;

    closed spec fn view(&self) -> EvalState {
        EvalState { frames: self.frames@.map_values(|f: Frame| f@), store: self.store@ }
    }
}

impl Evaluator {
    /// The frame stack is never empty, and every map in it is well formed.
    pub closed spec fn wf(&self) -> bool {
        &&& self.frames@.len() > 0
        &&& self.store.wf()
        &&& forall|i: int| 0 <= i < self.frames@.len() ==> #[trigger] self.frames@[i].wf()
    }

    /// An evaluator with one empty root frame and an empty store.
    pub fn new() -> (r: Evaluator)
        ensures
            r.wf(),
            r@ == (EvalState { frames: seq![empty_frame()], store: Map::empty() }),
    {
        let mut frames: Vec<Frame> = Vec::new();
        frames.push(Frame::new());
        let r = Evaluator { store: NameMap::new(), frames };
        assert(r@.frames =~= seq![empty_frame()]);
        r
    }

    /// The global store: the entities declared by `character`.
    pub fn store(&self) -> (r: &NameMap)
        requires
            self.wf(),
        ensures
            r.wf(),
            r@ == self@.store,
    {
        &self.store
    }

    /// The number of active frames.
    pub fn depth(&self) -> (r: usize)
        ensures
            r == self@.frames.len(),
    {
        self.frames.len()
    }

    /// The value of the attribute `name` in the innermost frame that declares it.
    pub fn attribute(&self, name: &str) -> (r: Option<Value>)
        requires
            self.wf(),
        ensures
            match r {
                Some(v) => exists|i: int|
                    0 <= i < self@.frames.len() && #[trigger] self@.frames[i].attributes.contains_key(name@)
                        && self@.frames[i].attributes[name@] == v@ && forall|j: int|
                        i < j < self@.frames.len() ==> !(#[trigger] self@.frames[j].attributes.contains_key(name@)),
                None => !attribute_visible(self@.frames, name@),
            },
    {
        let mut i = self.frames.len();
        while i > 0
            invariant
                i <= self.frames@.len(),
                self.wf(),
                forall|j: int|
                    i <= j < self@.frames.len() ==> !(#[trigger] self@.frames[j].attributes.contains_key(name@)),
            decreases i,
        {
            i = i - 1;
            assert(self.frames@[i as int].wf());
            assert(self@.frames[i as int] == self.frames@[i as int]@);
            let found = self.frames[i].attributes.get(name);
            if found.is_some() {
                assert(self@.frames[i as int].attributes.contains_key(name@));
                return found;
            }
        }
        None
    }

    /// The name of the operation that `ltag` denotes.
    fn extract_operation_name(&self, ltag: &TagNode) -> (r: Result<String, EvalError>)
        ensures
            match op_name(*ltag) {
                Some(n) => r matches Ok(s) && s@ == n,
                None => r matches Err(e) && e@ == EvalErrorView::NonTextOperation,
            },
        decreases ltag,
    {
        match ltag {
            TagNode::Primitive(p) => match p.as_text() {
                Some(s) => Ok(s),
                None => Err(EvalError::NonTextOperation),
            },
            TagNode::Composite { ltag: inner, .. } => self.extract_operation_name(inner),
        }
    }

    /// Whether some active frame declares the attribute `name`.
    fn attribute_declared(&self, name: &String) -> (r: bool)
        requires
            self.wf(),
        ensures
            r == attribute_visible(self@.frames, name@),
    {
        let mut i: usize = 0;
        while i < self.frames.len()
            invariant
                i <= self.frames@.len(),
                self.wf(),
                forall|j: int| 0 <= j < i ==> !(#[trigger] self@.frames[j].attributes.contains_key(name@)),
            decreases self.frames@.len() - i,
        {
            assert(self.frames@[i as int].wf());
            assert(self@.frames[i as int] == self.frames@[i as int]@);
            if self.frames[i].attributes.contains_key(name) {
                assert(self@.frames[i as int].attributes.contains_key(name@));
                return true;
            }
            i = i + 1;
        }
        false
    }

    /// Assigns `value` to `name` in the innermost frame that holds it.
    fn assign_slot(&mut self, name: &String, value: Value) -> (r: bool)
        requires
            old(self).wf(),
        ensures
            final(self).wf(),
            match assign(old(self)@, name@, value@) {
                Some(s) => r && final(self)@ == s,
                None => !r && final(self)@ == old(self)@,
            },
    {
        let n = self.frames.len();
        let mut i = n;
        while i > 0
            invariant
                i <= n,
                n == self.frames@.len(),
                self.wf(),
                *self == *old(self),
                holder(self@.frames, name@, n as int) == holder(self@.frames, name@, i as int),
            decreases i,
        {
            i = i - 1;
            assert(self.frames@[i as int].wf());
            if self.frames[i].attributes.contains_key(name) {
                let ghost before = self.frames@;
                self.frames[i].attributes.insert(name.clone(), value);
                assert(self.frames@ =~= before.update(i as int, self.frames@[i as int]));
                assert(self@.frames =~= old(self)@.frames.update(i as int, self@.frames[i as int]));
                return true;
            }
            if self.frames[i].variables.contains_key(name) {
                let ghost before = self.frames@;
                self.frames[i].variables.insert(name.clone(), value);
                assert(self.frames@ =~= before.update(i as int, self.frames@[i as int]));
                assert(self@.frames =~= old(self)@.frames.update(i as int, self@.frames[i as int]));
                return true;
            }
        }
        false
    }

    /// Runs a `define` block: evaluates `content` in a fresh frame, then pops it.
    fn handle_define_block(&mut self, content: &TagNode) -> (r: Result<Value, EvalError>)
        requires
            old(self).wf(),
        ensures
            final(self).wf(),
            (result_view(r), final(self)@) == ({
                let (r0, s1) = eval(*content, push_frame(old(self)@));
                match r0 {
                    Ok(v) => (Ok(v), pop_frame(s1)),
                    Err(e) => (Err::<ValueView, EvalErrorView>(e), s1),
                }
            }),
        decreases height(*content), 1nat,
    {
        self.frames.push(Frame::new());
        assert(self@ == push_frame(old(self)@)) by {
            assert(self@.frames =~= push_frame(old(self)@).frames);
        }
        proof {
            lemma_eval_scopes(*content, push_frame(old(self)@));
        }
        let result = self.evaluate_tag(content)?;
        let ghost mid = self.frames@;
        self.frames.pop();
        assert(self@.frames =~= mid.map_values(|f: Frame| f@).drop_last());
        assert forall|i: int| 0 <= i < self.frames@.len() implies #[trigger] self.frames@[i].wf() by {
            assert(self.frames@[i] == mid[i]);
        }
        Ok(result)
    }

    /// Runs a `set`: `set_expr` is `[set : target]`; the target must evaluate
    /// to a reference, and the value of `value_tag` is assigned to it.
    fn handle_set_block(&mut self, set_expr: &TagNode, value_tag: &TagNode) -> (r: Result<
        Value,
        EvalError,
    >)
        requires
            old(self).wf(),
            op_name(*set_expr) matches Some(n) && operation_of(n) == Some(Operation::Assign),
        ensures
            final(self).wf(),
            (result_view(r), final(self)@) == eval(
                TagNode::Composite { ltag: Box::new(*set_expr), rtag: Box::new(*value_tag) },
                old(self)@,
            ),
        decreases max_height(*set_expr, *value_tag), 1nat,
    {
        let target = match set_expr {
            TagNode::Composite { rtag, .. } => rtag,
            TagNode::Primitive(_) => {
                return Err(EvalError::MalformedSet);
            },
        };
        let target_value = self.evaluate_tag(target)?;
        let value = self.evaluate_tag(value_tag)?;
        match target_value {
            Value::Reference(name) => {
                let result = value.duplicate();
                if self.assign_slot(&name, value) {
                    Ok(result)
                } else {
                    Err(EvalError::UndefinedTarget(name))
                }
            },
            _ => Err(EvalError::TargetNotReference),
        }
    }

    /// Validates the whole tree: every operation name must be text and name a
    /// known operation. Nothing is evaluated.
    pub fn validate(&self, root: &TagNode) -> (r: Result<(), EvalError>)
        ensures
            check_view(r) == validate_tree(*root),
    {
        self.validate_tag(root)
    }

    fn validate_tag(&self, tag: &TagNode) -> (r: Result<(), EvalError>)
        ensures
            check_view(r) == validate_tree(*tag),
        decreases tag,
    {
        match tag {
            TagNode::Primitive(_) => Ok(()),
            TagNode::Composite { ltag, rtag } => {
                self.validate_tag(ltag)?;
                self.validate_tag(rtag)?;
                let name = self.extract_operation_name(ltag)?;
                match lookup_operation(&name) {
                    Some(_) => Ok(()),
                    None => Err(EvalError::UnknownOperation(name)),
                }
            },
        }
    }

    /// Validates `root`, then evaluates it. A tree that fails validation
    /// leaves the evaluator as it was.
    pub fn execute_root(&mut self, root: &TagNode) -> (r: Result<Value, EvalError>)
        requires
            old(self).wf(),
        ensures
            final(self).wf(),
            (result_view(r), final(self)@) == execute(*root, old(self)@),
    {
        self.validate(root)?;
        self.evaluate_tag(root)
    }

    /// Evaluates each tag in order, stopping at the first error.
    pub fn evaluate_tags(&mut self, tags: &[TagNode]) -> (r: Result<(), EvalError>)
        requires
            old(self).wf(),
        ensures
            final(self).wf(),
            (check_view(r), final(self)@) == eval_all(tags@, old(self)@),
    {
        let mut i: usize = 0;
        assert(tags@.subrange(0, tags@.len() as int) =~= tags@);
        while i < tags.len()
            invariant
                i <= tags@.len(),
                self.wf(),
                eval_all(tags@, old(self)@) == eval_all(tags@.subrange(i as int, tags@.len() as int), self@),
            decreases tags@.len() - i,
        {
            let ghost rest = tags@.subrange(i as int, tags@.len() as int);
            assert(rest.drop_first() =~= tags@.subrange(i + 1, tags@.len() as int));
            self.evaluate_tag(&tags[i])?;
            i = i + 1;
        }
        assert(tags@.subrange(i as int, tags@.len() as int) =~= Seq::<TagNode>::empty());
        Ok(())
    }

    /// Evaluates one tag: a primitive gives its value; a composite is
    /// dispatched on the operation its left side names.
    pub fn evaluate_tag(&mut self, tag: &TagNode) -> (r: Result<Value, EvalError>)
        requires
            old(self).wf(),
        ensures
            final(self).wf(),
            (result_view(r), final(self)@) == eval(*tag, old(self)@),
        decreases height(*tag), 0nat,
    {
        match tag {
            TagNode::Primitive(p) => Ok(p.to_value()),
            TagNode::Composite { ltag, rtag } => {
                let name = self.extract_operation_name(ltag)?;
                match lookup_operation(&name) {
                    None => Err(EvalError::UnknownOperation(name)),
                    Some(Operation::Define) => self.handle_define_block(rtag),
                    Some(Operation::Assign) => self.handle_set_block(ltag, rtag),
                    Some(op) => {
                        let v = self.evaluate_tag(rtag)?;
                        self.execute_operation(op, v)
                    },
                }
            },
        }
    }

    /// Runs the handler of `op` on the evaluated right side `v`.
    fn execute_operation(&mut self, op: Operation, v: Value) -> (r: Result<Value, EvalError>)
        requires
            old(self).wf(),
        ensures
            final(self).wf(),
            (result_view(r), final(self)@) == apply(op, v@, old(self)@),
    {
        match op {
            Operation::Character => self.handle_character(v),
            Operation::Attribute => self.handle_attribute(v),
            Operation::Item => Ok(Value::Item),
            _ => Ok(v),
        }
    }

    /// Declares the entity `name` in the global store.
    fn handle_character(&mut self, v: Value) -> (r: Result<Value, EvalError>)
        requires
            old(self).wf(),
        ensures
            final(self).wf(),
            (result_view(r), final(self)@) == apply(Operation::Character, v@, old(self)@),
    {
        match v {
            Value::Text(name) => {
                let shown = owned("character:").concat(name.as_str());
                self.store.insert(name, Value::Item);
                Ok(Value::Text(shown))
            },
            _ => Err(EvalError::CharacterNameNotText),
        }
    }

    /// Declares the attribute `name` in the innermost frame unless some frame
    /// declares it already, and returns a reference to it.
    fn handle_attribute(&mut self, v: Value) -> (r: Result<Value, EvalError>)
        requires
            old(self).wf(),
        ensures
            final(self).wf(),
            (result_view(r), final(self)@) == apply(Operation::Attribute, v@, old(self)@),
    {
        match v {
            Value::Text(name) => {
                if !self.attribute_declared(&name) {
                    let last = self.frames.len() - 1;
                    assert(self.frames@[last as int].wf());
                    let ghost before = self.frames@;
                    self.frames[last].attributes.insert(name.clone(), Value::Item);
                    assert(self.frames@ =~= before.update(last as int, self.frames@[last as int]));
                    assert(self@.frames =~= declare(old(self)@, name@).frames);
                }
                Ok(Value::Reference(name))
            },
            _ => Err(EvalError::AttributeNameNotText),
        }
    }
}

/// Whether every composite of `t` names, by text, one of the known operations.
pub open spec fn all_operations_known(t: TagNode) -> bool
    decreases t,
{
    match t {
        TagNode::Primitive(_) => true,
        TagNode::Composite { ltag, rtag } => {
            &&& all_operations_known(*ltag)
            &&& all_operations_known(*rtag)
            &&& op_name(*ltag) is Some
            &&& operation_of(op_name(*ltag)->Some_0) is Some
        },
    }
}

/// Whether `t` names the operation `op`.
pub open spec fn names_operation(t: TagNode, op: Operation) -> bool {
    op_name(t) is Some && operation_of(op_name(t)->Some_0) == Some(op)
}

/// Validation accepts a tree exactly when every composite in it names a known operation.
pub proof fn lemma_validate_accepts_known(t: TagNode)
    ensures
        validate_tree(t) is Ok <==> all_operations_known(t),
    decreases t,
{
    if let TagNode::Composite { ltag, rtag } = t {
        lemma_validate_accepts_known(*ltag);
        lemma_validate_accepts_known(*rtag);
    }
}

/// Validation precedes execution: executing a tree that anywhere names an
/// operation outside `define`, `set`, `character`, `text`, `number`, `flag`,
/// `item`, `list`, `root` and `attribute` fails before any handler runs, and
/// leaves the frames and the global store exactly as they were, whatever
/// earlier parts of the tree would have done.
pub proof fn lemma_unknown_operation_rejected(t: TagNode, s: EvalState)
    requires
        !all_operations_known(t),
    ensures
        execute(t, s).0 is Err,
        execute(t, s).1 == s,
{
    lemma_validate_accepts_known(t);
}

/// The frames before index `k` decide `holder` over the first `k` frames.
proof fn lemma_holder_prefix(a: Seq<FrameView>, b: Seq<FrameView>, n: Seq<char>, k: int)
    requires
        k <= a.len(),
        k <= b.len(),
        forall|i: int| 0 <= i < k ==> a[i] == b[i],
    ensures
        holder(a, n, k) == holder(b, n, k),
    decreases k,
{
    if k > 0 {
        lemma_holder_prefix(a, b, n, k - 1);
    }
}

/// An attribute is declared once for all the scopes that can see it: in a
/// `define` block nested where an enclosing frame already declares `n`,
/// `attribute(n)` creates no second binding (the state is unchanged) and
/// returns a reference that resolves to the enclosing frame's slot.
pub proof fn lemma_attribute_declared_once(s: EvalState, n: Seq<char>)
    requires
        attribute_visible(s.frames, n),
    ensures
        apply(Operation::Attribute, ValueView::Text(n), push_frame(s)) == (
            Ok::<ValueView, EvalErrorView>(ValueView::Reference(n)),
            push_frame(s),
        ),
        holder(push_frame(s).frames, n, s.frames.len() + 1int) == holder(
            s.frames,
            n,
            s.frames.len() as int,
        ),
        holder(s.frames, n, s.frames.len() as int) is Some,
{
    let p = push_frame(s);
    let i = choose|i: int| 0 <= i < s.frames.len() && #[trigger] s.frames[i].attributes.contains_key(n);
    assert(p.frames[i] == s.frames[i]);
    assert(attribute_visible(p.frames, n));
    assert(!holds(p.frames[s.frames.len() as int], n));
    lemma_holder_prefix(p.frames, s.frames, n, s.frames.len() as int);
    lemma_holder_range(s.frames, n, s.frames.len() as int);
    assert(holds(s.frames[i], n));
}

/// Frames pop when their `define` block completes: once a `define` block has
/// run, every frame declares the same names as before it, so the names the
/// block declared are gone and a `set` of a name that no frame held before
/// finds no slot.
pub proof fn lemma_define_closes_scope(ltag: TagNode, body: TagNode, s: EvalState, n: Seq<char>)
    requires
        s.frames.len() > 0,
        names_operation(ltag, Operation::Define),
        eval(TagNode::Composite { ltag: Box::new(ltag), rtag: Box::new(body) }, s).0 is Ok,
        forall|i: int| 0 <= i < s.frames.len() ==> !holds(#[trigger] s.frames[i], n),
    ensures
        names_kept(s, eval(TagNode::Composite { ltag: Box::new(ltag), rtag: Box::new(body) }, s).1),
        forall|v: ValueView|
            #[trigger] assign(
                eval(TagNode::Composite { ltag: Box::new(ltag), rtag: Box::new(body) }, s).1,
                n,
                v,
            ) is None,
{
    let t = TagNode::Composite { ltag: Box::new(ltag), rtag: Box::new(body) };
    let p = push_frame(s);
    lemma_eval_scopes(body, p);
    let s1 = eval(body, p).1;
    let s2 = eval(t, s).1;
    assert(s2 == pop_frame(s1));
    assert forall|i: int| 0 <= i < s.frames.len() implies #[trigger] same_names(s.frames[i], s2.frames[i]) by {
        assert(p.frames[i] == s.frames[i]);
        assert(same_names(p.frames[i], s1.frames[i]));
    }
    assert forall|v: ValueView| #[trigger] assign(s2, n, v) is None by {
        lemma_holder_range(s2.frames, n, s2.frames.len() as int);
        if holder(s2.frames, n, s2.frames.len() as int) is Some {
            let i = holder(s2.frames, n, s2.frames.len() as int)->Some_0;
            assert(same_names(s.frames[i], s2.frames[i]));
            assert(!holds(s.frames[i], n));
        }
    }
}

/// A `set` whose target is a `define` block that declares `n` in its own
/// frame and yields a reference to it fails with an undefined-target error
/// when no frame held `n` before: the block's frame is gone by the time the
/// value is assigned.
pub proof fn lemma_set_after_scope_closed(
    set_kw: TagNode,
    define_kw: TagNode,
    body: TagNode,
    value: Primitive,
    s: EvalState,
    n: Seq<char>,
)
    requires
        s.frames.len() > 0,
        names_operation(set_kw, Operation::Assign),
        names_operation(define_kw, Operation::Define),
        forall|i: int| 0 <= i < s.frames.len() ==> !holds(#[trigger] s.frames[i], n),
        eval(TagNode::Composite { ltag: Box::new(define_kw), rtag: Box::new(body) }, s).0 == Ok::<
            ValueView,
            EvalErrorView,
        >(ValueView::Reference(n)),
    ensures
        eval(
            TagNode::Composite {
                ltag: Box::new(
                    TagNode::Composite {
                        ltag: Box::new(set_kw),
                        rtag: Box::new(TagNode::Composite { ltag: Box::new(define_kw), rtag: Box::new(body) }),
                    },
                ),
                rtag: Box::new(TagNode::Primitive(value)),
            },
            s,
        ).0 == Err::<ValueView, EvalErrorView>(EvalErrorView::UndefinedTarget(n)),
{
    lemma_define_closes_scope(define_kw, body, s, n);
    let target = TagNode::Composite { ltag: Box::new(define_kw), rtag: Box::new(body) };
    let s1 = eval(target, s).1;
    let set_expr = TagNode::Composite { ltag: Box::new(set_kw), rtag: Box::new(target) };
    assert(op_name(set_expr) == op_name(set_kw));
    assert(eval(TagNode::Primitive(value), s1) == (Ok::<ValueView, EvalErrorView>(primitive_value(value)), s1));
    assert(assign(s1, n, primitive_value(value)) is None);
}

} // verus!
