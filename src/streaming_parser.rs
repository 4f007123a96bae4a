//! The streaming tag parser: a token stream becomes one root tag tree.
//!
//! Tags are built on an explicit stack of tags in progress. Every complete
//! top-level tag is collected, and the collection is normalised into
//! `[root : [list : ...]]`, so that the evaluator always receives one tree.
use vstd::prelude::*;
use crate::chars::owned;
use crate::lexer::Token;
use crate::tag::{Primitive, TagNode};

verus! {

/// What went wrong while parsing.
#[derive(Debug, Clone, Copy, PartialEq, Eq, Structural)]
pub enum ParseErrorKind {
    /// A top-level tag does not start with `[`.
    ExpectedOpenBracket,
    /// A part arrived for a side of a tag that is already filled.
    SlotFilled,
    /// A `:` came before the left side of its tag.
    MissingLeft,
    /// A `]` closed a tag with an empty side.
    IncompleteTag,
    /// The input ended inside a tag.
    UnexpectedEnd,
    /// A token that has no place in a tag.
    UnexpectedToken,
}

/// A parse failure with its context.
#[derive(Debug, Clone, Copy, PartialEq, Eq, Structural)]
pub struct ParseError {
    pub kind: ParseErrorKind,
    /// Index of the offending token in the stream.
    pub position: usize,
    /// Number of tags in progress at the time of the failure.
    pub depth: usize,
    /// Whether the innermost tag in progress had its left side.
    pub left_filled: bool,
    /// Whether the innermost tag in progress had its right side.
    pub right_filled: bool,
}

/// Which side of a tag in progress the next part goes to.
#[derive(Debug, Clone, Copy, PartialEq, Eq, Structural)]
pub enum TagParseState {
    ParsingLTag,
    ParsingRTag,
}

/// A tag whose `]` has not been seen yet.
pub struct TagInProgress {
    pub state: TagParseState,
    pub ltag: Option<TagNode>,
    pub rtag: Option<TagNode>,
}

/// A tag in progress with both sides empty, awaiting its left side.
pub open spec fn fresh() -> TagInProgress {
    TagInProgress { state: TagParseState::ParsingLTag, ltag: None, rtag: None }
}

/// The tag in progress with `node` put in its active side, or `None` where
/// that side is already filled.
pub open spec fn place(f: TagInProgress, node: TagNode) -> Option<TagInProgress> {
    match f.state {
        TagParseState::ParsingLTag => if f.ltag is Some {
            None
        } else {
            Some(TagInProgress { ltag: Some(node), ..f })
        },
        TagParseState::ParsingRTag => if f.rtag is Some {
            None
        } else {
            Some(TagInProgress { rtag: Some(node), ..f })
        },
    }
}

/// The leaf a token stands for, if it is a primitive.
pub open spec fn primitive_of(t: Token) -> Option<Primitive> {
    match t {
        Token::Identifier(s) => Some(Primitive::Identifier(s)),
        Token::Number(n) => Some(Primitive::Number(n)),
        Token::String(s) => Some(Primitive::String(s)),
        Token::Keyword(k) => Some(Primitive::Keyword(k)),
        _ => None,
    }
}

/// The composite tag `[l : r]`.
pub open spec fn composite(l: TagNode, r: TagNode) -> TagNode {
    TagNode::Composite { ltag: Box::new(l), rtag: Box::new(r) }
}

/// An error of `kind` at `pos`, described by the innermost tag in progress.
pub open spec fn error_at(
    kind: ParseErrorKind,
    pos: int,
    stack: Seq<TagInProgress>,
) -> ParseError {
    let top = stack.last();
    ParseError {
        kind,
        position: pos as usize,
        depth: stack.len() as usize,
        left_filled: stack.len() > 0 && top.ltag is Some,
        right_filled: stack.len() > 0 && top.rtag is Some,
    }
}

/// Runs the parser from token `pos` with `stack` in progress and the complete
/// top-level tags `done`, to the end of the input. Past the last token the
/// stream reads as [`Token::Eof`].
pub open spec fn run(
    toks: Seq<Token>,
    pos: int,
    stack: Seq<TagInProgress>,
    done: Seq<TagNode>,
) -> Result<Seq<TagNode>, ParseError>
    decreases toks.len() - pos,
{
    let tok = if 0 <= pos < toks.len() {
        toks[pos]
    } else {
        Token::Eof
    };
    if pos < 0 {
        Err(error_at(ParseErrorKind::UnexpectedToken, pos, stack))
    } else if stack.len() == 0 {
        match tok {
            Token::Eof => Ok(done),
            Token::OpenBracket => run(toks, pos + 1, seq![fresh()], done),
            _ => Err(error_at(ParseErrorKind::ExpectedOpenBracket, pos, stack)),
        }
    } else {
        let last = stack.len() - 1;
        let top = stack[last];
        match tok {
            Token::Eof => Err(error_at(ParseErrorKind::UnexpectedEnd, pos, stack)),
            Token::OpenBracket => run(toks, pos + 1, stack.push(fresh()), done),
            Token::CloseBracket => {
                if top.ltag is Some && top.rtag is Some {
                    let node = composite(top.ltag->Some_0, top.rtag->Some_0);
                    let rest = stack.drop_last();
                    if rest.len() == 0 {
                        run(toks, pos + 1, rest, done.push(node))
                    } else {
                        match place(rest.last(), node) {
                            Some(f) => run(toks, pos + 1, rest.update(rest.len() - 1, f), done),
                            None => Err(error_at(ParseErrorKind::SlotFilled, pos, rest)),
                        }
                    }
                } else {
                    Err(error_at(ParseErrorKind::IncompleteTag, pos, stack))
                }
            },
            Token::Colon => {
                if top.ltag is None {
                    Err(error_at(ParseErrorKind::MissingLeft, pos, stack))
                } else {
                    run(
                        toks,
                        pos + 1,
                        stack.update(last, TagInProgress { state: TagParseState::ParsingRTag, ..top }),
                        done,
                    )
                }
            },
            Token::Comma => run(toks, pos + 1, stack, done),
            _ => match primitive_of(tok) {
                Some(p) => match place(top, TagNode::Primitive(p)) {
                    Some(f) => run(toks, pos + 1, stack.update(last, f), done),
                    None => Err(error_at(ParseErrorKind::SlotFilled, pos, stack)),
                },
                None => Err(error_at(ParseErrorKind::UnexpectedToken, pos, stack)),
            },
        }
    }
}

/// Whether `t` is the keyword leaf `k`.
pub open spec fn is_keyword(t: TagNode, k: Seq<char>) -> bool {
    t matches TagNode::Primitive(Primitive::Keyword(s)) && s@ == k
}

/// The right-nested chain `t0 : (t1 : (... : last))` of a non-empty sequence of tags.
pub open spec fn chain(tags: Seq<TagNode>) -> TagNode
    recommends
        tags.len() > 0,
    decreases tags.len(),
{
    if tags.len() <= 1 {
        tags[0]
    } else {
        composite(tags[0], chain(tags.drop_first()))
    }
}

/// Whether `t` is `[list : item]` for no tags, and `[list : chain(tags)]` otherwise.
pub open spec fn is_list_of(t: TagNode, tags: Seq<TagNode>) -> bool {
    match t {
        TagNode::Composite { ltag, rtag } => is_keyword(*ltag, "list"@) && if tags.len() == 0 {
            is_keyword(*rtag, "item"@)
        } else {
            *rtag == chain(tags)
        },
        TagNode::Primitive(_) => false,
    }
}

/// Whether `t` is `[root : L]` where `L` is the list of `tags`.
pub open spec fn is_root_of(t: TagNode, tags: Seq<TagNode>) -> bool {
    match t {
        TagNode::Composite { ltag, rtag } => is_keyword(*ltag, "root"@) && is_list_of(*rtag, tags),
        TagNode::Primitive(_) => false,
    }
}

/// The node `i` steps down the right spine of `t`.
pub open spec fn spine(t: TagNode, i: nat) -> TagNode
    decreases i,
{
    if i == 0 {
        t
    } else {
        match t {
            TagNode::Composite { rtag, .. } => spine(*rtag, (i - 1) as nat),
            TagNode::Primitive(_) => t,
        }
    }
}

/// The left side of a composite.
pub open spec fn left_of(t: TagNode) -> Option<TagNode> {
    match t {
        TagNode::Composite { ltag, .. } => Some(*ltag),
        TagNode::Primitive(_) => None,
    }
}

/// Stepping one node down the right spine of a chain of two or more tags
/// lands on the chain of the remaining tags.
proof fn lemma_spine_step(tags: Seq<TagNode>, i: nat)
    requires
        tags.len() > 1,
    ensures
        spine(chain(tags), i + 1) == spine(chain(tags.drop_first()), i),
{
}

/// Along the right spine of `chain(tags)`, the node `i` steps down holds
/// `tags[i]` on its left, for every tag but the last, and the last tag is the
/// node reached after `tags.len() - 1` steps.
proof fn lemma_chain_spine(tags: Seq<TagNode>)
    requires
        tags.len() > 0,
    ensures
        forall|i: int|
            0 <= i < tags.len() - 1 ==> left_of(#[trigger] spine(chain(tags), i as nat)) == Some(tags[i]),
        spine(chain(tags), (tags.len() - 1) as nat) == tags.last(),
    decreases tags.len(),
{
    if tags.len() > 1 {
        let rest = tags.drop_first();
        lemma_chain_spine(rest);
        assert forall|i: int| 0 <= i < tags.len() - 1 implies left_of(#[trigger] spine(chain(tags), i as nat)) == Some(tags[i]) by {
            if i > 0 {
                lemma_spine_step(tags, (i - 1) as nat);
                assert(left_of(spine(chain(rest), (i - 1) as nat)) == Some(rest[i - 1]));
            }
        }
        lemma_spine_step(tags, (tags.len() - 2) as nat);
    }
}

/// The normal form of a non-empty program of `n` top-level tags is
/// `[root : [list : C]]`, where `C` is a right-nested chain of exactly `n`
/// elements: the `i`-th node down its right spine holds the `i`-th tag on its
/// left, and the last tag is the chain's final right-hand leaf.
pub proof fn lemma_list_normalization(t: TagNode, tags: Seq<TagNode>)
    requires
        tags.len() > 0,
        is_root_of(t, tags),
    ensures
        match t {
            TagNode::Composite { ltag: root, rtag: list } => {
                &&& is_keyword(*root, "root"@)
                &&& match *list {
                    TagNode::Composite { ltag: kw, rtag: c } => {
                        &&& is_keyword(*kw, "list"@)
                        &&& forall|i: int|
                            0 <= i < tags.len() - 1 ==> left_of(#[trigger] spine(*c, i as nat)) == Some(tags[i])
                        &&& spine(*c, (tags.len() - 1) as nat) == tags.last()
                    },
                    TagNode::Primitive(_) => false,
                }
            },
            TagNode::Primitive(_) => false,
        },
{
    lemma_chain_spine(tags);
}

impl TagInProgress {
    fn new() -> (r: Self)
        ensures
            r == fresh(),
    {
        TagInProgress { state: TagParseState::ParsingLTag, ltag: None, rtag: None }
    }

    fn is_complete(&self) -> (r: bool)
        ensures
            r == (self.ltag is Some && self.rtag is Some),
    {
        self.ltag.is_some() && self.rtag.is_some()
    }

    /// Puts `node` in the active side; hands the tag back unchanged where
    /// that side is already filled.
    fn put(self, node: TagNode) -> (r: Result<TagInProgress, TagInProgress>)
        ensures
            match place(self, node) {
                Some(f) => r == Ok::<TagInProgress, TagInProgress>(f),
                None => r == Err::<TagInProgress, TagInProgress>(self),
            },
    {
        match self.state {
            TagParseState::ParsingLTag => {
                if self.ltag.is_some() {
                    Err(self)
                } else {
                    Ok(TagInProgress { state: self.state, ltag: Some(node), rtag: self.rtag })
                }
            },
            TagParseState::ParsingRTag => {
                if self.rtag.is_some() {
                    Err(self)
                } else {
                    Ok(TagInProgress { state: self.state, ltag: self.ltag, rtag: Some(node) })
                }
            },
        }
    }

    /// The complete tag as a composite node.
    fn to_composite(self) -> (r: TagNode)
        requires
            self.ltag is Some && self.rtag is Some,
        ensures
            r == composite(self.ltag->Some_0, self.rtag->Some_0),
    {
        TagNode::Composite { ltag: Box::new(self.ltag.unwrap()), rtag: Box::new(self.rtag.unwrap()) }
    }
}

/// The leaf that a token stands for, if it is a primitive.
fn primitive_from(t: &Token) -> (r: Option<Primitive>)
    ensures
        r == primitive_of(*t),
{
    match t {
        Token::Identifier(s) => Some(Primitive::Identifier(s.clone())),
        Token::Number(n) => Some(Primitive::Number(n.clone())),
        Token::String(s) => Some(Primitive::String(s.clone())),
        Token::Keyword(k) => Some(Primitive::Keyword(k.clone())),
        _ => None,
    }
}

/// The parser's error for `kind` at `pos`, from the stack it holds.
fn make_error(kind: ParseErrorKind, pos: usize, stack: &Vec<TagInProgress>) -> (r: ParseError)
    ensures
        r == error_at(kind, pos as int, stack@),
{
    let n = stack.len();
    if n == 0 {
        ParseError { kind, position: pos, depth: 0, left_filled: false, right_filled: false }
    } else {
        let top = &stack[n - 1];
        ParseError {
            kind,
            position: pos,
            depth: n,
            left_filled: top.ltag.is_some(),
            right_filled: top.rtag.is_some(),
        }
    }
}

/// Parses a stream of tokens into one root tag tree.
pub struct StreamingParser {
    tokens: Vec<Token>,
    position: usize,
}

impl StreamingParser {
    /// The token stream.
    pub closed spec fn token_seq(&self) -> Seq<Token> {
        self.tokens@
    }

    /// The index of the next token to read.
    pub closed spec fn pos(&self) -> int {
        self.position as int
    }

    /// The position lies within the stream, or just past it.
    pub closed spec fn wf(&self) -> bool {
        self.position <= self.tokens@.len()
    }

    /// A parser at the start of `tokens`.
    pub fn new(tokens: Vec<Token>) -> (r: Self)
        ensures
            r.wf(),
            r.token_seq() == tokens@,
            r.pos() == 0,
    {
        StreamingParser { tokens, position: 0 }
    }

    fn at_end(&self) -> (r: bool)
        ensures
            r == (self.position >= self.tokens@.len() || self.tokens@[self.position as int]
                is Eof),
    {
        self.position >= self.tokens.len() || matches!(self.tokens[self.position], Token::Eof)
    }

    fn advance(&mut self)
        ensures
            final(self).tokens == old(self).tokens,
            final(self).position == if old(self).position < old(self).tokens@.len() {
                old(self).position + 1
            } else {
                old(self).position as int
            },
    {
        if self.position < self.tokens.len() {
            self.position += 1;
        }
    }

    /// Parses every top-level tag and wraps them as `[root : [list : ...]]`.
    /// The result is an error exactly when the token stream is not a sequence
    /// of complete tags, and then it is the first error met.
    pub fn parse(&mut self) -> (r: Result<TagNode, ParseError>)
        requires
            old(self).wf(),
        ensures
            final(self).wf(),
            final(self).token_seq() == old(self).token_seq(),
            match run(old(self).token_seq(), old(self).pos(), seq![], seq![]) {
                Ok(tags) => r matches Ok(t) && is_root_of(t, tags),
                Err(e) => r == Err::<TagNode, ParseError>(e),
            },
    {
        let ghost toks = self.tokens@;
        let ghost start = self.position as int;
        let mut tags: Vec<TagNode> = Vec::new();
        while !self.at_end()
            invariant
                self.tokens@ == toks,
                toks == old(self).tokens@,
                start == old(self).position,
                self.position <= toks.len(),
                run(toks, self.position as int, seq![], tags@) == run(toks, start, seq![], seq![]),
            decreases toks.len() - self.position,
        {
            let tag = self.parse_one_tag(Ghost(tags@))?;
            tags.push(tag);
        }
        let ghost done = tags@;
        assert(run(toks, self.position as int, seq![], tags@) == Ok::<Seq<TagNode>, ParseError>(
            done,
        ));
        Ok(Self::create_root(tags))
    }

    /// `[root : [list : ...]]` around the given top-level tags.
    fn create_root(tags: Vec<TagNode>) -> (r: TagNode)
        ensures
            is_root_of(r, tags@),
    {
        let list = Self::create_list_node(tags);
        TagNode::Composite {
            ltag: Box::new(TagNode::Primitive(Primitive::Keyword(owned("root")))),
            rtag: Box::new(list),
        }
    }

    /// `[list : item]` for no tags, `[list : t]` for one, and
    /// `[list : t1 : (t2 : (... : tn))]` for more.
    fn create_list_node(tags: Vec<TagNode>) -> (r: TagNode)
        ensures
            is_list_of(r, tags@),
    {
        let list = owned("list");
        if tags.len() == 0 {
            return TagNode::Composite {
                ltag: Box::new(TagNode::Primitive(Primitive::Keyword(list))),
                rtag: Box::new(TagNode::Primitive(Primitive::Keyword(owned("item")))),
            };
        }
        let ghost all = tags@;
        let n = tags.len();
        let mut tags = tags;
        let mut list_node = tags.pop().unwrap();
        assert(all.subrange(n - 1, n as int) =~= seq![list_node]);
        while tags.len() > 0
            invariant
                tags@ == all.subrange(0, tags.len() as int),
                tags.len() < n,
                n == all.len(),
                list_node == chain(all.subrange(tags.len() as int, n as int)),
            decreases tags.len(),
        {
            let k = tags.len();
            let tag = tags.pop().unwrap();
            let ghost rest = all.subrange(k as int, n as int);
            let ghost whole = all.subrange(k - 1, n as int);
            assert(whole.drop_first() =~= rest);
            assert(whole[0] == tag);
            list_node = TagNode::Composite { ltag: Box::new(tag), rtag: Box::new(list_node) };
            assert(tags@ =~= all.subrange(0, tags.len() as int));
        }
        assert(all.subrange(0, n as int) =~= all);
        TagNode::Composite {
            ltag: Box::new(TagNode::Primitive(Primitive::Keyword(list))),
            rtag: Box::new(list_node),
        }
    }

    /// Parses one complete top-level tag, starting at its `[`.
    fn parse_one_tag(&mut self, Ghost(done): Ghost<Seq<TagNode>>) -> (r: Result<
        TagNode,
        ParseError,
    >)
        requires
            old(self).position < old(self).tokens@.len(),
            !(old(self).tokens@[old(self).position as int] is Eof),
        ensures
            final(self).tokens@ == old(self).tokens@,
            final(self).position <= final(self).tokens@.len(),
            match r {
                Ok(node) => {
                    &&& old(self).position < final(self).position
                    &&& run(old(self).tokens@, final(self).position as int, seq![], done.push(node))
                        == run(old(self).tokens@, old(self).position as int, seq![], done)
                },
                Err(e) => run(old(self).tokens@, old(self).position as int, seq![], done) == Err::<
                    Seq<TagNode>,
                    ParseError,
                >(e),
            },
    {
        let ghost toks = self.tokens@;
        let ghost start = self.position as int;
        self.expect_open_bracket()?;
        let mut tag_stack: Vec<TagInProgress> = Vec::new();
        tag_stack.push(TagInProgress::new());
        assert(tag_stack@ =~= seq![fresh()]);
        loop
            invariant
                self.tokens@ == toks,
                toks == old(self).tokens@,
                start == old(self).position,
                start < self.position <= toks.len(),
                tag_stack.len() > 0,
                run(toks, self.position as int, tag_stack@, done) == run(toks, start, seq![], done),
            decreases toks.len() - self.position,
        {
            let pos = self.position;
            if pos >= self.tokens.len() {
                return Err(make_error(ParseErrorKind::UnexpectedEnd, pos, &tag_stack));
            }
            let last = tag_stack.len() - 1;
            match &self.tokens[pos] {
                Token::Eof => {
                    return Err(make_error(ParseErrorKind::UnexpectedEnd, pos, &tag_stack));
                },
                Token::OpenBracket => {
                    self.advance();
                    tag_stack.push(TagInProgress::new());
                },
                Token::CloseBracket => {
                    if !tag_stack[last].is_complete() {
                        return Err(make_error(ParseErrorKind::IncompleteTag, pos, &tag_stack));
                    }
                    self.advance();
                    let ghost before = tag_stack@;
                    let top = tag_stack.pop().unwrap();
                    assert(tag_stack@ =~= before.drop_last());
                    let node = top.to_composite();
                    if tag_stack.len() == 0 {
                        assert(before.drop_last() =~= Seq::<TagInProgress>::empty());
                        return Ok(node);
                    }
                    let ghost rest = tag_stack@;
                    let parent = tag_stack.pop().unwrap();
                    match parent.put(node) {
                        Ok(f) => {
                            tag_stack.push(f);
                            assert(tag_stack@ =~= rest.update(rest.len() - 1, f));
                        },
                        Err(p) => {
                            tag_stack.push(p);
                            assert(tag_stack@ =~= rest);
                            return Err(make_error(ParseErrorKind::SlotFilled, pos, &tag_stack));
                        },
                    }
                },
                Token::Colon => {
                    if tag_stack[last].ltag.is_none() {
                        return Err(make_error(ParseErrorKind::MissingLeft, pos, &tag_stack));
                    }
                    self.advance();
                    let ghost before = tag_stack@;
                    let top = tag_stack.pop().unwrap();
                    tag_stack.push(
                        TagInProgress { state: TagParseState::ParsingRTag, ltag: top.ltag, rtag: top.rtag },
                    );
                    assert(tag_stack@ =~= before.update(
                        last as int,
                        TagInProgress { state: TagParseState::ParsingRTag, ..before[last as int] },
                    ));
                },
                Token::Comma => {
                    self.advance();
                },
                _ => {
                    let prim = match primitive_from(&self.tokens[pos]) {
                        Some(p) => p,
                        None => {
                            return Err(make_error(ParseErrorKind::UnexpectedToken, pos, &tag_stack));
                        },
                    };
                    let ghost before = tag_stack@;
                    let top = tag_stack.pop().unwrap();
                    match top.put(TagNode::Primitive(prim)) {
                        Ok(f) => {
                            tag_stack.push(f);
                            assert(tag_stack@ =~= before.update(last as int, f));
                            self.advance();
                        },
                        Err(t) => {
                            tag_stack.push(t);
                            assert(tag_stack@ =~= before);
                            return Err(make_error(ParseErrorKind::SlotFilled, pos, &tag_stack));
                        },
                    }
                },
            }
        }
    }

    /// Consumes the `[` that opens a top-level tag.
    fn expect_open_bracket(&mut self) -> (r: Result<(), ParseError>)
        requires
            old(self).position <= old(self).tokens@.len(),
        ensures
            final(self).tokens == old(self).tokens,
            r is Err ==> final(self).position == old(self).position,
            match r {
                Ok(_) => old(self).position < old(self).tokens@.len() && old(
                    self,
                ).tokens@[old(self).position as int] is OpenBracket && final(self).position
                    == old(self).position + 1,
                Err(e) => {
                    &&& !(old(self).position < old(self).tokens@.len() && old(
                        self,
                    ).tokens@[old(self).position as int] is OpenBracket)
                    &&& e == error_at(
                        ParseErrorKind::ExpectedOpenBracket,
                        old(self).position as int,
                        seq![],
                    )
                },
            },
    {
        if self.position < self.tokens.len() && matches!(self.tokens[self.position], Token::OpenBracket) {
            self.advance();
            Ok(())
        } else {
            Err(ParseError {
                kind: ParseErrorKind::ExpectedOpenBracket,
                position: self.position,
                depth: 0,
                left_filled: false,
                right_filled: false,
            })
        }
    }
}

} // verus!
