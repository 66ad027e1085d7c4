use vstd::prelude::*;

use crate::errors::{concat3, error_view, ErrorView, SpannedError};
use crate::lexer::{tokens_view, LexemeView, TokenView, UVLexerTokens, UVToken};
use crate::span::{Span, Spanned};
use crate::text::same_text;

verus! {

broadcast use {vstd::seq::group_seq_axioms, vstd::std_specs::vec::group_vec_axioms};

/// A child of a tag: a literal with its span, or a nested tag.
#[derive(Debug, PartialEq)]
pub enum UVParseBody {
    String(Spanned<String>),
    Tag(Box<UVParseNode>),
}

/// A tag with its name, optional extra parameter, children and span.
#[derive(Debug, PartialEq)]
pub struct UVParseNode {
    pub name: String,
    pub children: Vec<UVParseBody>,
    pub self_closing: bool,
    pub extra_param: String,
    pub span: Span,
}

/// The mathematical value of a child of a tag.
pub enum ParseBodyView {
    Literal(Seq<char>, int, int),
    Tag(ParseNodeView),
}

/// The mathematical value of a tag.
pub struct ParseNodeView {
    pub name: Seq<char>,
    pub children: Seq<ParseBodyView>,
    pub self_closing: bool,
    pub extra_param: Seq<char>,
    pub start: int,
    pub end: int,
}

pub open spec fn node_view(n: UVParseNode) -> ParseNodeView
    decreases n,
{
    ParseNodeView {
        name: n.name@,
        children: bodies_view(n.children@),
        self_closing: n.self_closing,
        extra_param: n.extra_param@,
        start: n.span.start as int,
        end: n.span.end as int,
    }
}

pub open spec fn bodies_view(cs: Seq<UVParseBody>) -> Seq<ParseBodyView>
    decreases cs,
{
    if cs.len() == 0 {
        seq![]
    } else {
        bodies_view(cs.drop_last()).push(body_view(cs.last()))
    }
}

pub open spec fn body_view(b: UVParseBody) -> ParseBodyView
    decreases b,
{
    match b {
        UVParseBody::String(l) => ParseBodyView::Literal(l.value@, l.span.start as int, l.span.end as int),
        UVParseBody::Tag(n) => ParseBodyView::Tag(node_view(*n)),
    }
}

/// The state of the parser within the tag it is reading.
#[derive(Debug, Clone, Copy, PartialEq, Eq)]
pub enum UVParseState {
    Unknown,
    TagName,
    TagBody,
    ExtraParam,
    ClosingAngleBracketOpeningTag,
    ClosingAngleBracketClosingTag,
    ClosingTagName,
}

pub open spec fn nodes_view(ns: Seq<UVParseNode>) -> Seq<ParseNodeView> {
    ns.map_values(|n: UVParseNode| node_view(n))
}

pub open spec fn parse_result_view(r: Result<UVParseNode, SpannedError>) -> Result<
    ParseNodeView,
    ErrorView,
> {
    match r {
        Ok(n) => Ok(node_view(n)),
        Err(e) => Err(e@),
    }
}

/// A tag not read yet, whose `<` stands at `start`.
pub open spec fn fresh_node(start: int) -> ParseNodeView {
    ParseNodeView {
        name: seq![],
        children: seq![],
        self_closing: false,
        extra_param: seq![],
        start,
        end: 0,
    }
}

/// The diagnostic for tokens that end before the tag does, placed near the last token.
pub open spec fn eof_error(toks: Seq<TokenView>) -> ErrorView {
    if toks.len() == 0 {
        error_view("Unexpected EOF"@, 0, 0)
    } else {
        let e = toks.last().end;
        error_view("Unexpected EOF"@, if e >= 3 { e - 3 } else { 0 }, e)
    }
}

pub open spec fn closing_tag_message(found: Seq<char>, expected: Seq<char>) -> Seq<char> {
    "Unexpected closing tag '</"@ + found + ">'. Expected '</"@ + expected + ">'"@
}

/// The parse tree of `toks` from position `pos` on: `cur` is the tag being read, in state
/// `state`, inside the open tags `stack`; `closing` is the name read after `</`, at `[cs, ce)`.
pub open spec fn parse_run(
    toks: Seq<TokenView>,
    pos: int,
    stack: Seq<ParseNodeView>,
    cur: ParseNodeView,
    state: UVParseState,
    closing: Seq<char>,
    cs: int,
    ce: int,
) -> Result<ParseNodeView, ErrorView>
    decreases toks.len() - pos,
{
    if pos < 0 || pos >= toks.len() {
        Err(eof_error(toks))
    } else {
        let t = toks[pos];
        let next = pos + 1;
        match t.kind {
            LexemeView::OpeningAngleBracket => match state {
                UVParseState::Unknown => parse_run(
                    toks,
                    next,
                    stack,
                    ParseNodeView { start: t.start, ..cur },
                    UVParseState::TagName,
                    closing,
                    cs,
                    ce,
                ),
                UVParseState::TagBody => parse_run(
                    toks,
                    next,
                    stack.push(cur),
                    fresh_node(t.start),
                    UVParseState::TagName,
                    seq![],
                    0,
                    0,
                ),
                _ => Err(error_view("Unexpected '<' token"@, t.start, t.end)),
            },
            LexemeView::ClosingAngleBracket => match state {
                UVParseState::ClosingAngleBracketOpeningTag | UVParseState::ExtraParam => parse_run(
                    toks,
                    next,
                    stack,
                    cur,
                    UVParseState::TagBody,
                    closing,
                    cs,
                    ce,
                ),
                UVParseState::ClosingAngleBracketClosingTag => {
                    if cur.name != closing {
                        Err(error_view(closing_tag_message(closing, cur.name), cs, ce))
                    } else {
                        let done = ParseNodeView { end: t.end, ..cur };
                        if stack.len() == 0 {
                            Ok(done)
                        } else {
                            let parent = stack.last();
                            parse_run(
                                toks,
                                next,
                                stack.drop_last(),
                                ParseNodeView {
                                    children: parent.children.push(ParseBodyView::Tag(done)),
                                    ..parent
                                },
                                UVParseState::TagBody,
                                seq![],
                                0,
                                0,
                            )
                        }
                    }
                },
                _ => Err(error_view("Unexpected '>' token"@, t.start, t.end)),
            },
            LexemeView::SelfClosingAngleBracket => match state {
                UVParseState::ClosingAngleBracketOpeningTag | UVParseState::ExtraParam => {
                    let done = ParseNodeView { self_closing: true, end: t.end, ..cur };
                    if stack.len() == 0 {
                        Ok(done)
                    } else {
                        let parent = stack.last();
                        parse_run(
                            toks,
                            next,
                            stack.drop_last(),
                            ParseNodeView {
                                children: parent.children.push(ParseBodyView::Tag(done)),
                                ..parent
                            },
                            UVParseState::TagBody,
                            seq![],
                            0,
                            0,
                        )
                    }
                },
                _ => Err(error_view("Unexpected '/>' token"@, t.start, t.end)),
            },
            LexemeView::OpeningAngleBracketSlash => match state {
                UVParseState::TagBody => parse_run(
                    toks,
                    next,
                    stack,
                    cur,
                    UVParseState::ClosingTagName,
                    closing,
                    cs,
                    ce,
                ),
                _ => Err(error_view("Unexpected '</' token"@, t.start, t.end)),
            },
            LexemeView::Literal(l) | LexemeView::RawString(l) => match state {
                UVParseState::TagName => parse_run(
                    toks,
                    next,
                    stack,
                    ParseNodeView { name: l, ..cur },
                    UVParseState::ExtraParam,
                    closing,
                    cs,
                    ce,
                ),
                UVParseState::ExtraParam => parse_run(
                    toks,
                    next,
                    stack,
                    ParseNodeView { extra_param: l, ..cur },
                    UVParseState::ClosingAngleBracketOpeningTag,
                    closing,
                    cs,
                    ce,
                ),
                UVParseState::TagBody => parse_run(
                    toks,
                    next,
                    stack,
                    ParseNodeView {
                        children: cur.children.push(ParseBodyView::Literal(l, t.start, t.end)),
                        ..cur
                    },
                    UVParseState::TagBody,
                    closing,
                    cs,
                    ce,
                ),
                UVParseState::ClosingTagName => parse_run(
                    toks,
                    next,
                    stack,
                    cur,
                    UVParseState::ClosingAngleBracketClosingTag,
                    l,
                    t.start,
                    t.end,
                ),
                _ => Err(error_view("Unexpected literal '"@ + l + "'"@, t.start, t.end)),
            },
            LexemeView::Unknown(c) => Err(
                error_view("Unexpected token: '"@ + seq![c] + "'"@, t.start, t.end),
            ),
        }
    }
}

/// The parse tree of `toks` from position `pos` on.
pub open spec fn parse_from(toks: Seq<TokenView>, pos: int) -> Result<ParseNodeView, ErrorView> {
    parse_run(toks, pos, seq![], fresh_node(0), UVParseState::Unknown, seq![], 0, 0)
}

/// The parse tree of a whole token sequence.
pub open spec fn parse_tokens(toks: Seq<TokenView>) -> Result<ParseNodeView, ErrorView> {
    parse_from(toks, 0)
}

impl UVParseNode {
    /// A tag not read yet, whose `<` stands at `start`.
    fn fresh(start: usize) -> (r: UVParseNode)
        ensures
            node_view(r) == fresh_node(start as int),
    {
        let r = UVParseNode {
            name: String::new(),
            children: Vec::new(),
            self_closing: false,
            extra_param: String::new(),
            span: Span { start, end: 0 },
        };
        assert(bodies_view(r.children@) =~= seq![]);
        r
    }

    /// Appends `child` to the children.
    fn push_child(&mut self, child: UVParseBody)
        ensures
            node_view(*final(self)) == (ParseNodeView {
                children: node_view(*old(self)).children.push(body_view(child)),
                ..node_view(*old(self))
            }),
    {
        let ghost before = self.children@;
        self.children.push(child);
        assert(self.children@.drop_last() =~= before);
    }
}

/// Reads a token sequence into a tree of tags.
pub struct TokenParser {
    tokens: Vec<UVToken>,
    pos: usize,
}

impl TokenParser {
    /// The tokens being read.
    pub closed spec fn tokens(&self) -> Seq<TokenView> {
        tokens_view(self.tokens@)
    }

    /// How many tokens have been read.
    pub closed spec fn position(&self) -> int {
        self.pos as int
    }

    /// A parser at the start of `tokens`.
    pub fn new(tokens: Vec<UVToken>) -> (r: Self)
        ensures
            r.tokens() == tokens_view(tokens@),
            r.position() == 0,
    {
        TokenParser { tokens, pos: 0 }
    }

    /// Appends the finished `tag` to the innermost open tag, which becomes the current one.
    fn close_into_parent(&self, stack: &mut Vec<UVParseNode>, tag: &mut UVParseNode)
        requires
            old(stack).len() > 0,
        ensures
            nodes_view(final(stack)@) == nodes_view(old(stack)@).drop_last(),
            node_view(*final(tag)) == ({
                let parent = nodes_view(old(stack)@).last();
                ParseNodeView {
                    children: parent.children.push(ParseBodyView::Tag(node_view(*old(tag)))),
                    ..parent
                }
            }),
    {
        let ghost sv = stack@;
        let mut parent = stack.pop().unwrap();
        assert(nodes_view(stack@) =~= nodes_view(sv).drop_last());
        std::mem::swap(&mut parent, tag);
        tag.push_child(UVParseBody::Tag(Box::new(parent)));
    }

    /// Reads one tag, with everything nested in it, from the tokens not read yet.
    pub fn parse(&mut self) -> (r: Result<UVParseNode, SpannedError>)
        ensures
            final(self).tokens() == old(self).tokens(),
            parse_result_view(r) == parse_from(old(self).tokens(), old(self).position()),
    {
        let mut stack: Vec<UVParseNode> = Vec::new();
        let mut tag = UVParseNode::fresh(0);
        let mut state = UVParseState::Unknown;
        let mut closing_tag_name = String::new();
        let mut closing_span = Span { start: 0, end: 0 };
        assert(nodes_view(stack@) =~= seq![]);
        while self.pos < self.tokens.len()
            invariant
                self.tokens@ == old(self).tokens@,
                parse_run(
                    tokens_view(self.tokens@),
                    self.pos as int,
                    nodes_view(stack@),
                    node_view(tag),
                    state,
                    closing_tag_name@,
                    closing_span.start as int,
                    closing_span.end as int,
                ) == parse_from(tokens_view(old(self).tokens@), old(self).pos as int),
            decreases self.tokens.len() - self.pos,
        {
            let ghost toks = tokens_view(self.tokens@);
            let ghost goal = parse_from(tokens_view(old(self).tokens@), old(self).pos as int);
            let p = self.pos;
            let t = &self.tokens[p];
            let ghost tv = t@;
            assert(toks[p as int] == tv);
            self.pos = p + 1;
            match &t.token {
                UVLexerTokens::OpeningAngleBracket => {
                    match state {
                        UVParseState::Unknown => {
                            tag.span.start = t.start;
                            state = UVParseState::TagName;
                        },
                        UVParseState::TagBody => {
                            let ghost sv = stack@;
                            let mut parent = UVParseNode::fresh(t.start);
                            std::mem::swap(&mut parent, &mut tag);
                            stack.push(parent);
                            assert(nodes_view(stack@) =~= nodes_view(sv).push(node_view(parent)));
                            state = UVParseState::TagName;
                            closing_tag_name = String::new();
                            closing_span = Span { start: 0, end: 0 };
                        },
                        _ => {
                            return Err(SpannedError::new("Unexpected '<' token".to_owned(), Span { start: t.start, end: t.end }));
                        },
                    }
                },
                UVLexerTokens::ClosingAngleBracket => {
                    match state {
                        UVParseState::ClosingAngleBracketOpeningTag | UVParseState::ExtraParam => {
                            state = UVParseState::TagBody;
                        },
                        UVParseState::ClosingAngleBracketClosingTag => {
                            if !same_text(tag.name.as_str(), closing_tag_name.as_str()) {
                                let mut message = concat3(
                                    "Unexpected closing tag '</",
                                    closing_tag_name.as_str(),
                                    ">'. Expected '</",
                                );
                                message.append(tag.name.as_str());
                                message.append(">'");
                                return Err(SpannedError::new(message, closing_span));
                            }
                            tag.span.end = t.end;
                            if stack.len() == 0 {
                                return Ok(tag);
                            }
                            self.close_into_parent(&mut stack, &mut tag);
                            state = UVParseState::TagBody;
                            closing_tag_name = String::new();
                            closing_span = Span { start: 0, end: 0 };
                        },
                        _ => {
                            return Err(SpannedError::new("Unexpected '>' token".to_owned(), Span { start: t.start, end: t.end }));
                        },
                    }
                },
                UVLexerTokens::SelfClosingAngleBracket => {
                    match state {
                        UVParseState::ClosingAngleBracketOpeningTag | UVParseState::ExtraParam => {
                            tag.self_closing = true;
                            tag.span.end = t.end;
                            if stack.len() == 0 {
                                return Ok(tag);
                            }
                            self.close_into_parent(&mut stack, &mut tag);
                            state = UVParseState::TagBody;
                            closing_tag_name = String::new();
                            closing_span = Span { start: 0, end: 0 };
                        },
                        _ => {
                            return Err(SpannedError::new("Unexpected '/>' token".to_owned(), Span { start: t.start, end: t.end }));
                        },
                    }
                },
                UVLexerTokens::OpeningAngleBracketSlash => {
                    match state {
                        UVParseState::TagBody => {
                            state = UVParseState::ClosingTagName;
                        },
                        _ => {
                            return Err(SpannedError::new("Unexpected '</' token".to_owned(), Span { start: t.start, end: t.end }));
                        },
                    }
                },
                UVLexerTokens::Literal(lit) | UVLexerTokens::RawString(lit) => {
                    match state {
                        UVParseState::TagName => {
                            tag.name = lit.clone();
                            state = UVParseState::ExtraParam;
                        },
                        UVParseState::ExtraParam => {
                            tag.extra_param = lit.clone();
                            state = UVParseState::ClosingAngleBracketOpeningTag;
                        },
                        UVParseState::TagBody => {
                            tag.push_child(UVParseBody::String(Spanned { value: lit.clone(), span: Span { start: t.start, end: t.end } }));
                        },
                        UVParseState::ClosingTagName => {
                            closing_tag_name = lit.clone();
                            closing_span = Span { start: t.start, end: t.end };
                            state = UVParseState::ClosingAngleBracketClosingTag;
                        },
                        _ => {
                            let message = concat3("Unexpected literal '", lit.as_str(), "'");
                            return Err(SpannedError::new(message, Span { start: t.start, end: t.end }));
                        },
                    }
                },
                UVLexerTokens::Unknown(ch) => {
                    let c = crate::text::string_of_char(*ch);
                    let message = concat3("Unexpected token: '", c.as_str(), "'");
                    return Err(SpannedError::new(message, Span { start: t.start, end: t.end }));
                },
            }
        }
        let len = self.tokens.len();
        let span = if len == 0 {
            Span { start: 0, end: 0 }
        } else {
            let e = self.tokens[len - 1].end;
            Span { start: if e >= 3 { e - 3 } else { 0 }, end: e }
        };
        Err(SpannedError::new("Unexpected EOF".to_owned(), span))
    }
}

pub proof fn lemma_bodies_view_index(cs: Seq<UVParseBody>)
    ensures
        bodies_view(cs).len() == cs.len(),
        forall|i: int| 0 <= i < cs.len() ==> #[trigger] bodies_view(cs)[i] == body_view(cs[i]),
    decreases cs.len(),
{
    if cs.len() > 0 {
        lemma_bodies_view_index(cs.drop_last());
    }
}

/// The position of the first child at or after `k` that is a tag named `name`; the number of
/// children if there is none.
pub open spec fn first_tag_named(cs: Seq<ParseBodyView>, name: Seq<char>, k: int) -> int
    decreases cs.len() - k,
{
    if k < 0 || k >= cs.len() {
        cs.len() as int
    } else if cs[k] is Tag && cs[k]->Tag_0.name == name {
        k
    } else {
        first_tag_named(cs, name, k + 1)
    }
}

pub proof fn lemma_first_tag_named(cs: Seq<ParseBodyView>, name: Seq<char>, k: int)
    requires
        0 <= k <= cs.len(),
    ensures
        k <= first_tag_named(cs, name, k) <= cs.len(),
        first_tag_named(cs, name, k) < cs.len() ==> cs[first_tag_named(cs, name, k)] is Tag
            && cs[first_tag_named(cs, name, k)]->Tag_0.name == name,
    decreases cs.len() - k,
{
    if k < cs.len() && !(cs[k] is Tag && cs[k]->Tag_0.name == name) {
        lemma_first_tag_named(cs, name, k + 1);
    }
}

pub proof fn lemma_first_literal(cs: Seq<ParseBodyView>, k: int)
    requires
        0 <= k <= cs.len(),
    ensures
        k <= first_literal(cs, k) <= cs.len(),
        first_literal(cs, k) < cs.len() ==> cs[first_literal(cs, k)] is Literal,
    decreases cs.len() - k,
{
    if k < cs.len() && !(cs[k] is Literal) {
        lemma_first_literal(cs, k + 1);
    }
}

/// The position of the first child at or after `k` that is a literal; the number of children if
/// there is none.
pub open spec fn first_literal(cs: Seq<ParseBodyView>, k: int) -> int
    decreases cs.len() - k,
{
    if k < 0 || k >= cs.len() {
        cs.len() as int
    } else if cs[k] is Literal {
        k
    } else {
        first_literal(cs, k + 1)
    }
}

pub open spec fn all_literals_view(cs: Seq<ParseBodyView>) -> bool {
    forall|i: int| 0 <= i < cs.len() ==> #[trigger] cs[i] is Literal
}

pub open spec fn all_tags_view(cs: Seq<ParseBodyView>) -> bool {
    forall|i: int| 0 <= i < cs.len() ==> #[trigger] cs[i] is Tag
}

impl UVParseNode {
    /// The number of children.
    pub fn children_len(&self) -> (r: usize)
        ensures
            r == node_view(*self).children.len(),
    {
        proof {
            lemma_bodies_view_index(self.children@);
        }
        self.children.len()
    }

    /// The first child that is a tag named `name`.
    pub fn get_child_by_name(&self, name: &str) -> (r: Option<&UVParseNode>)
        ensures
            ({
                let cs = node_view(*self).children;
                let k = first_tag_named(cs, name@, 0);
                &&& r is None <==> k == cs.len()
                &&& r matches Some(c) ==> k < cs.len() && cs[k] == ParseBodyView::Tag(node_view(*c))
            }),
    {
        let ghost cs = node_view(*self).children;
        proof {
            lemma_bodies_view_index(self.children@);
        }
        let mut i: usize = 0;
        while i < self.children.len()
            invariant
                i <= self.children.len(),
                cs == node_view(*self).children,
                cs.len() == self.children.len(),
                forall|j: int| 0 <= j < cs.len() ==> #[trigger] cs[j] == body_view(self.children@[j]),
                first_tag_named(cs, name@, 0) == first_tag_named(cs, name@, i as int),
            decreases self.children.len() - i,
        {
            if let UVParseBody::Tag(node) = &self.children[i] {
                if same_text(node.name.as_str(), name) {
                    assert(cs[i as int] == body_view(self.children@[i as int]));
                    return Some(node);
                }
            }
            i = i + 1;
        }
        None
    }

    /// The first child that is a literal.
    pub fn get_inner_literal(&self) -> (r: Option<&Spanned<String>>)
        ensures
            ({
                let cs = node_view(*self).children;
                let k = first_literal(cs, 0);
                &&& r is None <==> k == cs.len()
                &&& r matches Some(l) ==> k < cs.len() && cs[k] == ParseBodyView::Literal(
                    l.value@,
                    l.span.start as int,
                    l.span.end as int,
                )
            }),
    {
        let ghost cs = node_view(*self).children;
        proof {
            lemma_bodies_view_index(self.children@);
        }
        let mut i: usize = 0;
        while i < self.children.len()
            invariant
                i <= self.children.len(),
                cs == node_view(*self).children,
                cs.len() == self.children.len(),
                forall|j: int| 0 <= j < cs.len() ==> #[trigger] cs[j] == body_view(self.children@[j]),
                first_literal(cs, 0) == first_literal(cs, i as int),
            decreases self.children.len() - i,
        {
            if let UVParseBody::String(lit) = &self.children[i] {
                assert(cs[i as int] == body_view(self.children@[i as int]));
                return Some(lit);
            }
            i = i + 1;
        }
        None
    }

    /// The child at `pos`, if it is a tag.
    pub fn get_child_node(&self, pos: usize) -> (r: Option<&UVParseNode>)
        ensures
            ({
                let cs = node_view(*self).children;
                &&& r is Some <==> pos < cs.len() && cs[pos as int] is Tag
                &&& r matches Some(c) ==> cs[pos as int] == ParseBodyView::Tag(node_view(*c))
            }),
    {
        proof {
            lemma_bodies_view_index(self.children@);
        }
        if pos < self.children.len() {
            match &self.children[pos] {
                UVParseBody::Tag(child) => Some(child),
                _ => None,
            }
        } else {
            None
        }
    }

    /// Whether every child is a literal.
    pub fn all_literals(&self) -> (r: bool)
        ensures
            r == all_literals_view(node_view(*self).children),
    {
        let ghost cs = node_view(*self).children;
        proof {
            lemma_bodies_view_index(self.children@);
        }
        let mut i: usize = 0;
        while i < self.children.len()
            invariant
                i <= self.children.len(),
                cs == node_view(*self).children,
                cs.len() == self.children.len(),
                forall|j: int| 0 <= j < cs.len() ==> #[trigger] cs[j] == body_view(self.children@[j]),
                forall|j: int| 0 <= j < i ==> #[trigger] cs[j] is Literal,
            decreases self.children.len() - i,
        {
            if let UVParseBody::Tag(_) = &self.children[i] {
                assert(!(cs[i as int] is Literal));
                return false;
            }
            i = i + 1;
        }
        true
    }

    /// Whether every child is a tag.
    pub fn all_tags(&self) -> (r: bool)
        ensures
            r == all_tags_view(node_view(*self).children),
    {
        let ghost cs = node_view(*self).children;
        proof {
            lemma_bodies_view_index(self.children@);
        }
        let mut i: usize = 0;
        while i < self.children.len()
            invariant
                i <= self.children.len(),
                cs == node_view(*self).children,
                cs.len() == self.children.len(),
                forall|j: int| 0 <= j < cs.len() ==> #[trigger] cs[j] == body_view(self.children@[j]),
                forall|j: int| 0 <= j < i ==> #[trigger] cs[j] is Tag,
            decreases self.children.len() - i,
        {
            if let UVParseBody::String(_) = &self.children[i] {
                assert(!(cs[i as int] is Tag));
                return false;
            }
            i = i + 1;
        }
        true
    }
}

/// Whether a child lies within `[lo, hi]`, and, if it is a tag, so do its own children within
/// its span, down the whole tree.
pub open spec fn child_within(c: ParseBodyView, lo: int, hi: int) -> bool
    decreases c,
{
    match c {
        ParseBodyView::Literal(_, s, e) => lo <= s && s <= e && e <= hi,
        ParseBodyView::Tag(m) => lo <= m.start && m.start <= m.end && m.end <= hi && children_within(
            m.children,
            m.start,
            m.end,
        ),
    }
}

/// Whether every child of `cs` lies within `[lo, hi]`, down the whole tree.
pub open spec fn children_within(cs: Seq<ParseBodyView>, lo: int, hi: int) -> bool
    decreases cs,
{
    forall|i: int| 0 <= i < cs.len() ==> child_within(#[trigger] cs[i], lo, hi)
}

/// Whether every tag of the tree lies within the span of the tag it is nested in.
pub open spec fn spans_nested(n: ParseNodeView) -> bool {
    n.start <= n.end && children_within(n.children, n.start, n.end)
}

proof fn lemma_children_within_widen(cs: Seq<ParseBodyView>, lo: int, hi: int, hi2: int)
    requires
        children_within(cs, lo, hi),
        hi <= hi2,
    ensures
        children_within(cs, lo, hi2),
{
    lemma_children_within_grow(cs, lo, hi, lo, hi2);
}

pub proof fn lemma_children_within_grow(cs: Seq<ParseBodyView>, lo: int, hi: int, lo2: int, hi2: int)
    requires
        children_within(cs, lo, hi),
        lo2 <= lo,
        hi <= hi2,
    ensures
        children_within(cs, lo2, hi2),
{
    assert forall|i: int| 0 <= i < cs.len() implies child_within(#[trigger] cs[i], lo2, hi2) by {
        assert(child_within(cs[i], lo, hi));
    }
}

proof fn lemma_children_within_push(cs: Seq<ParseBodyView>, c: ParseBodyView, lo: int, hi: int)
    requires
        children_within(cs, lo, hi),
        child_within(c, lo, hi),
    ensures
        children_within(cs.push(c), lo, hi),
{
    let t = cs.push(c);
    assert forall|i: int| 0 <= i < t.len() implies child_within(#[trigger] t[i], lo, hi) by {
        if i < cs.len() {
            assert(t[i] == cs[i]);
        }
    }
}

/// Where the token at `pos` starts; `hi` past the last token.
pub open spec fn bound_at(toks: Seq<TokenView>, pos: int, hi: int) -> int {
    if 0 <= pos < toks.len() {
        toks[pos].start
    } else {
        hi
    }
}

/// Each open tag of `stack` starts no later than the next one (the last, no later than `top`),
/// and its children so far lie between its start and that of the next one.
pub open spec fn frames_within(stack: Seq<ParseNodeView>, top: int) -> bool {
    forall|j: int|
        #![trigger stack[j]]
        0 <= j < stack.len() ==> {
            let next = if j + 1 < stack.len() {
                stack[j + 1].start
            } else {
                top
            };
            stack[j].start <= next && children_within(stack[j].children, stack[j].start, next)
        }
}

/// What holds of the parser's state before the token at `pos`.
pub open spec fn run_within(
    toks: Seq<TokenView>,
    pos: int,
    stack: Seq<ParseNodeView>,
    cur: ParseNodeView,
    state: UVParseState,
    hi: int,
) -> bool {
    if state is Unknown {
        stack.len() == 0 && cur.children.len() == 0
    } else {
        &&& cur.start <= bound_at(toks, pos, hi)
        &&& children_within(cur.children, cur.start, bound_at(toks, pos, hi))
        &&& frames_within(stack, cur.start)
    }
}

proof fn lemma_bound_grows(toks: Seq<TokenView>, pos: int, lo: int, hi: int)
    requires
        crate::lexer::tokens_ordered(toks, lo, hi),
        0 <= pos < toks.len(),
    ensures
        toks[pos].start <= toks[pos].end,
        toks[pos].end <= bound_at(toks, pos + 1, hi),
{
    assert(lo <= toks[pos].start && toks[pos].start <= toks[pos].end && toks[pos].end <= hi);
    if pos + 1 < toks.len() {
        assert(toks[pos].end <= toks[pos + 1].start);
    }
}

/// From ordered tokens, the parser only builds trees whose tags lie within their parents.
proof fn lemma_parse_run_within(
    toks: Seq<TokenView>,
    pos: int,
    stack: Seq<ParseNodeView>,
    cur: ParseNodeView,
    state: UVParseState,
    closing: Seq<char>,
    cs: int,
    ce: int,
    lo: int,
    hi: int,
)
    requires
        crate::lexer::tokens_ordered(toks, lo, hi),
        0 <= pos <= toks.len(),
        run_within(toks, pos, stack, cur, state, hi),
    ensures
        parse_run(toks, pos, stack, cur, state, closing, cs, ce) matches Ok(t) ==> spans_nested(t),
    decreases toks.len() - pos, 0int,
{
    if pos < toks.len() {
        let t = toks[pos];
        let next = pos + 1;
        let b = bound_at(toks, pos, hi);
        let b2 = bound_at(toks, next, hi);
        lemma_bound_grows(toks, pos, lo, hi);
        assert(b == t.start);
        if !(state is Unknown) {
            lemma_children_within_widen(cur.children, cur.start, b, b2);
        }
        match t.kind {
            LexemeView::OpeningAngleBracket => match state {
                UVParseState::Unknown => {
                    let c2 = ParseNodeView { start: t.start, ..cur };
                    assert(children_within(c2.children, c2.start, b2));
                    lemma_parse_run_within(toks, next, stack, c2, UVParseState::TagName, closing, cs, ce, lo, hi);
                },
                UVParseState::TagBody => {
                    let st2 = stack.push(cur);
                    assert(frames_within(st2, t.start)) by {
                        assert forall|j: int| #![trigger st2[j]] 0 <= j < st2.len() implies ({
                            let nx = if j + 1 < st2.len() { st2[j + 1].start } else { t.start };
                            st2[j].start <= nx && children_within(st2[j].children, st2[j].start, nx)
                        }) by {
                            if j < stack.len() {
                                assert(st2[j] == stack[j]);
                                if j + 1 < stack.len() {
                                    assert(st2[j + 1] == stack[j + 1]);
                                } else {
                                    assert(st2[j + 1] == cur);
                                }
                            }
                        }
                    }
                    let f = fresh_node(t.start);
                    assert(children_within(f.children, f.start, b2));
                    lemma_parse_run_within(toks, next, st2, f, UVParseState::TagName, seq![], 0, 0, lo, hi);
                },
                _ => {},
            },
            LexemeView::ClosingAngleBracket => match state {
                UVParseState::ClosingAngleBracketOpeningTag | UVParseState::ExtraParam => {
                    lemma_parse_run_within(toks, next, stack, cur, UVParseState::TagBody, closing, cs, ce, lo, hi);
                },
                UVParseState::ClosingAngleBracketClosingTag => {
                    if cur.name == closing {
                        let done = ParseNodeView { end: t.end, ..cur };
                        lemma_children_within_widen(cur.children, cur.start, b, t.end);
                        assert(spans_nested(done));
                        lemma_close_within(toks, next, stack, done, lo, hi);
                    }
                },
                _ => {},
            },
            LexemeView::SelfClosingAngleBracket => match state {
                UVParseState::ClosingAngleBracketOpeningTag | UVParseState::ExtraParam => {
                    let done = ParseNodeView { self_closing: true, end: t.end, ..cur };
                    lemma_children_within_widen(cur.children, cur.start, b, t.end);
                    assert(spans_nested(done));
                    lemma_close_within(toks, next, stack, done, lo, hi);
                },
                _ => {},
            },
            LexemeView::OpeningAngleBracketSlash => match state {
                UVParseState::TagBody => {
                    lemma_parse_run_within(toks, next, stack, cur, UVParseState::ClosingTagName, closing, cs, ce, lo, hi);
                },
                _ => {},
            },
            LexemeView::Literal(l) | LexemeView::RawString(l) => match state {
                UVParseState::TagName => {
                    let c2 = ParseNodeView { name: l, ..cur };
                    lemma_parse_run_within(toks, next, stack, c2, UVParseState::ExtraParam, closing, cs, ce, lo, hi);
                },
                UVParseState::ExtraParam => {
                    let c2 = ParseNodeView { extra_param: l, ..cur };
                    lemma_parse_run_within(toks, next, stack, c2, UVParseState::ClosingAngleBracketOpeningTag, closing, cs, ce, lo, hi);
                },
                UVParseState::TagBody => {
                    let item = ParseBodyView::Literal(l, t.start, t.end);
                    lemma_children_within_push(cur.children, item, cur.start, b2);
                    let c2 = ParseNodeView { children: cur.children.push(item), ..cur };
                    lemma_parse_run_within(toks, next, stack, c2, UVParseState::TagBody, closing, cs, ce, lo, hi);
                },
                UVParseState::ClosingTagName => {
                    lemma_parse_run_within(toks, next, stack, cur, UVParseState::ClosingAngleBracketClosingTag, l, t.start, t.end, lo, hi);
                },
                _ => {},
            },
            LexemeView::Unknown(_) => {},
        }
    }
}

/// A finished tag whose spans nest, closed before the token at `pos`, leaves the parser in a state
/// where spans still nest.
proof fn lemma_close_within(
    toks: Seq<TokenView>,
    pos: int,
    stack: Seq<ParseNodeView>,
    done: ParseNodeView,
    lo: int,
    hi: int,
)
    requires
        crate::lexer::tokens_ordered(toks, lo, hi),
        1 <= pos <= toks.len(),
        spans_nested(done),
        done.end <= bound_at(toks, pos, hi),
        frames_within(stack, done.start),
    ensures
        stack.len() > 0 ==> (parse_run(
            toks,
            pos,
            stack.drop_last(),
            ParseNodeView {
                children: stack.last().children.push(ParseBodyView::Tag(done)),
                ..stack.last()
            },
            UVParseState::TagBody,
            seq![],
            0,
            0,
        ) matches Ok(t) ==> spans_nested(t)),
    decreases toks.len() - pos, 1int,
{
    if stack.len() > 0 {
        let k = stack.len() - 1;
        let parent = stack[k];
        let b2 = bound_at(toks, pos, hi);
        assert(parent.start <= done.start && children_within(parent.children, parent.start, done.start));
        lemma_children_within_widen(parent.children, parent.start, done.start, b2);
        assert(child_within(ParseBodyView::Tag(done), parent.start, b2));
        lemma_children_within_push(parent.children, ParseBodyView::Tag(done), parent.start, b2);
        let rest = stack.drop_last();
        assert(frames_within(rest, parent.start)) by {
            assert forall|j: int| #![trigger rest[j]] 0 <= j < rest.len() implies ({
                let nx = if j + 1 < rest.len() { rest[j + 1].start } else { parent.start };
                rest[j].start <= nx && children_within(rest[j].children, rest[j].start, nx)
            }) by {
                assert(rest[j] == stack[j]);
                assert(stack[j + 1] == if j + 1 < rest.len() { rest[j + 1] } else { parent });
            }
        }
        let c2 = ParseNodeView { children: parent.children.push(ParseBodyView::Tag(done)), ..parent };
        assert(parent.start <= done.start && done.start <= done.end && done.end <= b2);
        lemma_parse_run_within(toks, pos, rest, c2, UVParseState::TagBody, seq![], 0, 0, lo, hi);
    }
}

/// In the parse tree of any text, every literal and tag lies within the span of the tag that
/// holds it, down the whole tree.
pub proof fn lemma_parse_tree_spans_nested(s: Seq<char>)
    ensures
        parse_tokens(crate::lexer::lex(s)) matches Ok(t) ==> spans_nested(t),
{
    crate::lexer::lemma_lex_normal_ordered(s, 0);
    lemma_parse_run_within(
        crate::lexer::lex(s),
        0,
        seq![],
        fresh_node(0),
        UVParseState::Unknown,
        seq![],
        0,
        0,
        0,
        s.len() as int,
    );
}

} // verus!
