use vstd::prelude::*;

use crate::errors::{concat3, error_view, ErrorView, SpannedError};
use crate::iterator::{has_at, Iter};
use crate::lexer::find_pattern;
use crate::span::Span;
use crate::text::{chars_of, is_whitespace, is_whitespace_char, push_char, same_text};

verus! {

broadcast use {vstd::seq::group_seq_axioms, vstd::std_specs::vec::group_vec_axioms};

/// The pattern of a comment: `<!--`, then anything, up to the first `-->`.
pub const COMMENT_PATTERN: &'static str = "(?s)<!--.*?-->";

/// `s` with every comment taken out: from the first `<!--`, through the first `-->` after it,
/// and so on in what follows; a `<!--` that no `-->` follows stays.
pub open spec fn without_comments(s: Seq<char>) -> Seq<char>
    decreases s.len(),
    via without_comments_decreases
{
    let i = find_pattern(s, 0, "<!--"@);
    if i >= s.len() {
        s
    } else {
        let j = find_pattern(s, i + 4, "-->"@);
        if j >= s.len() {
            s
        } else {
            s.subrange(0, i) + without_comments(s.subrange(j + 3, s.len() as int))
        }
    }
}

#[via_fn]
proof fn without_comments_decreases(s: Seq<char>) {
    lemma_find_bounds(s, 0, "<!--"@);
    let i = find_pattern(s, 0, "<!--"@);
    if i < s.len() {
        assert("<!--"@.len() == 4) by {
            reveal_strlit("<!--");
        }
        assert("-->"@.len() == 3) by {
            reveal_strlit("-->");
        }
        lemma_find_bounds(s, i + 4, "-->"@);
    }
}

proof fn lemma_find_bounds(s: Seq<char>, p: int, pat: Seq<char>)
    requires
        0 <= p,
    ensures
        find_pattern(s, p, pat) <= s.len(),
        find_pattern(s, p, pat) < s.len() ==> p <= find_pattern(s, p, pat) && has_at(
            s,
            find_pattern(s, p, pat),
            pat,
        ),
    decreases s.len() - p,
{
    if p < s.len() && !has_at(s, p, pat) {
        lemma_find_bounds(s, p + 1, pat);
    }
}

/// Relies on `regex::Regex::new` and `regex::Regex::replace_all`: the pattern `(?s)<!--.*?-->`
/// compiles; `replace_all` replaces the leftmost match, then the leftmost match of what follows it,
/// and so on, and the lazy `.*?` (which `(?s)` lets match newlines) ends each match at the first
/// `-->` after its `<!--`; replacing with nothing removes each match.
#[verifier::external_body]
fn remove_matches(pattern: &str, code: &str) -> (r: String)
    requires
        pattern@ == COMMENT_PATTERN@,
    ensures
        r@ == without_comments(code@),
{
    regex::Regex::new(pattern).unwrap().replace_all(code, "").to_string()
}

/// A child of a tag: text, or a nested tag.
#[derive(Debug)]
pub enum ASTBody {
    String(String),
    Node(Box<ASTNode>),
}

/// A tag with its name, children and optional parameter `<tag param />`.
#[derive(Debug)]
pub struct ASTNode {
    pub name: String,
    pub children: Vec<ASTBody>,
    pub self_closing: bool,
    pub extra_param: String,
}

/// The mathematical value of a child of a tag.
pub enum CodeBodyView {
    String(Seq<char>),
    Node(CodeNodeView),
}

/// The mathematical value of a tag.
pub struct CodeNodeView {
    pub name: Seq<char>,
    pub children: Seq<CodeBodyView>,
    pub self_closing: bool,
    pub extra_param: Seq<char>,
}

pub open spec fn code_node_view(n: ASTNode) -> CodeNodeView
    decreases n,
{
    CodeNodeView {
        name: n.name@,
        children: code_bodies_view(n.children@),
        self_closing: n.self_closing,
        extra_param: n.extra_param@,
    }
}

pub open spec fn code_bodies_view(cs: Seq<ASTBody>) -> Seq<CodeBodyView>
    decreases cs,
{
    if cs.len() == 0 {
        seq![]
    } else {
        code_bodies_view(cs.drop_last()).push(code_body_view(cs.last()))
    }
}

pub open spec fn code_body_view(b: ASTBody) -> CodeBodyView
    decreases b,
{
    match b {
        ASTBody::String(s) => CodeBodyView::String(s@),
        ASTBody::Node(n) => CodeBodyView::Node(code_node_view(*n)),
    }
}

pub open spec fn code_nodes_view(ns: Seq<ASTNode>) -> Seq<CodeNodeView> {
    ns.map_values(|n: ASTNode| code_node_view(n))
}

pub open spec fn code_result_view(r: Result<ASTNode, SpannedError>) -> Result<
    CodeNodeView,
    ErrorView,
> {
    match r {
        Ok(n) => Ok(code_node_view(n)),
        Err(e) => Err(e@),
    }
}

/// Where the reader is within the tag it reads.
#[derive(Debug, Clone, Copy, PartialEq, Eq)]
pub enum ParseState {
    Start,
    TagName,
    TagBody,
    ClosingTag,
    ExtraParam,
    AfterClosingTag,
}

pub open spec fn empty_code_node() -> CodeNodeView {
    CodeNodeView { name: seq![], children: seq![], self_closing: false, extra_param: seq![] }
}

/// The number of white-space characters that `s` starts with.
pub open spec fn leading_space(s: Seq<char>) -> int
    decreases s.len(),
{
    if s.len() > 0 && is_whitespace_char(s[0]) {
        1 + leading_space(s.drop_first())
    } else {
        0
    }
}

/// The number of white-space characters that `s` ends with.
pub open spec fn trailing_space(s: Seq<char>) -> int
    decreases s.len(),
{
    if s.len() > 0 && is_whitespace_char(s.last()) {
        1 + trailing_space(s.drop_last())
    } else {
        0
    }
}

/// `s` without white space at either end.
pub open spec fn trimmed(s: Seq<char>) -> Seq<char> {
    let a = leading_space(s);
    let t = s.subrange(a, s.len() as int);
    t.subrange(0, t.len() - trailing_space(t))
}

/// A diagnostic about the character just before position `p`.
pub open spec fn error_before(message: Seq<char>, p: int) -> ErrorView {
    error_view(message, if p >= 1 { p - 1 } else { 0 }, p)
}

/// The tree that the reading of `s` from position `pos` on builds: `cur` is the tag being read,
/// in state `state`, inside the open tags `stack`; `closing` is the name read after `</`, and
/// `buf` the text read since the last tag.
pub open spec fn code_run(
    s: Seq<char>,
    pos: int,
    stack: Seq<CodeNodeView>,
    cur: CodeNodeView,
    state: ParseState,
    closing: Seq<char>,
    buf: Seq<char>,
) -> Result<CodeNodeView, ErrorView>
    decreases s.len() - pos,
{
    if pos < 0 || pos >= s.len() {
        Err(error_before("Unexpected EOF"@, s.len() as int))
    } else {
        let c = s[pos];
        let next = pos + 1;
        if c == '<' {
            match state {
                ParseState::Start => code_run(s, next, stack, cur, ParseState::TagName, closing, buf),
                ParseState::TagBody => {
                    let t = trimmed(buf);
                    let cur2 = if t.len() > 0 {
                        CodeNodeView { children: cur.children.push(CodeBodyView::String(t)), ..cur }
                    } else {
                        cur
                    };
                    if next < s.len() && s[next] == '/' {
                        code_run(s, next + 1, stack, cur2, ParseState::ClosingTag, closing, seq![])
                    } else {
                        code_run(
                            s,
                            next,
                            stack.push(cur2),
                            empty_code_node(),
                            ParseState::TagName,
                            seq![],
                            seq![],
                        )
                    }
                },
                _ => Err(error_before("Unexpected `<` tag"@, next)),
            }
        } else if c == '>' {
            match state {
                ParseState::TagName | ParseState::ExtraParam => code_run(
                    s,
                    next,
                    stack,
                    cur,
                    ParseState::TagBody,
                    closing,
                    buf,
                ),
                ParseState::ClosingTag | ParseState::AfterClosingTag => {
                    if cur.name != closing {
                        Err(
                            error_before(
                                "Unexpected closing tag: </"@ + closing + ">. Expected </"@ + cur.name
                                    + ">"@,
                                next,
                            ),
                        )
                    } else if stack.len() == 0 {
                        Ok(cur)
                    } else {
                        let parent = stack.last();
                        code_run(
                            s,
                            next,
                            stack.drop_last(),
                            CodeNodeView {
                                children: parent.children.push(CodeBodyView::Node(cur)),
                                ..parent
                            },
                            ParseState::TagBody,
                            seq![],
                            buf,
                        )
                    }
                },
                _ => Err(error_before("Unexpected `>` tag"@, next)),
            }
        } else if c == '/' {
            if next < s.len() && s[next] == '>' {
                let done = CodeNodeView { self_closing: true, ..cur };
                if cur.name.len() == 0 {
                    Err(error_before("Self-closing tag without name"@, next + 1))
                } else if stack.len() == 0 {
                    Ok(done)
                } else {
                    let parent = stack.last();
                    code_run(
                        s,
                        next + 1,
                        stack.drop_last(),
                        CodeNodeView {
                            children: parent.children.push(CodeBodyView::Node(done)),
                            ..parent
                        },
                        ParseState::TagBody,
                        seq![],
                        buf,
                    )
                }
            } else {
                code_run(s, next, stack, cur, state, closing, buf)
            }
        } else if !is_whitespace_char(c) {
            match state {
                ParseState::TagName => code_run(
                    s,
                    next,
                    stack,
                    CodeNodeView { name: cur.name.push(c), ..cur },
                    state,
                    closing,
                    buf,
                ),
                ParseState::ExtraParam => code_run(
                    s,
                    next,
                    stack,
                    CodeNodeView { extra_param: cur.extra_param.push(c), ..cur },
                    state,
                    closing,
                    buf,
                ),
                ParseState::ClosingTag => code_run(s, next, stack, cur, state, closing.push(c), buf),
                ParseState::TagBody => code_run(s, next, stack, cur, state, closing, buf.push(c)),
                _ => Err(error_before("Unexpected literal"@, next)),
            }
        } else {
            match state {
                ParseState::TagName => code_run(
                    s,
                    next,
                    stack,
                    cur,
                    ParseState::ExtraParam,
                    closing,
                    buf,
                ),
                ParseState::TagBody => code_run(s, next, stack, cur, state, closing, buf.push(c)),
                ParseState::ClosingTag => code_run(
                    s,
                    next,
                    stack,
                    cur,
                    ParseState::AfterClosingTag,
                    closing,
                    buf,
                ),
                _ => code_run(s, next, stack, cur, state, closing, buf),
            }
        }
    }
}

/// `s` without white space at either end, as `trimmed` states.
fn trim_text(s: &String) -> (r: String)
    ensures
        r@ == trimmed(s@),
{
    let v = chars_of(s.as_str());
    let n = v.len();
    let mut a: usize = 0;
    assert(v@.subrange(0, n as int) =~= v@);
    while a < n && is_whitespace(v[a])
        invariant
            a <= n == v.len(),
            v@ == s@,
            leading_space(v@) == a + leading_space(v@.subrange(a as int, n as int)),
        decreases n - a,
    {
        let ghost sub = v@.subrange(a as int, n as int);
        assert(sub.drop_first() =~= v@.subrange(a + 1, n as int));
        a = a + 1;
    }
    let ghost t = v@.subrange(a as int, n as int);
    let mut b: usize = n;
    assert(t.subrange(0, (n - a) as int) =~= t);
    while b > a && is_whitespace(v[b - 1])
        invariant
            a <= b <= n == v.len(),
            v@ == s@,
            t == v@.subrange(a as int, n as int),
            trailing_space(t) == (n - b) + trailing_space(t.subrange(0, b - a)),
        decreases b,
    {
        let ghost pre = t.subrange(0, b - a);
        assert(pre.drop_last() =~= t.subrange(0, b - 1 - a));
        b = b - 1;
    }
    let r = crate::text::string_of_range(&v, a, b);
    assert(r@ =~= trimmed(s@));
    r
}

impl ASTNode {
    /// A tag not read yet.
    fn empty() -> (r: ASTNode)
        ensures
            code_node_view(r) == empty_code_node(),
    {
        let r = ASTNode {
            name: String::new(),
            children: Vec::new(),
            self_closing: false,
            extra_param: String::new(),
        };
        assert(code_bodies_view(r.children@) =~= seq![]);
        r
    }

    /// Appends `child` to the children.
    fn push_child(&mut self, child: ASTBody)
        ensures
            code_node_view(*final(self)) == (CodeNodeView {
                children: code_node_view(*old(self)).children.push(code_body_view(child)),
                ..code_node_view(*old(self))
            }),
    {
        let ghost before = self.children@;
        self.children.push(child);
        assert(self.children@.drop_last() =~= before);
    }
}

/// Reads source text, character by character, into a tree of tags.
pub struct CodeParser {
    iter: Iter<char>,
    buffer: String,
}

impl CodeParser {
    /// The text being read, without its comments.
    pub closed spec fn text(&self) -> Seq<char> {
        self.iter.vec@
    }

    pub closed spec fn wf(&self) -> bool {
        self.iter.wf()
    }

    /// What reading the text gives from the current position on.
    pub closed spec fn outcome(&self) -> Result<CodeNodeView, ErrorView> {
        code_run(
            self.iter.vec@,
            self.iter.pos as int,
            seq![],
            empty_code_node(),
            ParseState::Start,
            seq![],
            self.buffer@,
        )
    }

    /// A reader at the start of `code` with its comments taken out.
    pub fn new(code: String) -> (r: Self)
        ensures
            r.wf(),
            r.text() == without_comments(code@),
            r.outcome() == code_run(
                without_comments(code@),
                0,
                seq![],
                empty_code_node(),
                ParseState::Start,
                seq![],
                seq![],
            ),
    {
        let code = Self::clear_comments(code);
        let r = CodeParser { iter: Iter::from(chars_of(code.as_str())), buffer: String::new() };
        r
    }

    /// `code` with its comments taken out.
    fn clear_comments(code: String) -> (r: String)
        ensures
            r@ == without_comments(code@),
    {
        remove_matches(COMMENT_PATTERN, code.as_str())
    }

    /// Reads one tag, with everything nested in it, from the current position.
    pub fn parse(&mut self) -> (r: Result<ASTNode, SpannedError>)
        requires
            old(self).wf(),
        ensures
            code_result_view(r) == old(self).outcome(),
    {
        let ghost goal = self.outcome();
        let mut stack: Vec<ASTNode> = Vec::new();
        let mut node = ASTNode::empty();
        let mut state = ParseState::Start;
        let mut closing_tag = String::new();
        assert(code_nodes_view(stack@) =~= seq![]);
        while self.iter.pos < self.iter.vec.len()
            invariant
                self.iter.vec@ == old(self).iter.vec@,
                self.iter.pos <= self.iter.vec.len(),
                goal == old(self).outcome(),
                code_run(
                    self.iter.vec@,
                    self.iter.pos as int,
                    code_nodes_view(stack@),
                    code_node_view(node),
                    state,
                    closing_tag@,
                    self.buffer@,
                ) == goal,
            decreases self.iter.vec.len() - self.iter.pos,
        {
            let p = self.iter.pos;
            let c = self.iter.vec[p];
            self.iter.pos = p + 1;
            let len = self.iter.vec.len();
            if c == '<' {
                match state {
                    ParseState::Start => {
                        state = ParseState::TagName;
                    },
                    ParseState::TagBody => {
                        let text = trim_text(&self.buffer);
                        if !text.as_str().is_empty() {
                            node.push_child(ASTBody::String(text));
                        }
                        self.buffer = String::new();
                        if p + 1 < len && self.iter.vec[p + 1] == '/' {
                            self.iter.pos = p + 2;
                            state = ParseState::ClosingTag;
                        } else {
                            let ghost sv = stack@;
                            let mut parent = ASTNode::empty();
                            std::mem::swap(&mut parent, &mut node);
                            stack.push(parent);
                            assert(code_nodes_view(stack@) =~= code_nodes_view(sv).push(code_node_view(parent)));
                            state = ParseState::TagName;
                            closing_tag = String::new();
                        }
                    },
                    _ => {
                        return Err(SpannedError::new("Unexpected `<` tag".to_owned(), Span { start: p, end: p + 1 }));
                    },
                }
            } else if c == '>' {
                match state {
                    ParseState::TagName | ParseState::ExtraParam => {
                        state = ParseState::TagBody;
                    },
                    ParseState::ClosingTag | ParseState::AfterClosingTag => {
                        if !same_text(node.name.as_str(), closing_tag.as_str()) {
                            let mut message = concat3(
                                "Unexpected closing tag: </",
                                closing_tag.as_str(),
                                ">. Expected </",
                            );
                            message.append(node.name.as_str());
                            message.append(">");
                            return Err(SpannedError::new(message, Span { start: p, end: p + 1 }));
                        }
                        if stack.len() == 0 {
                            return Ok(node);
                        }
                        Self::close_into_parent(&mut stack, &mut node);
                        state = ParseState::TagBody;
                        closing_tag = String::new();
                    },
                    _ => {
                        return Err(SpannedError::new("Unexpected `>` tag".to_owned(), Span { start: p, end: p + 1 }));
                    },
                }
            } else if c == '/' {
                if p + 1 < len && self.iter.vec[p + 1] == '>' {
                    node.self_closing = true;
                    self.iter.pos = p + 2;
                    if node.name.as_str().is_empty() {
                        return Err(SpannedError::new("Self-closing tag without name".to_owned(), Span { start: p + 1, end: p + 2 }));
                    }
                    if stack.len() == 0 {
                        return Ok(node);
                    }
                    Self::close_into_parent(&mut stack, &mut node);
                    state = ParseState::TagBody;
                    closing_tag = String::new();
                }
            } else if !is_whitespace(c) {
                match state {
                    ParseState::TagName => {
                        push_char(&mut node.name, c);
                    },
                    ParseState::ExtraParam => {
                        push_char(&mut node.extra_param, c);
                    },
                    ParseState::ClosingTag => {
                        push_char(&mut closing_tag, c);
                    },
                    ParseState::TagBody => {
                        push_char(&mut self.buffer, c);
                    },
                    _ => {
                        return Err(SpannedError::new("Unexpected literal".to_owned(), Span { start: p, end: p + 1 }));
                    },
                }
            } else {
                match state {
                    ParseState::TagName => {
                        state = ParseState::ExtraParam;
                    },
                    ParseState::TagBody => {
                        push_char(&mut self.buffer, c);
                    },
                    ParseState::ClosingTag => {
                        state = ParseState::AfterClosingTag;
                    },
                    _ => {},
                }
            }
        }
        let len = self.iter.vec.len();
        let start = if len >= 1 {
            len - 1
        } else {
            0
        };
        Err(SpannedError::new("Unexpected EOF".to_owned(), Span { start, end: len }))
    }

    /// Appends the finished `node` to the innermost open tag, which becomes the current one.
    fn close_into_parent(stack: &mut Vec<ASTNode>, node: &mut ASTNode)
        requires
            old(stack).len() > 0,
        ensures
            code_nodes_view(final(stack)@) == code_nodes_view(old(stack)@).drop_last(),
            code_node_view(*final(node)) == ({
                let parent = code_nodes_view(old(stack)@).last();
                CodeNodeView {
                    children: parent.children.push(CodeBodyView::Node(code_node_view(*old(node)))),
                    ..parent
                }
            }),
    {
        let ghost sv = stack@;
        let mut parent = stack.pop().unwrap();
        assert(code_nodes_view(stack@) =~= code_nodes_view(sv).drop_last());
        std::mem::swap(&mut parent, node);
        node.push_child(ASTBody::Node(Box::new(parent)));
    }
}

} // verus!
