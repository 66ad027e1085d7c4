use vstd::prelude::*;

use crate::iterator::{has_at, Iter};
use crate::span::{line_starts, line_starts_of};
use crate::text::{chars_of, is_whitespace, is_whitespace_char, push_char, string_of_char};

verus! {

/// The kind of a token, with the text it carries.
#[derive(Debug, Clone, PartialEq)]
pub enum UVLexerTokens {
    OpeningAngleBracket,
    ClosingAngleBracket,
    SelfClosingAngleBracket,
    OpeningAngleBracketSlash,
    Literal(String),
    RawString(String),
    Unknown(char),
}

/// The mathematical value of a token kind.
pub enum LexemeView {
    OpeningAngleBracket,
    ClosingAngleBracket,
    SelfClosingAngleBracket,
    OpeningAngleBracketSlash,
    Literal(Seq<char>),
    RawString(Seq<char>),
    Unknown(char),
}

impl View for UVLexerTokens {
    type V = LexemeView;

    open spec fn view(&self) -> LexemeView {
        match self {
            UVLexerTokens::OpeningAngleBracket => LexemeView::OpeningAngleBracket,
            UVLexerTokens::ClosingAngleBracket => LexemeView::ClosingAngleBracket,
            UVLexerTokens::SelfClosingAngleBracket => LexemeView::SelfClosingAngleBracket,
            UVLexerTokens::OpeningAngleBracketSlash => LexemeView::OpeningAngleBracketSlash,
            UVLexerTokens::Literal(s) => LexemeView::Literal(s@),
            UVLexerTokens::RawString(s) => LexemeView::RawString(s@),
            UVLexerTokens::Unknown(c) => LexemeView::Unknown(*c),
        }
    }
}

/// The printed form of a token kind.
pub open spec fn lexeme_text(k: LexemeView) -> Seq<char> {
    match k {
        LexemeView::OpeningAngleBracket => "<"@,
        LexemeView::ClosingAngleBracket => ">"@,
        LexemeView::SelfClosingAngleBracket => "/>"@,
        LexemeView::OpeningAngleBracketSlash => "</"@,
        LexemeView::Literal(s) => "[Literal \""@ + s + "\"]"@,
        LexemeView::RawString(s) => "[Raw string \""@ + s + "\"]"@,
        LexemeView::Unknown(c) => seq![c],
    }
}

impl UVLexerTokens {
    /// The printed form of the token kind.
    pub fn to_string(&self) -> (r: String)
        ensures
            r@ == lexeme_text(self@),
    {
        match self {
            UVLexerTokens::OpeningAngleBracket => "<".to_owned(),
            UVLexerTokens::ClosingAngleBracket => ">".to_owned(),
            UVLexerTokens::SelfClosingAngleBracket => "/>".to_owned(),
            UVLexerTokens::OpeningAngleBracketSlash => "</".to_owned(),
            UVLexerTokens::Literal(s) => {
                let mut r = "[Literal \"".to_owned();
                r.append(s.as_str());
                r.append("\"]");
                r
            },
            UVLexerTokens::RawString(s) => {
                let mut r = "[Raw string \"".to_owned();
                r.append(s.as_str());
                r.append("\"]");
                r
            },
            UVLexerTokens::Unknown(c) => string_of_char(*c),
        }
    }
}

/// A token with the span `[start, end)` of characters it stands for.
#[derive(Debug, Clone, PartialEq)]
pub struct UVToken {
    pub token: UVLexerTokens,
    pub start: usize,
    pub end: usize,
}

/// The mathematical value of a token.
pub struct TokenView {
    pub kind: LexemeView,
    pub start: int,
    pub end: int,
}

impl View for UVToken {
    type V = TokenView;

    open spec fn view(&self) -> TokenView {
        TokenView { kind: self.token@, start: self.start as int, end: self.end as int }
    }
}

/// The values of a sequence of tokens.
pub open spec fn tokens_view(ts: Seq<UVToken>) -> Seq<TokenView> {
    ts.map_values(|t: UVToken| t@)
}

pub open spec fn tok(kind: LexemeView, start: int, end: int) -> TokenView {
    TokenView { kind, start, end }
}

/// Characters that make up a literal: ASCII letters and digits, `.`, `,` and `_`.
pub open spec fn is_literal_char(c: char) -> bool {
    ||| ('a' <= c && c <= 'z')
    ||| ('A' <= c && c <= 'Z')
    ||| ('0' <= c && c <= '9')
    ||| c == '.'
    ||| c == ','
    ||| c == '_'
}

/// The end of the run of literal characters that starts at `i`.
pub open spec fn literal_run_end(s: Seq<char>, i: int) -> int
    decreases s.len() - i,
{
    if 0 <= i < s.len() && is_literal_char(s[i]) {
        literal_run_end(s, i + 1)
    } else {
        i
    }
}

/// The first position at or after `i` that holds `c`; the length of `s` if there is none.
pub open spec fn find_char(s: Seq<char>, i: int, c: char) -> int
    decreases s.len() - i,
{
    if i < 0 || i >= s.len() {
        s.len() as int
    } else if s[i] == c {
        i
    } else {
        find_char(s, i + 1, c)
    }
}

pub open spec fn comment_open() -> Seq<char> {
    seq!['<', '!', '-', '-']
}

pub open spec fn comment_close() -> Seq<char> {
    seq!['-', '-', '>']
}

pub open spec fn raw_open() -> Seq<char> {
    seq!['<', 's', 't', 'r', '>']
}

pub open spec fn raw_label_open() -> Seq<char> {
    seq!['<', 's', 't', 'r', '-']
}

pub open spec fn str_tag() -> Seq<char> {
    seq!['s', 't', 'r']
}

/// The tag that ends a raw string opened with `label`: `</str>` or `</str-LABEL>`.
pub open spec fn closing_sentinel(label: Option<Seq<char>>) -> Seq<char> {
    match label {
        None => seq!['<', '/', 's', 't', 'r', '>'],
        Some(l) => seq!['<', '/', 's', 't', 'r', '-'] + l + seq!['>'],
    }
}

/// The tokens of `s` from position `i` on, in normal mode.
pub open spec fn lex_normal(s: Seq<char>, i: int) -> Seq<TokenView>
    decreases s.len() - i,
    via lex_normal_decreases
{
    if i < 0 || i >= s.len() {
        seq![]
    } else {
        let c = s[i];
        if c == '<' {
            if has_at(s, i, comment_open()) {
                lex_comment(s, i + 2)
            } else if has_at(s, i, seq!['<', '/']) {
                seq![tok(LexemeView::OpeningAngleBracketSlash, i, i + 2)] + lex_normal(s, i + 2)
            } else if has_at(s, i, raw_open()) {
                seq![
                    tok(LexemeView::OpeningAngleBracket, i, i + 1),
                    tok(LexemeView::Literal(str_tag()), i + 1, i + 4),
                    tok(LexemeView::ClosingAngleBracket, i + 4, i + 5),
                ] + lex_raw(s, i + 5, i + 5, None)
            } else if has_at(s, i, raw_label_open()) && find_char(s, i + 5, '>') < s.len() {
                let g = find_char(s, i + 5, '>');
                seq![
                    tok(LexemeView::OpeningAngleBracket, i, i + 1),
                    tok(LexemeView::Literal(str_tag()), i + 1, g),
                    tok(LexemeView::ClosingAngleBracket, g, g + 1),
                ] + lex_raw(s, g + 1, g + 1, Some(s.subrange(i + 5, g)))
            } else {
                seq![tok(LexemeView::OpeningAngleBracket, i, i + 1)] + lex_normal(s, i + 1)
            }
        } else if c == '>' {
            seq![tok(LexemeView::ClosingAngleBracket, i, i + 1)] + lex_normal(s, i + 1)
        } else if c == '/' {
            if has_at(s, i, seq!['/', '>']) {
                seq![tok(LexemeView::SelfClosingAngleBracket, i, i + 2)] + lex_normal(s, i + 2)
            } else {
                seq![tok(LexemeView::Unknown('/'), i, i + 1)] + lex_normal(s, i + 1)
            }
        } else if is_literal_char(c) {
            let j = literal_run_end(s, i);
            seq![tok(LexemeView::Literal(s.subrange(i, j)), i, j)] + lex_normal(s, j)
        } else if is_whitespace_char(c) {
            lex_normal(s, i + 1)
        } else {
            seq![tok(LexemeView::Unknown(c), i, i + 1)] + lex_normal(s, i + 1)
        }
    }
}

#[via_fn]
proof fn lex_normal_decreases(s: Seq<char>, i: int) {
    if 0 <= i < s.len() {
        if i + 5 <= s.len() {
            lemma_find_char_bounds(s, i + 5, '>');
        }
        lemma_literal_run_bounds(s, i);
    }
}

/// The tokens of `s` inside a comment, scanning for its end from position `p`.
pub open spec fn lex_comment(s: Seq<char>, p: int) -> Seq<TokenView>
    decreases s.len() - p,
{
    if p < 0 || p >= s.len() {
        seq![]
    } else if has_at(s, p, comment_close()) {
        lex_normal(s, p + 3)
    } else {
        lex_comment(s, p + 1)
    }
}

/// The tokens of `s` inside a raw string whose body starts at `st`, scanning from `p`.
pub open spec fn lex_raw(s: Seq<char>, st: int, p: int, label: Option<Seq<char>>) -> Seq<
    TokenView,
>
    decreases s.len() - p,
{
    if p < 0 || p >= s.len() {
        if 0 <= st < s.len() {
            seq![tok(LexemeView::RawString(s.subrange(st, s.len() as int)), st, s.len() as int)]
        } else {
            seq![]
        }
    } else if has_at(s, p, closing_sentinel(label)) {
        let n = closing_sentinel(label).len() as int;
        let body = if st < p {
            seq![tok(LexemeView::RawString(s.subrange(st, p)), st, p)]
        } else {
            seq![]
        };
        body + seq![
            tok(LexemeView::OpeningAngleBracketSlash, p, p + 2),
            tok(LexemeView::Literal(str_tag()), p + 2, p + n - 1),
            tok(LexemeView::ClosingAngleBracket, p + n - 1, p + n),
        ] + lex_normal(s, p + n)
    } else {
        lex_raw(s, st, p + 1, label)
    }
}

/// One step of the lexer: the tokens it gives, the position after it, and the mode after it
/// (`None` for normal mode, `Some(label)` inside a raw string opened with `label`).
pub struct LexStep {
    pub tokens: Seq<TokenView>,
    pub next: int,
    pub raw: Option<Option<Seq<char>>>,
}

/// The position just past the comment whose end is looked for from `p`: past its `-->`, or the
/// end of the text when there is none.
pub open spec fn comment_end(s: Seq<char>, p: int) -> int {
    let j = find_pattern(s, p, comment_close());
    if j < s.len() {
        j + 3
    } else {
        s.len() as int
    }
}

/// The step of normal mode at position `i < s.len()`.
pub open spec fn normal_step(s: Seq<char>, i: int) -> LexStep {
    let c = s[i];
    if c == '<' {
        if has_at(s, i, comment_open()) {
            LexStep { tokens: seq![], next: comment_end(s, i + 2), raw: None }
        } else if has_at(s, i, seq!['<', '/']) {
            LexStep {
                tokens: seq![tok(LexemeView::OpeningAngleBracketSlash, i, i + 2)],
                next: i + 2,
                raw: None,
            }
        } else if has_at(s, i, raw_open()) {
            LexStep {
                tokens: seq![
                    tok(LexemeView::OpeningAngleBracket, i, i + 1),
                    tok(LexemeView::Literal(str_tag()), i + 1, i + 4),
                    tok(LexemeView::ClosingAngleBracket, i + 4, i + 5),
                ],
                next: i + 5,
                raw: Some(None),
            }
        } else if has_at(s, i, raw_label_open()) && find_char(s, i + 5, '>') < s.len() {
            let g = find_char(s, i + 5, '>');
            LexStep {
                tokens: seq![
                    tok(LexemeView::OpeningAngleBracket, i, i + 1),
                    tok(LexemeView::Literal(str_tag()), i + 1, g),
                    tok(LexemeView::ClosingAngleBracket, g, g + 1),
                ],
                next: g + 1,
                raw: Some(Some(s.subrange(i + 5, g))),
            }
        } else {
            LexStep { tokens: seq![tok(LexemeView::OpeningAngleBracket, i, i + 1)], next: i + 1, raw: None }
        }
    } else if c == '>' {
        LexStep { tokens: seq![tok(LexemeView::ClosingAngleBracket, i, i + 1)], next: i + 1, raw: None }
    } else if c == '/' {
        if has_at(s, i, seq!['/', '>']) {
            LexStep {
                tokens: seq![tok(LexemeView::SelfClosingAngleBracket, i, i + 2)],
                next: i + 2,
                raw: None,
            }
        } else {
            LexStep { tokens: seq![tok(LexemeView::Unknown('/'), i, i + 1)], next: i + 1, raw: None }
        }
    } else if is_literal_char(c) {
        let j = literal_run_end(s, i);
        LexStep { tokens: seq![tok(LexemeView::Literal(s.subrange(i, j)), i, j)], next: j, raw: None }
    } else if is_whitespace_char(c) {
        LexStep { tokens: seq![], next: i + 1, raw: None }
    } else {
        LexStep { tokens: seq![tok(LexemeView::Unknown(c), i, i + 1)], next: i + 1, raw: None }
    }
}

/// The step inside a raw string opened with `label`, whose body starts at `st`, at position
/// `p < s.len()`: its closing tag, or one character of its body.
pub open spec fn raw_step(s: Seq<char>, st: int, p: int, label: Option<Seq<char>>) -> LexStep {
    if has_at(s, p, closing_sentinel(label)) {
        let n = closing_sentinel(label).len() as int;
        let body = if st < p {
            seq![tok(LexemeView::RawString(s.subrange(st, p)), st, p)]
        } else {
            seq![]
        };
        LexStep {
            tokens: body + seq![
                tok(LexemeView::OpeningAngleBracketSlash, p, p + 2),
                tok(LexemeView::Literal(str_tag()), p + 2, p + n - 1),
                tok(LexemeView::ClosingAngleBracket, p + n - 1, p + n),
            ],
            next: p + n,
            raw: None,
        }
    } else {
        LexStep { tokens: seq![], next: p + 1, raw: Some(label) }
    }
}

/// The tokens of a whole source text.
pub open spec fn lex(s: Seq<char>) -> Seq<TokenView> {
    lex_normal(s, 0)
}

pub proof fn lemma_find_char_bounds(s: Seq<char>, i: int, c: char)
    requires
        0 <= i <= s.len(),
    ensures
        i <= find_char(s, i, c) <= s.len(),
        find_char(s, i, c) < s.len() ==> s[find_char(s, i, c)] == c,
        forall|k: int| i <= k < find_char(s, i, c) ==> s[k] != c,
    decreases s.len() - i,
{
    if i < s.len() && s[i] != c {
        lemma_find_char_bounds(s, i + 1, c);
    }
}

pub proof fn lemma_literal_run_bounds(s: Seq<char>, i: int)
    requires
        0 <= i <= s.len(),
    ensures
        i <= literal_run_end(s, i) <= s.len(),
        i < s.len() && is_literal_char(s[i]) ==> i < literal_run_end(s, i),
        forall|k: int| i <= k < literal_run_end(s, i) ==> is_literal_char(s[k]),
    decreases s.len() - i,
{
    if i < s.len() && is_literal_char(s[i]) {
        lemma_literal_run_bounds(s, i + 1);
    }
}

/// The mode of the lexer: normal, or inside a raw string opened with an optional label.
pub enum LexerParseState {
    Default,
    ParsingRawStringLiteral(Option<String>),
}

/// The mode of the lexer: `None` for normal mode, `Some(label)` inside a raw string.
pub open spec fn mode_view(st: LexerParseState) -> Option<Option<Seq<char>>> {
    match st {
        LexerParseState::Default => None,
        LexerParseState::ParsingRawStringLiteral(l) => Some(label_view(l)),
    }
}

/// The label of a raw string, as characters.
pub open spec fn label_view(l: Option<String>) -> Option<Seq<char>> {
    match l {
        Some(x) => Some(x@),
        None => None,
    }
}

/// Turns source text into tokens.
pub struct Lexer {
    iter: Iter<char>,
    tokens: Vec<UVToken>,
    buffer: String,
    parse_state: LexerParseState,
    token_start: usize,
    lines_map: Vec<usize>,
}

impl Lexer {
    /// The source text.
    pub closed spec fn source(&self) -> Seq<char> {
        self.iter.vec@
    }

    /// How many characters have been read.
    pub closed spec fn position(&self) -> int {
        self.iter.pos as int
    }

    pub closed spec fn wf(&self) -> bool {
        &&& self.iter.pos <= self.iter.vec.len()
        &&& self.lines_map@ == line_starts(self.iter.vec@)
        &&& self.label_ok()
        &&& match self.parse_state {
            LexerParseState::Default => true,
            LexerParseState::ParsingRawStringLiteral(l) => {
                &&& self.token_start <= self.iter.pos
                &&& self.buffer@ == self.iter.vec@.subrange(
                    self.token_start as int,
                    self.iter.pos as int,
                )
            },
        }
    }

    /// Whether `self` and `other` differ in their position at most.
    closed spec fn same_but_position(&self, other: Lexer) -> bool {
        &&& self.iter.vec@ == other.iter.vec@
        &&& self.tokens == other.tokens
        &&& self.buffer == other.buffer
        &&& self.parse_state == other.parse_state
        &&& self.token_start == other.token_start
        &&& self.lines_map == other.lines_map
    }

    /// Whether the label of the current raw string, if any, holds no `>`.
    closed spec fn label_ok(&self) -> bool {
        match self.parse_state {
            LexerParseState::ParsingRawStringLiteral(Some(x)) => forall|k: int|
                0 <= k < x@.len() ==> x@[k] != '>',
            _ => true,
        }
    }

    /// The tokens still to come from the current mode and position.
    pub closed spec fn rest(&self) -> Seq<TokenView> {
        match self.parse_state {
            LexerParseState::Default => lex_normal(self.iter.vec@, self.iter.pos as int),
            LexerParseState::ParsingRawStringLiteral(l) => lex_raw(
                self.iter.vec@,
                self.token_start as int,
                self.iter.pos as int,
                label_view(l),
            ),
        }
    }

    /// All tokens of the source: those produced so far and those still to come.
    pub closed spec fn pending(&self) -> Seq<TokenView> {
        tokens_view(self.tokens@) + self.rest()
    }

    /// A lexer at the start of `input_code`.
    pub fn new(input_code: String) -> (r: Lexer)
        ensures
            r.wf(),
            r.source() == input_code@,
            r.position() == 0,
            r.pending() == lex(input_code@),
    {
        let chars = chars_of(input_code.as_str());
        let lines = line_starts_of(&chars);
        let r = Lexer {
            iter: Iter::from(chars),
            tokens: Vec::new(),
            buffer: String::new(),
            parse_state: LexerParseState::Default,
            token_start: 0,
            lines_map: lines,
        };
        assert(r.pending() =~= lex(input_code@));
        r
    }

    /// Reads the rest of the source and returns every token of it, in order.
    pub fn parse(&mut self) -> (r: Vec<UVToken>)
        requires
            old(self).wf(),
        ensures
            final(self).wf(),
            final(self).source() == old(self).source(),
            final(self).position() == final(self).source().len(),
            tokens_view(r@) == old(self).pending(),
    {
        let ghost all = self.pending();
        while self.iter.pos < self.iter.vec.len()
            invariant
                self.wf(),
                self.pending() == all,
                self.source() == old(self).source(),
            decreases self.iter.vec.len() - self.iter.pos,
        {
            let mut out = match self.parse_state {
                LexerParseState::Default => self.lex_normal_mode(),
                LexerParseState::ParsingRawStringLiteral(_) => self.lex_raw_mode(),
            };
            let ghost before = self.tokens@;
            self.tokens.append(&mut out);
            proof {
                lemma_tokens_view_append(before, out@);
            }
        }
        let ghost s = self.iter.vec@;
        if let LexerParseState::ParsingRawStringLiteral(_) = self.parse_state {
            let len = self.iter.vec.len();
            if self.token_start < len {
                let text = self.finish_consuming_literal();
                let t = UVToken {
                    token: UVLexerTokens::RawString(text),
                    start: self.token_start,
                    end: len,
                };
                let ghost before = self.tokens@;
                self.tokens.push(t);
                proof {
                    lemma_tokens_view_append(before, seq![t]);
                    assert(seq![t].map_values(|t: UVToken| t@) =~= seq![t@]);
                }
            }
            self.parse_state = LexerParseState::Default;
            assert(self.pending() =~= all);
        }
        let mut r: Vec<UVToken> = Vec::new();
        std::mem::swap(&mut r, &mut self.tokens);
        assert(self.pending() =~= seq![]);
        assert(all =~= tokens_view(r@) + seq![]);
        r
    }

    /// One step in normal mode: reads a symbol, a literal, white space or a comment.
    fn lex_normal_mode(&mut self) -> (out: Vec<UVToken>)
        requires
            old(self).wf(),
            old(self).parse_state is Default,
            old(self).iter.pos < old(self).iter.vec.len(),
        ensures
            final(self).wf(),
            final(self).tokens == old(self).tokens,
            final(self).iter.vec@ == old(self).iter.vec@,
            final(self).iter.pos > old(self).iter.pos,
            tokens_view(out@) + final(self).rest() == old(self).rest(),
            ({
                let step = normal_step(old(self).iter.vec@, old(self).iter.pos as int);
                &&& tokens_view(out@) == step.tokens
                &&& final(self).iter.pos == step.next
                &&& mode_view(final(self).parse_state) == step.raw
                &&& step.raw is Some ==> final(self).token_start == final(self).iter.pos
            }),
    {
        let ghost s = self.iter.vec@;
        let i = self.iter.pos;
        let len = self.iter.vec.len();
        let ch = self.iter.vec[i];
        self.iter.pos = i + 1;
        let is_lit = Self::is_valid_literal(ch);
        let is_ws = is_whitespace(ch);
        if ch == '<' {
            self.lex_open_angle(i)
        } else if ch == '>' {
            one_token(UVLexerTokens::ClosingAngleBracket, i, i + 1)
        } else if ch == '/' {
            if i + 1 < len && self.iter.vec[i + 1] == '>' {
                self.iter.pos = i + 2;
                assert(has_at(s, i as int, seq!['/', '>']));
                one_token(UVLexerTokens::SelfClosingAngleBracket, i, i + 2)
            } else {
                assert(!has_at(s, i as int, seq!['/', '>']));
                one_token(UVLexerTokens::Unknown('/'), i, i + 1)
            }
        } else if is_lit {
            self.lex_literal(i)
        } else if !is_ws {
            unknown_token(Ghost(s), ch, i)
        } else {
            let out: Vec<UVToken> = Vec::new();
            assert(tokens_view(out@) =~= seq![]);
            out
        }
    }

    /// Reads the literal that starts at `i`, the character just read.
    fn lex_literal(&mut self, i: usize) -> (out: Vec<UVToken>)
        requires
            old(self).wf(),
            old(self).parse_state is Default,
            old(self).iter.pos == i + 1,
            i < old(self).iter.vec.len(),
            is_literal_char(old(self).iter.vec@[i as int]),
        ensures
            final(self).wf(),
            final(self).same_but_position(*old(self)),
            final(self).iter.pos > i,
            tokens_view(out@) + lex_normal(final(self).iter.vec@, final(self).iter.pos as int)
                == lex_normal(old(self).iter.vec@, i as int),
            final(self).iter.pos == literal_run_end(old(self).iter.vec@, i as int),
            tokens_view(out@) == seq![
                tok(
                    LexemeView::Literal(old(self).iter.vec@.subrange(i as int, final(self).iter.pos as int)),
                    i as int,
                    final(self).iter.pos as int,
                ),
            ],
    {
        let ghost s = self.iter.vec@;
        let len = self.iter.vec.len();
        let mut text = string_of_char(self.iter.vec[i]);
        proof {
            lemma_literal_run_bounds(s, i as int);
        }
        while self.iter.pos < len && Self::is_valid_literal(self.iter.vec[self.iter.pos])
            invariant
                self.same_but_position(*old(self)),
                self.parse_state is Default,
                self.iter.vec@ == s,
                len == s.len(),
                i < self.iter.pos <= len,
                text@ == s.subrange(i as int, self.iter.pos as int),
                literal_run_end(s, i as int) == literal_run_end(s, self.iter.pos as int),
            decreases len - self.iter.pos,
        {
            push_char(&mut text, self.iter.vec[self.iter.pos]);
            self.iter.pos = self.iter.pos + 1;
            assert(text@ =~= s.subrange(i as int, self.iter.pos as int));
        }
        let j = self.iter.pos;
        one_token(UVLexerTokens::Literal(text), i, j)
    }

    /// Reads what follows a `<` at `i`, the character just read: a comment, `</`, the
    /// opening tag of a raw string, or the `<` alone.
    fn lex_open_angle(&mut self, i: usize) -> (out: Vec<UVToken>)
        requires
            old(self).wf(),
            old(self).parse_state is Default,
            old(self).iter.pos == i + 1,
            i < old(self).iter.vec.len(),
            old(self).iter.vec@[i as int] == '<',
        ensures
            final(self).wf(),
            final(self).tokens == old(self).tokens,
            final(self).iter.vec@ == old(self).iter.vec@,
            final(self).iter.pos > i,
            tokens_view(out@) + final(self).rest() == lex_normal(old(self).iter.vec@, i as int),
            ({
                let step = normal_step(old(self).iter.vec@, i as int);
                &&& tokens_view(out@) == step.tokens
                &&& final(self).iter.pos == step.next
                &&& mode_view(final(self).parse_state) == step.raw
                &&& step.raw is Some ==> final(self).token_start == final(self).iter.pos
            }),
    {
        let ghost s = self.iter.vec@;
        let len = self.iter.vec.len();
        if self.check_comment_and_consume() {
            let out: Vec<UVToken> = Vec::new();
            assert(tokens_view(out@) =~= seq![]);
            return out;
        }
        if i + 1 < len && self.iter.vec[i + 1] == '/' {
            self.iter.pos = i + 2;
            assert(has_at(s, i as int, seq!['<', '/']));
            return one_token(UVLexerTokens::OpeningAngleBracketSlash, i, i + 2);
        }
        assert(!has_at(s, i as int, seq!['<', '/']));
        let opened = self.check_opening_raw_str_tag();
        match opened {
            Some(label) => {
                let ghost lbl = label_view(label);
                let e = self.iter.pos;
                proof {
                    reveal_strlit("str");
                    assert("str"@ =~= str_tag());
                    lemma_find_char_bounds(s, i + 5, '>');
                }
                let out = three_tokens(
                    UVToken { token: UVLexerTokens::OpeningAngleBracket, start: i, end: i + 1 },
                    UVToken { token: UVLexerTokens::Literal("str".to_owned()), start: i + 1, end: e - 1 },
                    UVToken { token: UVLexerTokens::ClosingAngleBracket, start: e - 1, end: e },
                );
                self.token_start = e;
                self.buffer = String::new();
                self.parse_state = LexerParseState::ParsingRawStringLiteral(label);
                assert(self.buffer@ =~= s.subrange(e as int, e as int));
                assert(tokens_view(out@) + self.rest() == lex_normal(s, i as int));
                out
            },
            None => one_token(UVLexerTokens::OpeningAngleBracket, i, i + 1),
        }
    }

    /// One step inside a raw string: reads a character of its body, or its closing tag.
    fn lex_raw_mode(&mut self) -> (out: Vec<UVToken>)
        requires
            old(self).wf(),
            old(self).parse_state is ParsingRawStringLiteral,
            old(self).iter.pos < old(self).iter.vec.len(),
        ensures
            final(self).wf(),
            final(self).tokens == old(self).tokens,
            final(self).iter.vec@ == old(self).iter.vec@,
            final(self).iter.pos > old(self).iter.pos,
            tokens_view(out@) + final(self).rest() == old(self).rest(),
            ({
                let step = raw_step(
                    old(self).iter.vec@,
                    old(self).token_start as int,
                    old(self).iter.pos as int,
                    label_view(old(self).parse_state->ParsingRawStringLiteral_0),
                );
                &&& tokens_view(out@) == step.tokens
                &&& final(self).iter.pos == step.next
                &&& mode_view(final(self).parse_state) == step.raw
                &&& step.raw is Some ==> final(self).token_start == old(self).token_start
            }),
    {
        let ghost s = self.iter.vec@;
        let ghost lbl = label_view(self.parse_state->ParsingRawStringLiteral_0);
        let p = self.iter.pos;
        let ch = self.iter.vec[p];
        self.iter.pos = p + 1;
        if ch == '<' && self.check_closing_raw_str_tag() {
            let e = self.iter.pos;
            let st = self.token_start;
            proof {
                reveal_strlit("str");
                assert("str"@ =~= str_tag());
                lemma_sentinel_shape(lbl);
            }
            let mut out: Vec<UVToken> = Vec::new();
            if st < p {
                let text = self.finish_consuming_literal();
                out = one_token(UVLexerTokens::RawString(text), st, p);
            } else {
                assert(tokens_view(out@) =~= seq![]);
            }
            let mut tail = three_tokens(
                UVToken { token: UVLexerTokens::OpeningAngleBracketSlash, start: p, end: p + 2 },
                UVToken { token: UVLexerTokens::Literal("str".to_owned()), start: p + 2, end: e - 1 },
                UVToken { token: UVLexerTokens::ClosingAngleBracket, start: e - 1, end: e },
            );
            let ghost body = out@;
            let ghost rest = tail@;
            out.append(&mut tail);
            proof {
                lemma_tokens_view_append(body, rest);
            }
            self.buffer = String::new();
            self.parse_state = LexerParseState::Default;
            out
        } else {
            proof {
                if ch != '<' {
                    lemma_sentinel_shape(lbl);
                    assert(!has_at(s, p as int, closing_sentinel(lbl)));
                }
            }
            push_char(&mut self.buffer, ch);
            assert(self.buffer@ =~= s.subrange(self.token_start as int, self.iter.pos as int));
            let out: Vec<UVToken> = Vec::new();
            assert(tokens_view(out@) =~= seq![]);
            out
        }
    }

    /// Takes the text of the raw string gathered so far, leaving the buffer empty.
    fn finish_consuming_literal(&mut self) -> (r: String)
        ensures
            r@ == old(self).buffer@,
            final(self).buffer@ == Seq::<char>::empty(),
            final(self).iter == old(self).iter,
            final(self).tokens == old(self).tokens,
            final(self).parse_state == old(self).parse_state,
            final(self).token_start == old(self).token_start,
            final(self).lines_map == old(self).lines_map,
    {
        let mut text = String::new();
        std::mem::swap(&mut text, &mut self.buffer);
        text
    }

    /// Whether a comment opens at the `<` just read; if so, reads past its end.
    fn check_comment_and_consume(&mut self) -> (r: bool)
        requires
            old(self).iter.pos <= old(self).iter.vec.len(),
            old(self).iter.pos >= 1,
        ensures
            final(self).same_but_position(*old(self)),
            r == has_at(old(self).iter.vec@, old(self).iter.pos - 1, comment_open()),
            !r ==> final(self).iter.pos == old(self).iter.pos,
            r ==> final(self).iter.pos == comment_end(old(self).iter.vec@, old(self).iter.pos + 1),
            r ==> final(self).iter.pos > old(self).iter.pos && final(self).iter.pos
                <= final(self).iter.vec.len() && lex_normal(final(self).iter.vec@, final(self).iter.pos as int)
                == lex_comment(old(self).iter.vec@, old(self).iter.pos + 1),
    {
        let ghost s = self.iter.vec@;
        let i = self.iter.pos - 1;
        self.iter.step_back();
        if !self.iter.starts_with(&['<', '!', '-', '-']) {
            self.iter.next();
            return false;
        }
        self.iter.pos = i + 2;
        while self.iter.pos < self.iter.vec.len()
            invariant
                self.same_but_position(*old(self)),
                self.iter.vec@ == s,
                i + 2 <= self.iter.pos <= self.iter.vec.len(),
                i + 1 == old(self).iter.pos,
                has_at(s, i as int, comment_open()),
                find_pattern(s, self.iter.pos as int, comment_close()) == find_pattern(s, i + 2, comment_close()),
                lex_comment(s, self.iter.pos as int) == lex_comment(s, i + 2),
            decreases self.iter.vec.len() - self.iter.pos,
        {
            if self.iter.starts_with(&['-', '-', '>']) {
                self.iter.pos = self.iter.pos + 3;
                return true;
            }
            self.iter.next();
        }
        true
    }

    /// Whether `<str>` or `<str-LABEL>` opens at the `<` just read; if so, reads past it and
    /// returns the label.
    fn check_opening_raw_str_tag(&mut self) -> (r: Option<Option<String>>)
        requires
            old(self).iter.pos <= old(self).iter.vec.len(),
            old(self).iter.pos >= 1,
        ensures
            final(self).same_but_position(*old(self)),
            ({
                let s = old(self).iter.vec@;
                let i = old(self).iter.pos - 1;
                let g = find_char(s, i + 5, '>');
                match r {
                    None => final(self).iter.pos == old(self).iter.pos && !has_at(s, i, raw_open())
                        && !(has_at(s, i, raw_label_open()) && g < s.len()),
                    Some(None) => has_at(s, i, raw_open()) && final(self).iter.pos == i + 5,
                    Some(Some(l)) => !has_at(s, i, raw_open()) && has_at(s, i, raw_label_open()) && g
                        < s.len() && final(self).iter.pos == g + 1 && l@ == s.subrange(i + 5, g)
                        && forall|k: int| 0 <= k < l@.len() ==> l@[k] != '>',
                }
            }),
    {
        let ghost s = self.iter.vec@;
        let start_iter_pos = self.iter.pos;
        self.iter.step_back();
        if self.iter.starts_with(&['<', 's', 't', 'r']) {
            self.iter.pos = self.iter.pos + 4;
            match self.iter.next() {
                Some('>') => {
                    return Some(None);
                },
                Some('-') => {
                    let ghost i = start_iter_pos - 1;
                    proof {
                        lemma_find_char_bounds(s, i + 5, '>');
                    }
                    match self.consume_raw_str_label() {
                        Some(l) => {
                            return Some(Some(l));
                        },
                        None => {},
                    }
                },
                _ => {},
            }
        }
        self.iter.pos = start_iter_pos;
        None
    }

    /// Reads up to and past the next `>`, returning what came before it; `None` at the end.
    fn consume_raw_str_label(&mut self) -> (r: Option<String>)
        requires
            old(self).iter.pos <= old(self).iter.vec.len(),
        ensures
            final(self).same_but_position(*old(self)),
            ({
                let s = old(self).iter.vec@;
                let p = old(self).iter.pos as int;
                let g = find_char(s, p, '>');
                &&& g < s.len() ==> (r matches Some(l) && l@ == s.subrange(p, g) && final(self).iter.pos
                    == g + 1)
                &&& g >= s.len() ==> r is None && final(self).iter.pos == s.len()
            }),
    {
        let ghost s = self.iter.vec@;
        let p0 = self.iter.pos;
        let ghost p = p0 as int;
        let mut buffer = String::new();
        let mut found = false;
        proof {
            lemma_find_char_bounds(s, p, '>');
        }
        while !found && self.iter.pos < self.iter.vec.len()
            invariant
                self.same_but_position(*old(self)),
                self.iter.vec@ == s,
                p0 <= self.iter.pos <= s.len(),
                p == p0 as int,
                !found ==> buffer@ == s.subrange(p, self.iter.pos as int) && find_char(s, p, '>')
                    == find_char(s, self.iter.pos as int, '>'),
                found ==> p < self.iter.pos && find_char(s, p, '>') == self.iter.pos - 1 && buffer@
                    == s.subrange(p, self.iter.pos - 1),
            decreases self.iter.vec.len() - self.iter.pos,
        {
            let q = self.iter.pos;
            let c = self.iter.vec[q];
            self.iter.pos = q + 1;
            if c == '>' {
                found = true;
            } else {
                push_char(&mut buffer, c);
                assert(buffer@ =~= s.subrange(p, q + 1));
            }
        }
        if found {
            Some(buffer)
        } else {
            None
        }
    }

    /// Whether the closing tag of the current raw string starts at the `<` just read; if so,
    /// reads past it.
    fn check_closing_raw_str_tag(&mut self) -> (r: bool)
        requires
            old(self).label_ok(),
            old(self).parse_state is ParsingRawStringLiteral,
            1 <= old(self).iter.pos <= old(self).iter.vec.len(),
            old(self).iter.vec@[old(self).iter.pos - 1] == '<',
        ensures
            final(self).same_but_position(*old(self)),
            ({
                let s = old(self).iter.vec@;
                let p = old(self).iter.pos - 1;
                let sent = closing_sentinel(label_view(old(self).parse_state->ParsingRawStringLiteral_0));
                &&& r == has_at(s, p, sent)
                &&& r ==> final(self).iter.pos == p + sent.len()
                &&& !r ==> final(self).iter.pos == old(self).iter.pos
            }),
    {
        let ghost s = self.iter.vec@;
        let ghost p = self.iter.pos - 1;
        let ghost sent = closing_sentinel(label_view(self.parse_state->ParsingRawStringLiteral_0));
        let start_iter_pos = self.iter.pos;
        proof {
            lemma_sentinel_shape(label_view(self.parse_state->ParsingRawStringLiteral_0));
        }
        self.iter.step_back();
        if self.iter.starts_with(&['<', '/', 's', 't', 'r']) {
            self.iter.pos = self.iter.pos + 5;
            match self.iter.next() {
                Some('>') => {
                    if let LexerParseState::ParsingRawStringLiteral(None) = self.parse_state {
                        assert(has_at(s, p, sent));
                        return true;
                    }
                    assert(!has_at(s, p, sent));
                },
                Some('-') => {
                    let label = self.consume_raw_str_label();
                    proof {
                        lemma_find_char_bounds(s, p + 6, '>');
                    }
                    if let LexerParseState::ParsingRawStringLiteral(Some(start_label)) = &self.parse_state {
                        proof {
                            lemma_sentinel_match(s, p, start_label@);
                        }
                        if let Some(label) = label {
                            if crate::text::same_text(label.as_str(), start_label.as_str()) {
                                return true;
                            }
                        }
                    } else {
                        assert(!has_at(s, p, sent));
                    }
                },
                _ => {
                    assert(!has_at(s, p, sent));
                },
            }
        } else {
            assert(!has_at(s, p, sent)) by {
                if has_at(s, p, sent) {
                    assert forall|k: int| 0 <= k < 5 implies s[p + k] == seq!['<', '/', 's', 't', 'r'][k] by {
                        assert(s[p + k] == sent[k]);
                    }
                }
            }
        }
        self.iter.pos = start_iter_pos;
        false
    }

    /// Whether `c` belongs to a literal.
    fn is_valid_literal(c: char) -> (r: bool)
        ensures
            r == is_literal_char(c),
    {
        ('a' <= c && c <= 'z') || ('A' <= c && c <= 'Z') || ('0' <= c && c <= '9') || c == '.'
            || c == ',' || c == '_'
    }

    /// The position where each line of the source starts.
    pub fn get_lines_indexes(&self) -> (r: Vec<usize>)
        requires
            self.wf(),
        ensures
            r@ == line_starts(self.source()),
    {
        let mut r: Vec<usize> = Vec::new();
        let mut k: usize = 0;
        while k < self.lines_map.len()
            invariant
                k <= self.lines_map.len(),
                r@ == self.lines_map@.subrange(0, k as int),
            decreases self.lines_map.len() - k,
        {
            r.push(self.lines_map[k]);
            k = k + 1;
            assert(r@ =~= self.lines_map@.subrange(0, k as int));
        }
        assert(r@ =~= self.lines_map@);
        r
    }
}

/// A vector of the one token `token`, spanning `[start, end)`.
fn one_token(token: UVLexerTokens, start: usize, end: usize) -> (r: Vec<UVToken>)
    ensures
        tokens_view(r@) == seq![tok(token@, start as int, end as int)],
{
    let mut r: Vec<UVToken> = Vec::new();
    r.push(UVToken { token, start, end });
    assert(tokens_view(r@) =~= seq![tok(token@, start as int, end as int)]);
    r
}

/// The token for a character `c` at `i` that is no symbol, no literal and no white space.
fn unknown_token(Ghost(s): Ghost<Seq<char>>, c: char, i: usize) -> (r: Vec<UVToken>)
    requires
        i < s.len() <= usize::MAX,
        s[i as int] == c,
        c != '<',
        c != '>',
        c != '/',
        !is_literal_char(c),
        !is_whitespace_char(c),
    ensures
        tokens_view(r@) + lex_normal(s, i + 1) == lex_normal(s, i as int),
        tokens_view(r@) == seq![tok(LexemeView::Unknown(c), i as int, i + 1)],
{
    let mut r: Vec<UVToken> = Vec::new();
    r.push(UVToken { token: UVLexerTokens::Unknown(c), start: i, end: i + 1 });
    assert(tokens_view(r@) =~= seq![tok(LexemeView::Unknown(c), i as int, i + 1)]);
    proof {
        lemma_lex_normal_other(s, i as int, c);
    }
    r
}

/// A vector of the three tokens `a`, `b` and `c`.
fn three_tokens(a: UVToken, b: UVToken, c: UVToken) -> (r: Vec<UVToken>)
    ensures
        tokens_view(r@) == seq![a@, b@, c@],
{
    let mut r: Vec<UVToken> = Vec::new();
    r.push(a);
    r.push(b);
    r.push(c);
    assert(tokens_view(r@) =~= seq![a@, b@, c@]);
    r
}

/// A character that is no symbol, no literal and no white space stands alone.
proof fn lemma_lex_normal_other(s: Seq<char>, i: int, c: char)
    requires
        0 <= i < s.len(),
        s[i] == c,
        c != '<',
        c != '>',
        c != '/',
        !is_literal_char(c),
        !is_whitespace_char(c),
    ensures
        lex_normal(s, i) == seq![tok(LexemeView::Unknown(c), i, i + 1)] + lex_normal(s, i + 1),
{
}

/// The shape of a closing tag: `</str`, then `>` or `-`.
proof fn lemma_sentinel_shape(label: Option<Seq<char>>)
    ensures
        closing_sentinel(label).len() >= 6,
        closing_sentinel(label)[0] == '<',
        closing_sentinel(label)[1] == '/',
        closing_sentinel(label)[2] == 's',
        closing_sentinel(label)[3] == 't',
        closing_sentinel(label)[4] == 'r',
        closing_sentinel(label)[5] == (if label is None { '>' } else { '-' }),
        label is None ==> closing_sentinel(label).len() == 6,
        label matches Some(l) ==> closing_sentinel(label).len() == l.len() + 7,
{
    if let Some(l) = label {
        let a = seq!['<', '/', 's', 't', 'r', '-'];
        let t = a + l + seq!['>'];
        assert(t[0] == a[0] && t[1] == a[1] && t[2] == a[2] && t[3] == a[3] && t[4] == a[4] && t[5] == a[5]);
    }
}

/// With a label that holds no `>`, the closing tag `</str-LABEL>` stands at `p` exactly when
/// `</str-` does and the text up to the next `>` is the label.
proof fn lemma_sentinel_match(s: Seq<char>, p: int, lbl: Seq<char>)
    requires
        0 <= p,
        p + 6 <= s.len(),
        has_at(s, p, seq!['<', '/', 's', 't', 'r', '-']),
        forall|k: int| 0 <= k < lbl.len() ==> lbl[k] != '>',
    ensures
        has_at(s, p, closing_sentinel(Some(lbl))) <==> (find_char(s, p + 6, '>') < s.len()
            && s.subrange(p + 6, find_char(s, p + 6, '>')) == lbl),
{
    let sent = closing_sentinel(Some(lbl));
    let g = find_char(s, p + 6, '>');
    lemma_find_char_bounds(s, p + 6, '>');
    if has_at(s, p, sent) {
        assert(sent[6 + lbl.len() as int] == '>');
        assert(s[p + 6 + lbl.len() as int] == '>');
        assert forall|k: int| p + 6 <= k < p + 6 + lbl.len() implies s[k] != '>' by {
            assert(s[k] == sent[k - p]);
            assert(sent[k - p] == lbl[k - p - 6]);
        }
        if g < p + 6 + lbl.len() {
            assert(s[g] != '>');
        }
        assert(g == p + 6 + lbl.len());
        assert forall|k: int| 0 <= k < lbl.len() implies s.subrange(p + 6, g)[k] == lbl[k] by {
            assert(s[p + 6 + k] == sent[6 + k]);
        }
        assert(s.subrange(p + 6, g) =~= lbl);
    }
    if g < s.len() && s.subrange(p + 6, g) == lbl {
        assert forall|k: int| 0 <= k < sent.len() implies s[p + k] == sent[k] by {
            if k < 6 {
                assert(s[p + k] == seq!['<', '/', 's', 't', 'r', '-'][k]);
            } else if k < 6 + lbl.len() {
                assert(s.subrange(p + 6, g)[k - 6] == lbl[k - 6]);
            }
        }
    }
}

pub proof fn lemma_tokens_view_append(a: Seq<UVToken>, b: Seq<UVToken>)
    ensures
        tokens_view(a + b) == tokens_view(a) + tokens_view(b),
{
    assert(tokens_view(a + b) =~= tokens_view(a) + tokens_view(b));
}

/// The first position at or after `p` where `pat` stands in `s`; the length of `s` if none.
pub open spec fn find_pattern(s: Seq<char>, p: int, pat: Seq<char>) -> int
    decreases s.len() - p,
{
    if p < 0 || p >= s.len() {
        s.len() as int
    } else if has_at(s, p, pat) {
        p
    } else {
        find_pattern(s, p + 1, pat)
    }
}

/// Scanning a raw string skips straight to the next closing tag.
proof fn lemma_lex_raw_skips(s: Seq<char>, st: int, p: int, label: Option<Seq<char>>)
    requires
        0 <= p <= s.len(),
    ensures
        lex_raw(s, st, p, label) == lex_raw(s, st, find_pattern(s, p, closing_sentinel(label)), label),
    decreases s.len() - p,
{
    if p < s.len() && !has_at(s, p, closing_sentinel(label)) {
        lemma_lex_raw_skips(s, st, p + 1, label);
    }
}

/// Inside a raw string whose body starts at `st`, no character but its closing tag makes a
/// token: the body up to the first closing tag becomes one `RawString` token (none when it is
/// empty), followed by the closing tag's three tokens; without a closing tag, the rest of the
/// text becomes one `RawString` token.
pub proof fn lemma_raw_string_opaque(s: Seq<char>, st: int, label: Option<Seq<char>>)
    requires
        0 <= st <= s.len(),
    ensures
        ({
            let sent = closing_sentinel(label);
            let k = find_pattern(s, st, sent);
            let n = sent.len() as int;
            let body = if st < k {
                seq![tok(LexemeView::RawString(s.subrange(st, k)), st, k)]
            } else {
                seq![]
            };
            &&& k < s.len() ==> lex_raw(s, st, st, label) == body + seq![
                tok(LexemeView::OpeningAngleBracketSlash, k, k + 2),
                tok(LexemeView::Literal(str_tag()), k + 2, k + n - 1),
                tok(LexemeView::ClosingAngleBracket, k + n - 1, k + n),
            ] + lex_normal(s, k + n)
            &&& k >= s.len() ==> lex_raw(s, st, st, label) == body
        }),
{
    lemma_lex_raw_skips(s, st, st, label);
    lemma_find_pattern_bounds(s, st, closing_sentinel(label));
}

proof fn lemma_find_pattern_bounds(s: Seq<char>, p: int, pat: Seq<char>)
    requires
        0 <= p <= s.len(),
    ensures
        p <= find_pattern(s, p, pat) <= s.len(),
        find_pattern(s, p, pat) < s.len() ==> has_at(s, find_pattern(s, p, pat), pat),
    decreases s.len() - p,
{
    if p < s.len() && !has_at(s, p, pat) {
        lemma_find_pattern_bounds(s, p + 1, pat);
    }
}

/// Each token lies within `[lo, hi]`, starts no later than it ends, and ends no later than the
/// next one starts.
pub open spec fn tokens_ordered(ts: Seq<TokenView>, lo: int, hi: int) -> bool {
    &&& forall|k: int| 0 <= k < ts.len() ==> lo <= #[trigger] ts[k].start && ts[k].start <= ts[k].end && ts[k].end <= hi
    &&& forall|j: int, k: int| 0 <= j < k < ts.len() ==> #[trigger] ts[j].end <= #[trigger] ts[k].start
}

proof fn lemma_ordered_concat(a: Seq<TokenView>, b: Seq<TokenView>, lo: int, mid: int, hi: int)
    requires
        tokens_ordered(a, lo, mid),
        tokens_ordered(b, mid, hi),
        lo <= mid <= hi,
    ensures
        tokens_ordered(a + b, lo, hi),
{
    let c = a + b;
    assert forall|k: int| 0 <= k < c.len() implies lo <= #[trigger] c[k].start && c[k].start <= c[k].end && c[k].end <= hi by {
        if k < a.len() {
            assert(c[k] == a[k]);
            assert(lo <= a[k].start && a[k].start <= a[k].end && a[k].end <= mid);
        } else {
            let k2 = k - a.len();
            assert(c[k] == b[k2]);
            assert(mid <= b[k2].start && b[k2].start <= b[k2].end && b[k2].end <= hi);
        }
    }
    assert forall|j: int, k: int| 0 <= j < k < c.len() implies #[trigger] c[j].end <= #[trigger] c[k].start by {
        if k < a.len() {
            assert(c[j] == a[j] && c[k] == a[k]);
            assert(a[j].end <= a[k].start);
        } else if j >= a.len() {
            assert(c[j] == b[j - a.len()] && c[k] == b[k - a.len()]);
            assert(b[j - a.len()].end <= b[k - a.len()].start);
        } else {
            assert(c[j] == a[j] && c[k] == b[k - a.len()]);
            assert(lo <= a[j].start <= a[j].end <= mid);
            assert(mid <= b[k - a.len()].start <= b[k - a.len()].end <= hi);
        }
    }
}

proof fn lemma_ordered_one(t: TokenView, lo: int, hi: int)
    requires
        lo <= t.start <= t.end <= hi,
    ensures
        tokens_ordered(seq![t], lo, hi),
{
}

proof fn lemma_ordered_widen(ts: Seq<TokenView>, lo: int, lo2: int, hi: int)
    requires
        tokens_ordered(ts, lo2, hi),
        lo <= lo2,
    ensures
        tokens_ordered(ts, lo, hi),
{
}

/// The tokens of normal mode from `i` on lie, in order, within `[i, s.len()]`.
pub proof fn lemma_lex_normal_ordered(s: Seq<char>, i: int)
    requires
        0 <= i <= s.len(),
    ensures
        tokens_ordered(lex_normal(s, i), i, s.len() as int),
    decreases s.len() - i, 1int,
{
    if i < s.len() {
        let c = s[i];
        let n = s.len() as int;
        if c == '<' {
            if has_at(s, i, comment_open()) {
                lemma_lex_comment_ordered(s, i + 2);
                lemma_ordered_widen(lex_comment(s, i + 2), i, i + 2, n);
            } else if has_at(s, i, seq!['<', '/']) {
                lemma_lex_normal_ordered(s, i + 2);
                lemma_ordered_one(tok(LexemeView::OpeningAngleBracketSlash, i, i + 2), i, i + 2);
                lemma_ordered_concat(seq![tok(LexemeView::OpeningAngleBracketSlash, i, i + 2)], lex_normal(s, i + 2), i, i + 2, n);
            } else if has_at(s, i, raw_open()) {
                let head = seq![
                    tok(LexemeView::OpeningAngleBracket, i, i + 1),
                    tok(LexemeView::Literal(str_tag()), i + 1, i + 4),
                    tok(LexemeView::ClosingAngleBracket, i + 4, i + 5),
                ];
                lemma_lex_raw_ordered(s, i + 5, i + 5, None);
                lemma_ordered_concat(head, lex_raw(s, i + 5, i + 5, None), i, i + 5, n);
            } else if has_at(s, i, raw_label_open()) && find_char(s, i + 5, '>') < s.len() {
                let g = find_char(s, i + 5, '>');
                lemma_find_char_bounds(s, i + 5, '>');
                let head = seq![
                    tok(LexemeView::OpeningAngleBracket, i, i + 1),
                    tok(LexemeView::Literal(str_tag()), i + 1, g),
                    tok(LexemeView::ClosingAngleBracket, g, g + 1),
                ];
                lemma_lex_raw_ordered(s, g + 1, g + 1, Some(s.subrange(i + 5, g)));
                lemma_ordered_concat(head, lex_raw(s, g + 1, g + 1, Some(s.subrange(i + 5, g))), i, g + 1, n);
            } else {
                lemma_lex_normal_ordered(s, i + 1);
                lemma_ordered_concat(seq![tok(LexemeView::OpeningAngleBracket, i, i + 1)], lex_normal(s, i + 1), i, i + 1, n);
            }
        } else if c == '>' {
            lemma_lex_normal_ordered(s, i + 1);
            lemma_ordered_concat(seq![tok(LexemeView::ClosingAngleBracket, i, i + 1)], lex_normal(s, i + 1), i, i + 1, n);
        } else if c == '/' {
            if has_at(s, i, seq!['/', '>']) {
                lemma_lex_normal_ordered(s, i + 2);
                lemma_ordered_concat(seq![tok(LexemeView::SelfClosingAngleBracket, i, i + 2)], lex_normal(s, i + 2), i, i + 2, n);
            } else {
                lemma_lex_normal_ordered(s, i + 1);
                lemma_ordered_concat(seq![tok(LexemeView::Unknown('/'), i, i + 1)], lex_normal(s, i + 1), i, i + 1, n);
            }
        } else if is_literal_char(c) {
            let j = literal_run_end(s, i);
            lemma_literal_run_bounds(s, i);
            lemma_lex_normal_ordered(s, j);
            lemma_ordered_concat(seq![tok(LexemeView::Literal(s.subrange(i, j)), i, j)], lex_normal(s, j), i, j, n);
        } else if is_whitespace_char(c) {
            lemma_lex_normal_ordered(s, i + 1);
            lemma_ordered_widen(lex_normal(s, i + 1), i, i + 1, n);
        } else {
            lemma_lex_normal_ordered(s, i + 1);
            lemma_unknown_ordered(s, i, c);
        }
    }
}

proof fn lemma_unknown_ordered(s: Seq<char>, i: int, c: char)
    requires
        0 <= i < s.len(),
        s[i] == c,
        c != '<',
        c != '>',
        c != '/',
        !is_literal_char(c),
        !is_whitespace_char(c),
        tokens_ordered(lex_normal(s, i + 1), i + 1, s.len() as int),
    ensures
        tokens_ordered(lex_normal(s, i), i, s.len() as int),
{
    lemma_lex_normal_other(s, i, c);
    let t = tok(LexemeView::Unknown(c), i, i + 1);
    lemma_ordered_one(t, i, i + 1);
    lemma_ordered_concat(seq![t], lex_normal(s, i + 1), i, i + 1, s.len() as int);
}

proof fn lemma_lex_comment_ordered(s: Seq<char>, p: int)
    requires
        0 <= p <= s.len(),
    ensures
        tokens_ordered(lex_comment(s, p), p, s.len() as int),
    decreases s.len() - p, 0int,
{
    if p < s.len() {
        if has_at(s, p, comment_close()) {
            lemma_lex_normal_ordered(s, p + 3);
            lemma_ordered_widen(lex_normal(s, p + 3), p, p + 3, s.len() as int);
        } else {
            lemma_lex_comment_ordered(s, p + 1);
            lemma_ordered_widen(lex_comment(s, p + 1), p, p + 1, s.len() as int);
        }
    }
}

proof fn lemma_lex_raw_ordered(s: Seq<char>, st: int, p: int, label: Option<Seq<char>>)
    requires
        0 <= st <= p <= s.len(),
    ensures
        tokens_ordered(lex_raw(s, st, p, label), st, s.len() as int),
    decreases s.len() - p, 0int,
{
    let n = s.len() as int;
    if p >= s.len() {
    } else if has_at(s, p, closing_sentinel(label)) {
        let m = closing_sentinel(label).len() as int;
        lemma_sentinel_shape(label);
        let body = if st < p {
            seq![tok(LexemeView::RawString(s.subrange(st, p)), st, p)]
        } else {
            seq![]
        };
        let tail = seq![
            tok(LexemeView::OpeningAngleBracketSlash, p, p + 2),
            tok(LexemeView::Literal(str_tag()), p + 2, p + m - 1),
            tok(LexemeView::ClosingAngleBracket, p + m - 1, p + m),
        ];
        lemma_lex_normal_ordered(s, p + m);
        lemma_ordered_concat(body, tail, st, p, p + m);
        lemma_ordered_concat(body + tail, lex_normal(s, p + m), st, p + m, n);
    } else {
        lemma_lex_raw_ordered(s, st, p + 1, label);
    }
}

/// Wherever normal mode meets `<str>` or `<str-LABEL>`, the opening tag gives three tokens, the
/// whole body up to the first matching closing tag gives one `RawString` token (none when it is
/// empty), the closing tag gives three tokens, and lexing goes on in normal mode after it; with no
/// closing tag, the rest of the text is the body. Nothing inside the body makes a token.
pub proof fn lemma_raw_string_region(s: Seq<char>, i: int)
    requires
        0 <= i < s.len(),
        has_at(s, i, raw_open()) || (has_at(s, i, raw_label_open()) && find_char(s, i + 5, '>')
            < s.len()),
    ensures
        ({
            let labeled = !has_at(s, i, raw_open());
            let g = if labeled { find_char(s, i + 5, '>') } else { i + 4 };
            let label = if labeled { Some(s.subrange(i + 5, g)) } else { None };
            let st = g + 1;
            let sent = closing_sentinel(label);
            let k = find_pattern(s, st, sent);
            let n = sent.len() as int;
            let opener = seq![
                tok(LexemeView::OpeningAngleBracket, i, i + 1),
                tok(LexemeView::Literal(str_tag()), i + 1, g),
                tok(LexemeView::ClosingAngleBracket, g, g + 1),
            ];
            let body = if st < k {
                seq![tok(LexemeView::RawString(s.subrange(st, k)), st, k)]
            } else {
                seq![]
            };
            &&& k < s.len() ==> lex_normal(s, i) == opener + (body + seq![
                tok(LexemeView::OpeningAngleBracketSlash, k, k + 2),
                tok(LexemeView::Literal(str_tag()), k + 2, k + n - 1),
                tok(LexemeView::ClosingAngleBracket, k + n - 1, k + n),
            ] + lex_normal(s, k + n))
            &&& k >= s.len() ==> lex_normal(s, i) == opener + body
        }),
{
    assert(s[i] == raw_open()[0]);
    assert(!has_at(s, i, comment_open())) by {
        if has_at(s, i, comment_open()) {
            assert(s[i + 1] == comment_open()[1]);
            assert(s[i + 1] == raw_label_open()[1]);
        }
    }
    assert(!has_at(s, i, seq!['<', '/'])) by {
        if has_at(s, i, seq!['<', '/']) {
            assert(s[i + 1] == seq!['<', '/'][1]);
            assert(s[i + 1] == raw_label_open()[1]);
        }
    }
    if has_at(s, i, raw_open()) {
        lemma_raw_string_opaque(s, i + 5, None);
    } else {
        let g = find_char(s, i + 5, '>');
        lemma_find_char_bounds(s, i + 5, '>');
        lemma_raw_string_opaque(s, g + 1, Some(s.subrange(i + 5, g)));
    }
}

/// Whether position `p` lies in the span of one of the tokens `ts`.
pub open spec fn covered(ts: Seq<TokenView>, p: int) -> bool {
    exists|k: int| 0 <= k < ts.len() && #[trigger] ts[k].start <= p && p < ts[k].end
}

/// Whether position `p` lies in a comment: from a `<!--` at or before it, up to the comment's end.
pub open spec fn in_comment(s: Seq<char>, p: int) -> bool {
    exists|c: int| 0 <= c <= p && #[trigger] has_at(s, c, comment_open()) && p < comment_end(s, c + 2)
}

/// Whether every character of `s` in `[lo, s.len())` that is no white space lies in a token of
/// `ts` or in a comment.
pub open spec fn covers_text(s: Seq<char>, ts: Seq<TokenView>, lo: int) -> bool {
    forall|p: int|
        lo <= p < s.len() && !is_whitespace_char(#[trigger] s[p]) ==> covered(ts, p) || in_comment(s, p)
}

proof fn lemma_covered_append(a: Seq<TokenView>, b: Seq<TokenView>, p: int)
    ensures
        covered(a, p) ==> covered(a + b, p),
        covered(b, p) ==> covered(a + b, p),
{
    if covered(a, p) {
        let k = choose|k: int| 0 <= k < a.len() && #[trigger] a[k].start <= p && p < a[k].end;
        assert((a + b)[k] == a[k]);
    }
    if covered(b, p) {
        let k = choose|k: int| 0 <= k < b.len() && #[trigger] b[k].start <= p && p < b[k].end;
        assert((a + b)[a.len() + k] == b[k]);
    }
}

/// A step that covers `[i, next)` followed by tokens that cover what comes after.
proof fn lemma_covers_step(s: Seq<char>, head: Seq<TokenView>, rest: Seq<TokenView>, i: int, next: int)
    requires
        i <= next,
        forall|p: int| i <= p < next && !is_whitespace_char(#[trigger] s[p]) ==> covered(head, p),
        covers_text(s, rest, next),
    ensures
        covers_text(s, head + rest, i),
{
    assert forall|p: int| i <= p < s.len() && !is_whitespace_char(#[trigger] s[p]) implies covered(
        head + rest,
        p,
    ) || in_comment(s, p) by {
        lemma_covered_append(head, rest, p);
    }
}

proof fn lemma_lex_comment_skips(s: Seq<char>, p: int)
    requires
        0 <= p <= s.len(),
    ensures
        lex_comment(s, p) == if find_pattern(s, p, comment_close()) < s.len() {
            lex_normal(s, find_pattern(s, p, comment_close()) + 3)
        } else {
            seq![]
        },
    decreases s.len() - p,
{
    if p < s.len() && !has_at(s, p, comment_close()) {
        lemma_lex_comment_skips(s, p + 1);
    }
}

/// Every character from `i` on that is no white space lies in a token of normal mode or in a
/// comment.
pub proof fn lemma_lex_normal_covers(s: Seq<char>, i: int)
    requires
        0 <= i <= s.len(),
    ensures
        covers_text(s, lex_normal(s, i), i),
    decreases s.len() - i, 1int,
{
    if i < s.len() {
        let c = s[i];
        let n = s.len() as int;
        if c == '<' {
            if has_at(s, i, comment_open()) {
                lemma_lex_comment_skips(s, i + 2);
                lemma_find_pattern_bounds(s, i + 2, comment_close());
                let j = find_pattern(s, i + 2, comment_close());
                let e = comment_end(s, i + 2);
                if j < n {
                    lemma_lex_normal_covers(s, j + 3);
                }
                assert forall|p: int| i <= p < s.len() && !is_whitespace_char(#[trigger] s[p]) implies covered(
                    lex_normal(s, i),
                    p,
                ) || in_comment(s, p) by {
                    if p < e {
                        assert(has_at(s, i, comment_open()));
                    }
                }
            } else if has_at(s, i, seq!['<', '/']) {
                lemma_lex_normal_covers(s, i + 2);
                let h = seq![tok(LexemeView::OpeningAngleBracketSlash, i, i + 2)];
                assert(h[0].start <= i && i + 1 < h[0].end);
                lemma_covers_step(s, h, lex_normal(s, i + 2), i, i + 2);
            } else if has_at(s, i, raw_open()) {
                let h = seq![
                    tok(LexemeView::OpeningAngleBracket, i, i + 1),
                    tok(LexemeView::Literal(str_tag()), i + 1, i + 4),
                    tok(LexemeView::ClosingAngleBracket, i + 4, i + 5),
                ];
                lemma_lex_raw_covers(s, i + 5, i + 5, None);
                assert forall|p: int| i <= p < i + 5 && !is_whitespace_char(#[trigger] s[p]) implies covered(h, p) by {
                    if p == i {
                        assert(h[0].start <= p < h[0].end);
                    } else if p < i + 4 {
                        assert(h[1].start <= p < h[1].end);
                    } else {
                        assert(h[2].start <= p < h[2].end);
                    }
                }
                lemma_covers_step(s, h, lex_raw(s, i + 5, i + 5, None), i, i + 5);
            } else if has_at(s, i, raw_label_open()) && find_char(s, i + 5, '>') < s.len() {
                let g = find_char(s, i + 5, '>');
                lemma_find_char_bounds(s, i + 5, '>');
                let h = seq![
                    tok(LexemeView::OpeningAngleBracket, i, i + 1),
                    tok(LexemeView::Literal(str_tag()), i + 1, g),
                    tok(LexemeView::ClosingAngleBracket, g, g + 1),
                ];
                let l = Some(s.subrange(i + 5, g));
                lemma_lex_raw_covers(s, g + 1, g + 1, l);
                assert forall|p: int| i <= p < g + 1 && !is_whitespace_char(#[trigger] s[p]) implies covered(h, p) by {
                    if p == i {
                        assert(h[0].start <= p < h[0].end);
                    } else if p < g {
                        assert(h[1].start <= p < h[1].end);
                    } else {
                        assert(h[2].start <= p < h[2].end);
                    }
                }
                lemma_covers_step(s, h, lex_raw(s, g + 1, g + 1, l), i, g + 1);
            } else {
                lemma_lex_normal_covers(s, i + 1);
                let h = seq![tok(LexemeView::OpeningAngleBracket, i, i + 1)];
                assert(h[0].start <= i && i < h[0].end);
                lemma_covers_step(s, h, lex_normal(s, i + 1), i, i + 1);
            }
        } else if c == '>' {
            lemma_lex_normal_covers(s, i + 1);
            let h = seq![tok(LexemeView::ClosingAngleBracket, i, i + 1)];
            assert(h[0].start <= i && i < h[0].end);
            lemma_covers_step(s, h, lex_normal(s, i + 1), i, i + 1);
        } else if c == '/' {
            if has_at(s, i, seq!['/', '>']) {
                lemma_lex_normal_covers(s, i + 2);
                let h = seq![tok(LexemeView::SelfClosingAngleBracket, i, i + 2)];
                assert(h[0].start <= i && i + 1 < h[0].end);
                lemma_covers_step(s, h, lex_normal(s, i + 2), i, i + 2);
            } else {
                lemma_lex_normal_covers(s, i + 1);
                let h = seq![tok(LexemeView::Unknown('/'), i, i + 1)];
                assert(h[0].start <= i && i < h[0].end);
                lemma_covers_step(s, h, lex_normal(s, i + 1), i, i + 1);
            }
        } else if is_literal_char(c) {
            let j = literal_run_end(s, i);
            lemma_literal_run_bounds(s, i);
            lemma_lex_normal_covers(s, j);
            let h = seq![tok(LexemeView::Literal(s.subrange(i, j)), i, j)];
            assert forall|p: int| i <= p < j && !is_whitespace_char(#[trigger] s[p]) implies covered(h, p) by {
                assert(h[0].start <= p < h[0].end);
            }
            lemma_covers_step(s, h, lex_normal(s, j), i, j);
        } else if is_whitespace_char(c) {
            lemma_lex_normal_covers(s, i + 1);
            lemma_covers_step(s, seq![], lex_normal(s, i + 1), i, i + 1);
        } else {
            lemma_lex_normal_covers(s, i + 1);
            lemma_unknown_covers(s, i, c);
        }
    }
}

proof fn lemma_unknown_covers(s: Seq<char>, i: int, c: char)
    requires
        0 <= i < s.len(),
        s[i] == c,
        c != '<',
        c != '>',
        c != '/',
        !is_literal_char(c),
        !is_whitespace_char(c),
        covers_text(s, lex_normal(s, i + 1), i + 1),
    ensures
        covers_text(s, lex_normal(s, i), i),
{
    lemma_lex_normal_other(s, i, c);
    let h = seq![tok(LexemeView::Unknown(c), i, i + 1)];
    assert(h[0].start <= i && i < h[0].end);
    lemma_covers_step(s, h, lex_normal(s, i + 1), i, i + 1);
}

/// Inside a raw string whose body starts at `st`, scanning from `q`, every character from `st`
/// on that is no white space lies in a token or in a comment.
proof fn lemma_lex_raw_covers(s: Seq<char>, st: int, q: int, label: Option<Seq<char>>)
    requires
        0 <= st <= q <= s.len(),
    ensures
        covers_text(s, lex_raw(s, st, q, label), st),
    decreases s.len() - q, 0int,
{
    let n = s.len() as int;
    if q >= n {
        let ts = lex_raw(s, st, q, label);
        assert forall|p: int| st <= p < n && !is_whitespace_char(#[trigger] s[p]) implies covered(ts, p) || in_comment(s, p) by {
            assert(ts[0].start <= p < ts[0].end);
        }
    } else if has_at(s, q, closing_sentinel(label)) {
        let m = closing_sentinel(label).len() as int;
        lemma_sentinel_shape(label);
        let body = if st < q {
            seq![tok(LexemeView::RawString(s.subrange(st, q)), st, q)]
        } else {
            seq![]
        };
        let tail = seq![
            tok(LexemeView::OpeningAngleBracketSlash, q, q + 2),
            tok(LexemeView::Literal(str_tag()), q + 2, q + m - 1),
            tok(LexemeView::ClosingAngleBracket, q + m - 1, q + m),
        ];
        let h = body + tail;
        lemma_lex_normal_covers(s, q + m);
        assert forall|p: int| st <= p < q + m && !is_whitespace_char(#[trigger] s[p]) implies covered(h, p) by {
            lemma_covered_append(body, tail, p);
            if p < q {
                assert(body[0].start <= p < body[0].end);
            } else if p < q + 2 {
                assert(tail[0].start <= p < tail[0].end);
            } else if p < q + m - 1 {
                assert(tail[1].start <= p < tail[1].end);
            } else {
                assert(tail[2].start <= p < tail[2].end);
            }
        }
        lemma_covers_step(s, h, lex_normal(s, q + m), st, q + m);
    } else {
        lemma_lex_raw_covers(s, st, q + 1, label);
    }
}

/// Lexing accounts for the whole text: its tokens lie in order within the text, and every
/// character that is no white space lies in a token or in a comment.
pub proof fn lemma_lexing_total(s: Seq<char>)
    ensures
        tokens_ordered(lex(s), 0, s.len() as int),
        covers_text(s, lex(s), 0),
{
    lemma_lex_normal_ordered(s, 0);
    lemma_lex_normal_covers(s, 0);
}

} // verus!
