use vstd::prelude::*;

verus! {

/// A half-open range `[start, end)` of character positions in a source text.
#[derive(Debug, Clone, Copy, PartialEq, Eq, Structural)]
pub struct Span {
    pub start: usize,
    pub end: usize,
}

impl Span {
    /// Creates a span from its two bounds.
    pub fn new(s: usize, e: usize) -> (r: Span)
        ensures
            r.start == s,
            r.end == e,
    {
        Span { start: s, end: e }
    }

    /// Whether `other` lies within this span.
    pub open spec fn contains(self, other: Span) -> bool {
        self.start <= other.start && other.end <= self.end
    }
}

impl Default for Span {
    /// The empty span at the start of the source.
    fn default() -> (r: Span)
        ensures
            r.start == 0,
            r.end == 0,
    {
        Span { start: 0, end: 0 }
    }
}

} // verus!

verus! {

/// The positions one past each newline of `s`, from position `i` on.
pub open spec fn newline_ends(s: Seq<char>, i: int) -> Seq<usize>
    decreases s.len() - i,
{
    if i < 0 || i >= s.len() {
        seq![]
    } else if s[i] == '\n' {
        seq![(i + 1) as usize] + newline_ends(s, i + 1)
    } else {
        newline_ends(s, i + 1)
    }
}

/// The position where each line of `s` starts: 0, then one past each newline.
pub open spec fn line_starts(s: Seq<char>) -> Seq<usize> {
    seq![0usize] + newline_ends(s, 0)
}

/// The start position of each line of `chars`.
pub fn line_starts_of(chars: &Vec<char>) -> (r: Vec<usize>)
    ensures
        r@ == line_starts(chars@),
{
    let mut v: Vec<usize> = Vec::new();
    v.push(0);
    let mut i: usize = 0;
    while i < chars.len()
        invariant
            i <= chars.len(),
            v@ + newline_ends(chars@, i as int) == line_starts(chars@),
        decreases chars.len() - i,
    {
        let ghost before = v@;
        if chars[i] == '\n' {
            v.push(i + 1);
            assert(before + newline_ends(chars@, i as int) =~= v@ + newline_ends(chars@, i + 1));
        }
        i = i + 1;
    }
    assert(v@ + newline_ends(chars@, i as int) =~= v@);
    v
}

} // verus!

verus! {

/// A value with the span it was read from.
#[derive(Debug, Clone, PartialEq)]
pub struct Spanned<T> {
    pub value: T,
    pub span: Span,
}

impl<T> Spanned<T> {
    /// Pairs `value` with `span`.
    pub fn new(value: T, span: Span) -> (r: Self)
        ensures
            r.value == value,
            r.span == span,
    {
        Spanned { value, span }
    }
}

} // verus!

verus! {

/// Line starts lie after position `i`, within the text, in increasing order.
pub proof fn lemma_newline_ends_sorted(s: Seq<char>, i: int)
    requires
        0 <= i,
        s.len() <= usize::MAX,
    ensures
        forall|k: int| 0 <= k < newline_ends(s, i).len() ==> i < #[trigger] newline_ends(s, i)[k] <= s.len(),
        forall|j: int, k: int| 0 <= j < k < newline_ends(s, i).len() ==> newline_ends(s, i)[j] < newline_ends(s, i)[k],
    decreases s.len() - i,
{
    if i < s.len() {
        lemma_newline_ends_sorted(s, i + 1);
        let rest = newline_ends(s, i + 1);
        if s[i] == '\n' {
            let all = newline_ends(s, i);
            assert(all == seq![(i + 1) as usize] + rest);
            assert forall|k: int| 0 <= k < all.len() implies i < #[trigger] all[k] <= s.len() by {
                if k > 0 {
                    assert(all[k] == rest[k - 1]);
                }
            }
            assert forall|j: int, k: int| 0 <= j < k < all.len() implies all[j] < all[k] by {
                assert(all[k] == rest[k - 1]);
                if j > 0 {
                    assert(all[j] == rest[j - 1]);
                }
            }
        }
    }
}

pub proof fn lemma_line_starts_sorted(s: Seq<char>)
    requires
        s.len() <= usize::MAX,
    ensures
        line_starts(s).len() >= 1,
        line_starts(s)[0] == 0,
        forall|k: int| 0 <= k < line_starts(s).len() ==> #[trigger] line_starts(s)[k] <= s.len(),
        forall|j: int, k: int| 0 <= j < k < line_starts(s).len() ==> line_starts(s)[j] < line_starts(s)[k],
{
    lemma_newline_ends_sorted(s, 0);
    let t = newline_ends(s, 0);
    assert forall|k: int| 0 <= k < line_starts(s).len() implies #[trigger] line_starts(s)[k] <= s.len() by {
        if k > 0 {
            assert(line_starts(s)[k] == t[k - 1]);
        }
    }
    assert forall|j: int, k: int| 0 <= j < k < line_starts(s).len() implies line_starts(s)[j] < line_starts(s)[k] by {
        assert(line_starts(s)[k] == t[k - 1]);
        if j > 0 {
            assert(line_starts(s)[j] == t[j - 1]);
        }
    }
}

/// The last line that starts at or before `target`, among the line starts `starts`.
pub open spec fn line_at(starts: Seq<usize>, target: int) -> Option<int>
    decreases starts.len(),
{
    if starts.len() == 0 {
        None
    } else if starts.last() <= target {
        Some(starts.len() - 1)
    } else {
        line_at(starts.drop_last(), target)
    }
}

/// The text of line `line`, without its newline.
pub open spec fn line_text(s: Seq<char>, starts: Seq<usize>, line: int) -> Seq<char> {
    let a = starts[line] as int;
    let b = if line + 1 < starts.len() {
        starts[line + 1] as int
    } else {
        s.len() as int
    };
    let t = s.subrange(a, b);
    if t.len() > 0 && t.last() == '\n' {
        t.drop_last()
    } else {
        t
    }
}

/// A source text with its name, and the start of each of its lines.
pub struct SourceFile {
    pub path: String,
    pub code: String,
    /// The position where each line starts.
    pub line_starts: Vec<usize>,
    /// The characters of `code`, by position.
    pub chars: Vec<char>,
}

impl SourceFile {
    /// The characters of the source.
    pub open spec fn text(&self) -> Seq<char> {
        self.chars@
    }

    pub open spec fn wf(&self) -> bool {
        &&& self.chars@ == self.code@
        &&& self.line_starts@ == line_starts(self.chars@)
    }

    /// A source named `path` holding `code`.
    pub fn new(path: String, code: String) -> (r: SourceFile)
        ensures
            r.wf(),
            r.text() == code@,
            r.code@ == code@,
            r.path@ == path@,
            r.line_starts@ == line_starts(code@),
    {
        let chars = crate::text::chars_of(code.as_str());
        let line_starts = line_starts_of(&chars);
        SourceFile { path, code, line_starts, chars }
    }

    /// The line that holds position `target`.
    fn get_line(&self, target: usize) -> (r: Option<usize>)
        ensures
            line_at(self.line_starts@, target as int) is None ==> r is None,
            line_at(self.line_starts@, target as int) is Some ==> r is Some && r->Some_0 as int
                == line_at(self.line_starts@, target as int)->Some_0,
    {
        let mut k = self.line_starts.len();
        assert(self.line_starts@.subrange(0, k as int) =~= self.line_starts@);
        while k > 0
            invariant
                k <= self.line_starts.len(),
                line_at(self.line_starts@, target as int) == line_at(self.line_starts@.subrange(0, k as int), target as int),
            decreases k,
        {
            let ghost pre = self.line_starts@.subrange(0, k as int);
            assert(pre.drop_last() =~= self.line_starts@.subrange(0, k - 1));
            if self.line_starts[k - 1] <= target {
                return Some(k - 1);
            }
            k = k - 1;
        }
        None
    }

    /// The line and column, counted from zero, of the start of `span`.
    pub fn get_line_col(&self, span: Span) -> (r: (usize, usize))
        requires
            self.wf(),
        ensures
            ({
                let line = match line_at(self.line_starts@, span.start as int) {
                    Some(k) => k,
                    None => 0,
                };
                r.0 == line && r.1 == span.start - self.line_starts@[line]
            }),
    {
        proof {
            assert(self.chars@.len() == self.chars.len());
            lemma_line_starts_sorted(self.chars@);
            lemma_line_at_bounds(self.line_starts@, span.start as int);
        }
        let line = match self.get_line(span.start) {
            Some(l) => l,
            None => 0,
        };
        let column = span.start - self.line_starts[line];
        (line, column)
    }

    /// The text of line `line`, without its newline; `None` past the last line.
    pub fn get_line_content(&self, line: usize) -> (r: Option<String>)
        requires
            self.wf(),
        ensures
            line >= self.line_starts@.len() ==> r is None,
            line < self.line_starts@.len() ==> r is Some && r->Some_0@ == line_text(
                self.text(),
                self.line_starts@,
                line as int,
            ),
    {
        proof {
            assert(self.chars@.len() == self.chars.len());
            lemma_line_starts_sorted(self.chars@);
        }
        if line >= self.line_starts.len() {
            return None;
        }
        let a = self.line_starts[line];
        let b = if line + 1 < self.line_starts.len() {
            self.line_starts[line + 1]
        } else {
            self.chars.len()
        };
        let mut e = b;
        if a < b && self.chars[b - 1] == '\n' {
            e = b - 1;
        }
        let r = crate::text::string_of_range(&self.chars, a, e);
        assert(r@ =~= line_text(self.text(), self.line_starts@, line as int));
        Some(r)
    }
}

proof fn lemma_line_at_bounds(starts: Seq<usize>, target: int)
    ensures
        line_at(starts, target) matches Some(k) ==> 0 <= k < starts.len() && starts[k] <= target,
    decreases starts.len(),
{
    if starts.len() > 0 && !(starts.last() <= target) {
        lemma_line_at_bounds(starts.drop_last(), target);
    }
}

} // verus!
