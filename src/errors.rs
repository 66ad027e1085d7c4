use vstd::prelude::*;

use crate::span::Span;

verus! {

/// Something that stands at a place in the source.
pub trait Positional {
    /// The span the value stands for.
    spec fn span_of(&self) -> Span;

    /// Returns the span the value stands for.
    fn get_span(&self) -> (r: Span)
        ensures
            r == self.span_of(),
    ;
}

/// A diagnostic: a message about the characters of a span.
#[derive(Debug)]
pub struct SpannedError {
    pub message: String,
    pub span: Span,
}

/// The mathematical value of a diagnostic.
pub struct ErrorView {
    pub message: Seq<char>,
    pub start: int,
    pub end: int,
}

impl View for SpannedError {
    type V = ErrorView;

    open spec fn view(&self) -> ErrorView {
        ErrorView {
            message: self.message@,
            start: self.span.start as int,
            end: self.span.end as int,
        }
    }
}

pub open spec fn error_view(message: Seq<char>, start: int, end: int) -> ErrorView {
    ErrorView { message, start, end }
}

impl SpannedError {
    /// A diagnostic with `message` about `span`.
    pub fn new(message: String, span: Span) -> (r: Self)
        ensures
            r.message == message,
            r.span == span,
    {
        SpannedError { message, span }
    }
}

impl Positional for SpannedError {
    open spec fn span_of(&self) -> Span {
        self.span
    }

    fn get_span(&self) -> (r: Span) {
        self.span
    }
}

/// Builds the string `a`, then `b`, then `c`.
pub fn concat3(a: &str, b: &str, c: &str) -> (r: String)
    ensures
        r@ == a@ + b@ + c@,
{
    let mut r = a.to_owned();
    r.append(b);
    r.append(c);
    r
}

} // verus!
