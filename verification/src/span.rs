//! Byte spans and spanned values.
use vstd::prelude::*;

verus! {

/// A half-open byte range `[start, end)` of the source.
#[derive(Debug, Clone, Copy, PartialEq, Eq, Hash, Structural)]
pub struct SimpleSpan {
    pub start: usize,
    pub end: usize,
}

impl SimpleSpan {
    /// The span `[start, end)`.
    pub fn new(start: usize, end: usize) -> (r: Self)
        ensures
            r.start == start,
            r.end == end,
    {
        SimpleSpan { start, end }
    }

    /// Where the span starts.
    pub fn start(&self) -> (r: usize)
        ensures
            r == self.start,
    {
        self.start
    }

    /// Where the span ends.
    pub fn end(&self) -> (r: usize)
        ensures
            r == self.end,
    {
        self.end
    }
}

/// A value and the span it was read from.
#[derive(Debug, Clone, Copy, PartialEq, Eq, Hash)]
pub struct Spanned<T> {
    pub span: SimpleSpan,
    pub data: T,
}

impl<T> Spanned<T> {
    /// Pairs `data` with `span`.
    pub fn new(span: SimpleSpan, data: T) -> (r: Self)
        ensures
            r.span == span,
            r.data == data,
    {
        Spanned { span, data }
    }

    /// The span, by reference.
    pub fn span_ref(&self) -> (r: &SimpleSpan)
        ensures
            *r == self.span,
    {
        &self.span
    }

    /// The value, by reference.
    pub fn data(&self) -> (r: &T)
        ensures
            *r == self.data,
    {
        &self.data
    }

    /// The span and the value, apart.
    pub fn into_components(self) -> (r: (SimpleSpan, T))
        ensures
            r.0 == self.span,
            r.1 == self.data,
    {
        (self.span, self.data)
    }
}

} // verus!
