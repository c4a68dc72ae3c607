//! The input layer's own error values.
use vstd::prelude::*;
use crate::lexer::TokenKind;
use crate::span::SimpleSpan;

verus! {

/// The token stream ended where a token was required. A `terminal` one was raised by a stop (a
/// limit trip, a refusal, the poison boundary) rather than by a genuine end of input.
#[derive(Debug, Clone, Copy, PartialEq, Eq, Hash)]
pub struct UnexpectedEot {
    pub offset: usize,
    pub terminal: bool,
}

impl UnexpectedEot {
    /// A genuine end of input at `offset`.
    pub fn eot_of(offset: usize) -> (r: Self)
        ensures
            r == (UnexpectedEot { offset, terminal: false }),
    {
        UnexpectedEot { offset, terminal: false }
    }

    /// The same end, marked as raised by a terminal stop.
    pub fn into_terminal(self) -> (r: Self)
        ensures
            r == (UnexpectedEot { terminal: true, ..self }),
    {
        UnexpectedEot { terminal: true, ..self }
    }

    /// Where the stream ended.
    pub fn offset(&self) -> (r: usize)
        ensures
            r == self.offset,
    {
        self.offset
    }

    /// Whether a terminal stop raised it.
    pub fn is_terminal(&self) -> (r: bool)
        ensures
            r == self.terminal,
    {
        self.terminal
    }
}

/// A token a recovery scan skipped over: where it was and what it was.
#[derive(Debug, Clone, Copy, PartialEq, Eq, Hash)]
pub struct UnexpectedToken {
    pub span: SimpleSpan,
    pub found: TokenKind,
}

impl UnexpectedToken {
    /// The report for `found` at `span`.
    pub fn of(span: SimpleSpan, found: TokenKind) -> (r: Self)
        ensures
            r == (UnexpectedToken { span, found }),
    {
        UnexpectedToken { span, found }
    }
}

/// A prefix operator with no operand after it.
#[derive(Debug, Clone, Copy, PartialEq, Eq, Hash)]
pub struct UnexpectedEoLhs {
    pub offset: usize,
}

/// An infix operator with no right operand after it, or an operand where an operator belongs.
#[derive(Debug, Clone, Copy, PartialEq, Eq, Hash)]
pub struct UnexpectedEoRhs {
    pub offset: usize,
}

/// Two non-associative operators of the same power in a row.
#[derive(Debug, Clone, Copy, PartialEq, Eq, Hash)]
pub struct NonAssociativeChain {
    pub offset: usize,
}

} // verus!
