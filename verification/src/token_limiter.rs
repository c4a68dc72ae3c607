//! The by-value token limiter a lexer state carries: how many tokens this lineage has lexed, and
//! the count past which lexing trips. A checkpoint carries it, so a rollback refunds it.
use vstd::prelude::*;

verus! {

/// The lexer state: a running token count and its limitation.
#[derive(Debug, Clone, Copy, PartialEq, Eq, Hash)]
pub struct TokenLimiter {
    pub tokens: usize,
    pub limitation: usize,
}

/// A lexer-side limit trip: the count passed the limitation.
#[derive(Debug, Clone, Copy, PartialEq, Eq, Hash)]
pub struct TokenLimitExceeded {
    pub tokens: usize,
    pub limitation: usize,
}

/// The count after one more token (saturating).
pub open spec fn increased_count(tokens: usize) -> usize {
    if tokens == usize::MAX {
        usize::MAX
    } else {
        (tokens + 1) as usize
    }
}

impl TokenLimiter {
    /// A limiter of `limitation` tokens with nothing counted yet.
    pub fn with_limitation(limitation: usize) -> (r: Self)
        ensures
            r.tokens == 0,
            r.limitation == limitation,
    {
        TokenLimiter { tokens: 0, limitation }
    }

    /// A limiter that never trips short of `usize::MAX` tokens.
    pub fn unlimited() -> (r: Self)
        ensures
            r.tokens == 0,
            r.limitation == usize::MAX,
    {
        TokenLimiter { tokens: 0, limitation: usize::MAX }
    }

    /// Tokens counted so far.
    pub fn tokens(&self) -> (r: usize)
        ensures
            r == self.tokens,
    {
        self.tokens
    }

    /// The limitation.
    pub fn limitation(&self) -> (r: usize)
        ensures
            r == self.limitation,
    {
        self.limitation
    }

    /// Counts one more token (saturating).
    pub fn increase(&mut self)
        ensures
            final(self).tokens == increased_count(old(self).tokens),
            final(self).limitation == old(self).limitation,
    {
        if self.tokens < usize::MAX {
            self.tokens = self.tokens + 1;
        }
    }

    /// Trips once the count has passed the limitation.
    pub fn check(&self) -> (r: Result<(), TokenLimitExceeded>)
        ensures
            r is Ok <==> self.tokens <= self.limitation,
            r matches Err(e) ==> e.tokens == self.tokens && e.limitation == self.limitation,
    {
        if self.tokens > self.limitation {
            Err(TokenLimitExceeded { tokens: self.tokens, limitation: self.limitation })
        } else {
            Ok(())
        }
    }
}

} // verus!
