//! The **recursion budget** a parse descends against: the live depth of recursive descent and the
//! limit it may not exceed.
use vstd::prelude::*;

verus! {

/// A live descent depth and the limit it may not exceed.
#[derive(Debug, Clone, Copy, PartialEq, Eq, Hash)]
pub struct RecursionLimiter {
    depth: usize,
    limitation: usize,
}

/// The refusal a depth check reports: the depth that was reached and the limit it exceeded.
#[derive(Debug, Clone, Copy, PartialEq, Eq, Hash)]
pub struct RecursionLimitExceeded {
    pub depth: usize,
    pub limitation: usize,
}

impl RecursionLimiter {
    /// The parse default: a depth a native stack holds for unsegmented recursive frames.
    pub const PARSE_DEFAULT_DEPTH: usize = 16;

    /// The general-purpose default limitation, a different number for a different subject.
    pub const GENERAL_DEFAULT_DEPTH: usize = 128;

    /// The live depth.
    pub closed spec fn spec_depth(self) -> usize {
        self.depth
    }

    /// The limit.
    pub closed spec fn spec_limitation(self) -> usize {
        self.limitation
    }

    /// The general-purpose limiter, at depth zero.
    pub fn new() -> (r: Self)
        ensures
            r.spec_depth() == 0,
            r.spec_limitation() == 128,
    {
        RecursionLimiter { depth: 0, limitation: 128 }
    }

    /// A limiter that refuses nothing short of `usize::MAX` levels.
    pub fn unlimited() -> (r: Self)
        ensures
            r.spec_depth() == 0,
            r.spec_limitation() == usize::MAX,
    {
        RecursionLimiter { depth: 0, limitation: usize::MAX }
    }

    /// A limiter of `limitation` levels, at depth zero.
    pub fn with_limitation(limitation: usize) -> (r: Self)
        ensures
            r.spec_depth() == 0,
            r.spec_limitation() == limitation,
    {
        RecursionLimiter { depth: 0, limitation }
    }

    /// The parse default: protection on, at [`PARSE_DEFAULT_DEPTH`](Self::PARSE_DEFAULT_DEPTH).
    pub fn parse_default() -> (r: Self)
        ensures
            r.spec_depth() == 0,
            r.spec_limitation() == 16,
    {
        RecursionLimiter { depth: 0, limitation: 16 }
    }

    /// The live depth.
    pub fn depth(&self) -> (r: usize)
        ensures
            r == self.spec_depth(),
    {
        self.depth
    }

    /// The limit.
    pub fn limitation(&self) -> (r: usize)
        ensures
            r == self.spec_limitation(),
    {
        self.limitation
    }

    /// Raises the depth by one level (saturating).
    /// The budget one level deeper (saturating).
    pub closed spec fn raised(self) -> Self {
        RecursionLimiter {
            depth: if self.depth == usize::MAX { usize::MAX } else { (self.depth + 1) as usize },
            ..self
        }
    }

    /// The budget one level shallower (saturating at zero).
    pub closed spec fn lowered(self) -> Self {
        RecursionLimiter { depth: if self.depth == 0 { 0 } else { (self.depth - 1) as usize }, ..self }
    }

    /// What raising and lowering a level do to the depth and the limit.
    pub proof fn lemma_levels(self)
        ensures
            self.raised().spec_limitation() == self.spec_limitation(),
            self.lowered().spec_limitation() == self.spec_limitation(),
            self.raised().spec_depth() == (if self.spec_depth() == usize::MAX {
                usize::MAX as int
            } else {
                self.spec_depth() + 1
            }),
            self.lowered().spec_depth() == (if self.spec_depth() == 0 {
                0
            } else {
                self.spec_depth() - 1
            }),
    {
    }

    /// Raising a level and then lowering it again gives back the budget, below the ceiling.
    pub proof fn law_raise_then_lower(self)
        requires
            self.spec_depth() < usize::MAX,
        ensures
            self.raised().lowered() == self,
    {
    }

    pub fn increase(&mut self)
        ensures
            *final(self) == old(self).raised(),
            final(self).spec_limitation() == old(self).spec_limitation(),
            final(self).spec_depth() == (if old(self).spec_depth() == usize::MAX {
                usize::MAX as int
            } else {
                old(self).spec_depth() + 1
            }),
    {
        if self.depth < usize::MAX {
            self.depth = self.depth + 1;
        }
    }

    /// Lowers the depth by one level (saturating at zero).
    pub fn decrease(&mut self)
        ensures
            *final(self) == old(self).lowered(),
            final(self).spec_limitation() == old(self).spec_limitation(),
            final(self).spec_depth() == (if old(self).spec_depth() == 0 {
                0
            } else {
                old(self).spec_depth() - 1
            }),
    {
        if self.depth > 0 {
            self.depth = self.depth - 1;
        }
    }

    /// Refuses a depth past the limit.
    pub fn check(&self) -> (r: Result<(), RecursionLimitExceeded>)
        ensures
            r is Ok <==> self.spec_depth() <= self.spec_limitation(),
            r matches Err(e) ==> e.depth == self.spec_depth() && e.limitation
                == self.spec_limitation(),
    {
        if self.depth > self.limitation {
            Err(RecursionLimitExceeded { depth: self.depth, limitation: self.limitation })
        } else {
            Ok(())
        }
    }
}

/// A descent refused by the recursion budget: where it was refused, the depth it reached and the
/// limit that refused it. Terminal for every value.
#[derive(Debug, Clone, Copy, PartialEq, Eq, Hash)]
pub struct RecursionLimitReached {
    offset: usize,
    depth: usize,
    limitation: usize,
}

impl RecursionLimitReached {
    /// The committed offset at which the descent was refused.
    pub closed spec fn spec_offset(self) -> usize {
        self.offset
    }

    /// The depth the refused descent reached.
    pub closed spec fn spec_depth(self) -> usize {
        self.depth
    }

    /// The limit that refused it.
    pub closed spec fn spec_limitation(self) -> usize {
        self.limitation
    }

    /// Builds the refusal at `offset` from the limiter's report.
    /// The report [`of`](Self::of) builds.
    pub closed spec fn spec_of(offset: usize, exceeded: RecursionLimitExceeded) -> Self {
        RecursionLimitReached { offset, depth: exceeded.depth, limitation: exceeded.limitation }
    }

    pub fn of(offset: usize, exceeded: RecursionLimitExceeded) -> (r: Self)
        ensures
            r == Self::spec_of(offset, exceeded),
            r.spec_offset() == offset,
            r.spec_depth() == exceeded.depth,
            r.spec_limitation() == exceeded.limitation,
    {
        RecursionLimitReached { offset, depth: exceeded.depth, limitation: exceeded.limitation }
    }

    /// The committed offset at which the descent was refused.
    pub fn offset(&self) -> (r: usize)
        ensures
            r == self.spec_offset(),
    {
        self.offset
    }

    /// The depth the refused descent reached.
    pub fn depth(&self) -> (r: usize)
        ensures
            r == self.spec_depth(),
    {
        self.depth
    }

    /// The limit that refused it.
    pub fn limitation(&self) -> (r: usize)
        ensures
            r == self.spec_limitation(),
    {
        self.limitation
    }
}

} // verus!
