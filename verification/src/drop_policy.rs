//! What a transaction guard does when it is settled undecided: roll back, or keep its progress.
use vstd::prelude::*;

verus! {

/// The sealed half of [`DropPolicy`]: only this crate's two policies implement it.
pub trait Sealed {
    /// Whether an undecided settle rolls back.
    spec fn spec_rollback_on_drop() -> bool;

    /// Whether an undecided settle rolls back.
    fn rollback_on_drop() -> (r: bool)
        ensures
            r == Self::spec_rollback_on_drop(),
    ;
}

/// The policy a transaction settles by when nobody decided: [`Rollback`] or [`Commit`].
pub trait DropPolicy: Sealed {
}

/// Settle an undecided transaction by rolling back to its base.
#[derive(Debug)]
pub struct Rollback;

/// Settle an undecided transaction by keeping its progress.
#[derive(Debug)]
pub struct Commit;

impl Sealed for Rollback {
    open spec fn spec_rollback_on_drop() -> bool {
        true
    }

    fn rollback_on_drop() -> (r: bool) {
        true
    }
}

impl DropPolicy for Rollback {
}

impl Sealed for Commit {
    open spec fn spec_rollback_on_drop() -> bool {
        false
    }

    fn rollback_on_drop() -> (r: bool) {
        false
    }
}

impl DropPolicy for Commit {
}

} // verus!
