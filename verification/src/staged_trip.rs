//! The carrier of a terminal scanner stop: the poison-boundary write, decided by a clamp and not
//! yet performed. [`StagedTrip::stage`] is the only constructor and performs the comparison;
//! [`StagedTrip::install`] is the only consumer and performs none, so a published stop was always
//! clamped first.
use vstd::prelude::*;

verus! {

/// The poison boundary after a trip at `boundary`: a trip only maintains or increases poison, so
/// the frontier recorded is the smaller of the two.
pub open spec fn clamped(existing: Option<usize>, boundary: usize) -> Option<usize> {
    match existing {
        Some(b) => if b <= boundary { Some(b) } else { Some(boundary) },
        None => Some(boundary),
    }
}

/// A terminal scanner stop whose comparison is already taken.
pub struct StagedTrip {
    /// `None`: an already-latched boundary is at least as poisoned, so nothing is written.
    /// `Some(b)`: this stop establishes the frontier, or lowers it, at `b`.
    lower: Option<usize>,
}

impl StagedTrip {
    /// The boundary the publication installs, if it installs one.
    pub closed spec fn spec_lower(self) -> Option<usize> {
        self.lower
    }

    /// Decides what the boundary write will be, and writes nothing: the more-poisoned (smaller)
    /// of `existing` and `boundary`.
    pub fn stage(existing: Option<usize>, boundary: usize) -> (r: Self)
        ensures
            r.spec_lower() == (match existing {
                Some(b) => if b <= boundary { None } else { Some(boundary) },
                None => Some(boundary),
            }),
    {
        match existing {
            Some(b) => {
                if b <= boundary {
                    StagedTrip { lower: None }
                } else {
                    StagedTrip { lower: Some(boundary) }
                }
            },
            None => StagedTrip { lower: Some(boundary) },
        }
    }

    /// Installs the staged frontier into `latch` and hands back the boundary it displaced.
    pub fn install(self, latch: &mut Option<usize>) -> (displaced: Option<usize>)
        ensures
            *final(latch) == (match self.spec_lower() {
                Some(b) => Some(b),
                None => *old(latch),
            }),
            displaced == (match self.spec_lower() {
                Some(b) => *old(latch),
                None => None,
            }),
    {
        match self.lower {
            None => None,
            Some(b) => {
                let displaced = *latch;
                *latch = Some(b);
                displaced
            },
        }
    }
}

/// Staging against the latch and installing into the same latch writes the clamp.
pub proof fn law_stage_then_install_clamps(existing: Option<usize>, boundary: usize, staged: StagedTrip)
    requires
        staged.spec_lower() == (match existing {
            Some(b) => if b <= boundary { None::<usize> } else { Some(boundary) },
            None => Some(boundary),
        }),
    ensures
        (match staged.spec_lower() {
            Some(b) => Some(b),
            None => existing,
        }) == clamped(existing, boundary),
{
}

} // verus!
