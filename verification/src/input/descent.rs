//! Recursive descent against the recursion budget: raising a level, the guard that holds it, the
//! closure form that holds it for a whole body, and the per-attempt trip witness.
use vstd::prelude::*;
use vstd::std_specs::convert::FromSpec;
use crate::recursion::{RecursionLimitExceeded, RecursionLimitReached, RecursionLimiter};
use super::{InputModel, InputRef, bumped};

verus! {

/// The recursion-trip counter's ceiling: once it is reached every verdict reads as tripped.
pub const TRIP_COUNTER_EXHAUSTED: u64 = 0xffff_ffff_ffff_ffff;

/// What raising a level does to the input: `Ok` with the level held, or `Err` with the level
/// given back and the refusal counted. The report the refusal carries is [`limit_reached`].
pub open spec fn raised_level<E>(m: InputModel<E>) -> (bool, InputModel<E>) {
    let up = m.recursion.raised();
    if up.spec_depth() <= up.spec_limitation() {
        (true, InputModel { recursion: up, ..m })
    } else {
        (false, InputModel { recursion: up.lowered(), resource_trips: bumped(m.resource_trips), ..m })
    }
}

/// The refusal a level raised past the limit reports: where the committed span ends, and the
/// depth it would have reached.
pub open spec fn limit_reached<E>(m: InputModel<E>) -> RecursionLimitReached {
    RecursionLimitReached::spec_of(
        m.span.end,
        RecursionLimitExceeded {
            depth: m.recursion.raised().spec_depth(),
            limitation: m.recursion.raised().spec_limitation(),
        },
    )
}

/// A snapshot of the recursion-trip counter, taken before an attempt.
#[derive(Debug, Clone, Copy, PartialEq, Eq)]
pub struct ResourceTripBaseline {
    count: u64,
}

impl ResourceTripBaseline {
    /// The count the snapshot holds.
    pub closed spec fn spec_count(self) -> u64 {
        self.count
    }
}

impl<'a, E> InputRef<'a, E> {
    /// Raises a level; on a refusal the level is given back, the trip counted, and the report
    /// built.
    fn raise_level(&mut self) -> (r: Result<(), RecursionLimitReached>)
        requires
            old(self).wf(),
        ensures
            final(self).wf(),
            final(self).open_points() == old(self).open_points(),
            final(self).model() == raised_level(old(self).model()).1,
            r is Ok <==> raised_level(old(self).model()).0,
            r matches Err(e) ==> e == limit_reached(old(self).model()),
    {
        self.input.recursion.increase();
        match self.input.recursion.check() {
            Ok(()) => Ok(()),
            Err(exceeded) => {
                self.input.recursion.decrease();
                self.input.resource_trips = self.input.resource_trips.saturating_add(1);
                Err(RecursionLimitReached::of(self.input.span.end, exceeded))
            },
        }
    }

    /// Lowers a level.
    fn lower_level(&mut self)
        requires
            old(self).wf(),
        ensures
            final(self).wf(),
            final(self).open_points() == old(self).open_points(),
            final(self).model() == (InputModel {
                recursion: old(self).model().recursion.lowered(),
                ..old(self).model()
            }),
    {
        self.input.recursion.decrease();
    }

    /// Descends one level for the frame the returned guard holds; past the limit the level is
    /// given back, the trip counted, and the refusal returned as the emitter's error.
    pub fn descend<'r>(&'r mut self) -> (r: Result<Descent<'r, 'a, E>, E>)
        where E: From<RecursionLimitReached>
        requires
            old(self).wf(),
        ensures
            raised_level(old(self).model()).0 ==> (r matches Ok(d) && d.input.wf()
                && d.input.model() == raised_level(old(self).model()).1
                && d.input.open_points() == old(self).open_points()
                && *final(self) == *final(d.input)),
            !raised_level(old(self).model()).0 ==> (r matches Err(e) && final(self).wf()
                && final(self).model() == raised_level(old(self).model()).1
                && final(self).open_points() == old(self).open_points()
                && (E::obeys_from_spec() ==> e == E::from_spec(limit_reached(old(self).model())))),
    {
        match self.raise_level() {
            Ok(()) => Ok(Descent { input: self }),
            Err(reached) => Err(E::from(reached)),
        }
    }

    /// Runs `f` one level deeper and gives the level back when it returns, whatever it
    /// answered; past the limit `f` does not run and the refusal is returned as its error. A
    /// body that gives back every level it takes leaves the depth where it found it.
    pub fn descending<T, Er, F>(&mut self, f: F) -> (r: Result<T, Er>)
        where Er: From<RecursionLimitReached>, F: FnOnce(&mut InputRef<'a, E>) -> Result<T, Er>
        requires
            old(self).wf(),
            forall|ir: &mut InputRef<'a, E>|
                #![trigger call_requires(f, (ir,))]
                mut_ref_current(ir).wf() ==> call_requires(f, (ir,)),
            forall|ir: &mut InputRef<'a, E>, o: Result<T, Er>|
                #![trigger call_ensures(f, (ir,), o)]
                call_ensures(f, (ir,), o) ==> mut_ref_future(ir).wf(),
        ensures
            final(self).wf(),
            !raised_level(old(self).model()).0 ==> (r matches Err(e) && final(self).model()
                == raised_level(old(self).model()).1 && final(self).open_points() == old(self).open_points()
                && (Er::obeys_from_spec() ==> e == Er::from_spec(limit_reached(old(self).model())))),
            raised_level(old(self).model()).0 ==> exists|ir: &mut InputRef<'a, E>, o: Result<T, Er>|
                #![trigger call_ensures(f, (ir,), o)]
                call_ensures(f, (ir,), o) && r == o && mut_ref_current(ir).model() == raised_level(
                    old(self).model(),
                ).1 && mut_ref_current(ir).open_points() == old(self).open_points()
                    && final(self).model() == (InputModel {
                    recursion: mut_ref_future(ir).model().recursion.lowered(),
                    ..mut_ref_future(ir).model()
                }) && final(self).open_points() == mut_ref_future(ir).open_points(),
            raised_level(old(self).model()).0 && old(self).model().recursion.spec_depth() < usize::MAX && (forall|
                ir: &mut InputRef<'a, E>,
                o: Result<T, Er>,
            |
                #![trigger call_ensures(f, (ir,), o)]
                call_ensures(f, (ir,), o) ==> mut_ref_future(ir).model().recursion == mut_ref_current(
                    ir,
                ).model().recursion) ==> final(self).model().recursion == old(self).model().recursion,
    {
        proof {
            old(self).model().recursion.lemma_levels();
            if old(self).model().recursion.spec_depth() < usize::MAX {
                old(self).model().recursion.law_raise_then_lower();
            }
        }
        match self.raise_level() {
            Ok(()) => {
                let o = f(self);
                self.lower_level();
                o
            },
            Err(reached) => Err(Er::from(reached)),
        }
    }

    /// A snapshot of the recursion-trip counter, for judging one attempt on its own terms.
    pub fn trip_snapshot(&self) -> (r: ResourceTripBaseline)
        ensures
            r.spec_count() == self.model().resource_trips,
    {
        ResourceTripBaseline { count: self.input.resource_trips }
    }

    /// Whether a recursion trip happened since `since` was taken: the counter moved, or it is at
    /// its ceiling, where movement can no longer be seen. The baseline must be one this input's
    /// counter has passed through: the counter never decreases, so a baseline above it was not
    /// taken on this input.
    pub fn tripped_during_attempt(&self, since: ResourceTripBaseline) -> (r: bool)
        requires
            since.spec_count() <= self.model().resource_trips,
        ensures
            r == (self.model().resource_trips == TRIP_COUNTER_EXHAUSTED || self.model().resource_trips
                != since.spec_count()),
    {
        self.input.resource_trips == TRIP_COUNTER_EXHAUSTED || self.input.resource_trips != since.count
    }
}

/// A frame one recursion level deep: the handle is reached through [`input`](Self::input), and
/// the level is given back by [`ascend`](Self::ascend).
pub struct Descent<'r, 'a, E> {
    /// The handle, one level deeper.
    pub input: &'r mut InputRef<'a, E>,
}

impl<'r, 'a, E> Descent<'r, 'a, E> {
    /// Gives the frame's level back.
    pub fn ascend(self)
        requires
            self.input.wf(),
        ensures
            final(self.input).wf(),
            final(self.input).open_points() == old(self.input).open_points(),
            final(self.input).model() == (InputModel {
                recursion: old(self.input).model().recursion.lowered(),
                ..old(self.input).model()
            }),
    {
        let d = self;
        d.input.lower_level();
    }
}

} // verus!
