//! Lexical speculation: a transaction guard over the handle, and the attempt closures that run
//! caller code inside one and settle it by the closure's answer.
use vstd::prelude::*;
use core::marker::PhantomData;
use crate::drop_policy::{Commit, DropPolicy, Rollback, Sealed};
use super::{Checkpoint, InputModel, InputRef, checkpoint_of, points_below, unpinned_points};

verus! {

broadcast use super::lemma_checkpoint_of;

/// The answer of a speculative parse: it recognized its construct, or declined without an error.
#[derive(Debug, Clone, Copy, PartialEq, Eq)]
pub enum ParseAttempt<T> {
    /// The construct was recognized; its progress is kept.
    Accept(T),
    /// The construct is not here; the input is rolled back.
    Decline,
}

/// The handle after a guard's base was settled by keeping: its pin and lineage entry released.
pub open spec fn kept<E>(m: InputModel<E>, id: u64) -> InputModel<E> {
    InputModel { lineage: m.lineage.unpinned(id).forgotten(id), ..m }
}

/// The input after a reconciling rollback to `base` that the points `pts` (oldest first) were
/// open over: the base's pin released, then — when the base is still live — every point at or
/// above it abandoned and the base restored. A base some earlier restore invalidated is left.
pub open spec fn rolled_back<E>(m: InputModel<E>, pts: Seq<Checkpoint>, base: Checkpoint) -> InputModel<E> {
    let m1 = InputModel { lineage: m.lineage.unpinned(base.spec_id()), ..m };
    if m1.lineage.live.contains(base.spec_id()) {
        (InputModel {
            lineage: unpinned_points(m1.lineage, pts.skip(points_below(pts, base.spec_id()) as int)),
            ..m1
        }).restored(base)
    } else {
        m1
    }
}

/// The points left standing by [`rolled_back`].
pub open spec fn points_after_rollback<E>(m: InputModel<E>, pts: Seq<Checkpoint>, base: Checkpoint) -> Seq<Checkpoint> {
    if m.lineage.unpinned(base.spec_id()).live.contains(base.spec_id()) {
        pts.take(points_below(pts, base.spec_id()) as int)
    } else {
        pts
    }
}

/// The handle an attempt's caller code starts from: the base saved and pinned.
pub open spec fn begun<E>(m: InputModel<E>) -> InputModel<E> {
    InputModel { lineage: m.lineage.opened().pinned_with(m.lineage.next_id), ..m }
}

/// Whether `fin` (with the points `fin_pts`) is what settling an attempt begun over `m` gives,
/// once its caller code left the handle as `mid`: kept when `keep`, rolled back otherwise.
pub open spec fn settled_attempt<'a, E>(
    m: InputModel<E>,
    mid: InputRef<'a, E>,
    keep: bool,
    fin: InputModel<E>,
    fin_pts: Seq<Checkpoint>,
) -> bool {
    if keep {
        fin == kept(mid.model(), m.lineage.next_id) && fin_pts == mid.open_points()
    } else {
        &&& fin == rolled_back(mid.model(), mid.open_points(), checkpoint_of(m))
        &&& fin_pts == points_after_rollback(mid.model(), mid.open_points(), checkpoint_of(m))
    }
}

/// What the caller code an attempt runs must keep: a well-formed handle over the same source,
/// with its guard's base still admissible.
pub open spec fn keeps_handle<'a, E>(before: InputRef<'a, E>, after: InputRef<'a, E>) -> bool {
    &&& after.wf()
    &&& after.model().src == before.model().src
}

impl<'a, E> InputRef<'a, E> {
    /// Pins `id` as the begin point of a guard.
    fn pin_base(&mut self, id: u64)
        ensures
            final(self).model() == (InputModel { lineage: old(self).model().lineage.pinned_with(id), ..old(self).model() }),
            final(self).open_points() == old(self).open_points(),
    {
        self.input.lineage.reserve_pin();
        self.input.lineage.pin(id);
    }

    /// Settles a guard's base by keeping: unpins it and forgets its lineage entry.
    fn keep_base(&mut self, id: u64)
        requires
            old(self).wf(),
        ensures
            final(self).wf(),
            final(self).model() == kept(old(self).model(), id),
            final(self).open_points() == old(self).open_points(),
    {
        self.input.lineage.unpin(id);
        self.input.lineage.forget(id);
    }

    /// Settles a guard's base by rolling back, reconciling: unpins it and, when it is still
    /// live, abandons the points above it and restores it.
    fn roll_back_base(&mut self, base: Checkpoint)
        requires
            old(self).wf(),
            old(self).model().admits(base),
        ensures
            final(self).wf(),
            final(self).model() == rolled_back(old(self).model(), old(self).open_points(), base),
            final(self).open_points() == points_after_rollback(old(self).model(), old(self).open_points(), base),
    {
        self.input.lineage.unpin(base.ckp_id);
        if self.input.lineage.contains(base.ckp_id) {
            self.restore_unchecked(base);
        }
    }

    /// Opens a transaction that rolls back unless it is committed.
    pub fn begin<'t>(&'t mut self) -> (t: Transaction<'t, 'a, E, Rollback>)
        requires
            old(self).wf(),
            old(self).model().lineage.next_id < u64::MAX,
        ensures
            t.input.wf(),
            t.spec_base() == checkpoint_of(old(self).model()),
            t.input.open_points() == old(self).open_points(),
            t.input.model() == (InputModel {
                lineage: old(self).model().lineage.opened().pinned_with(old(self).model().lineage.next_id),
                ..old(self).model()
            }),
            *final(self) == *final(t.input),
    {
        self.begin_with::<Rollback>()
    }

    /// Opens a transaction settled by the policy `P` when nobody decides.
    pub fn begin_with<'t, P: DropPolicy>(&'t mut self) -> (t: Transaction<'t, 'a, E, P>)
        requires
            old(self).wf(),
            old(self).model().lineage.next_id < u64::MAX,
        ensures
            t.input.wf(),
            t.spec_base() == checkpoint_of(old(self).model()),
            t.input.open_points() == old(self).open_points(),
            t.input.model() == (InputModel {
                lineage: old(self).model().lineage.opened().pinned_with(old(self).model().lineage.next_id),
                ..old(self).model()
            }),
            *final(self) == *final(t.input),
    {
        let ckp = self.save();
        self.pin_base(ckp.ckp_id);
        Transaction { input: self, ckp, policy: PhantomData }
    }
}

/// A lexical transaction over a handle: the handle is reached through [`input`](Self::input),
/// and the transaction is settled by [`commit`](Self::commit), [`rollback`](Self::rollback),
/// [`rollback_abandoning_points`](Self::rollback_abandoning_points) or, undecided,
/// [`finish`](Self::finish).
pub struct Transaction<'t, 'a, E, P: DropPolicy> {
    /// The handle the transaction speculates over.
    pub input: &'t mut InputRef<'a, E>,
    /// The checkpoint it began at, pinned while the transaction is open.
    pub ckp: Checkpoint,
    /// The settle policy.
    pub policy: PhantomData<P>,
}

impl<'t, 'a, E, P: DropPolicy> Transaction<'t, 'a, E, P> {
    /// The checkpoint the transaction began at.
    pub open spec fn spec_base(self) -> Checkpoint {
        self.ckp
    }

    /// The checkpoint the transaction began at.
    pub fn base(&self) -> (r: Checkpoint)
        ensures
            r == self.spec_base(),
    {
        self.ckp
    }

    /// Keeps the progress: the base's pin and lineage entry are released.
    pub fn commit(self)
        requires
            self.input.wf(),
        ensures
            final(self.input).wf(),
            final(self.input).open_points() == old(self.input).open_points(),
            final(self.input).model() == kept(old(self.input).model(), self.spec_base().spec_id()),
    {
        let t = self;
        t.input.keep_base(t.ckp.ckp_id);
    }

    /// Rolls back to the base. The base must still be live, and the restore may not pop any
    /// other pinned begin point (a session point opened inside is one).
    pub fn rollback(self)
        requires
            self.input.wf(),
            self.input.model().admits(self.spec_base()),
            self.input.model().lineage.live.contains(self.spec_base().spec_id()),
            !self.input.model().lineage.unpinned(self.spec_base().spec_id()).restore_invalidates_pin(
                self.spec_base().spec_id(),
            ),
        ensures
            final(self.input).wf(),
            final(self.input).open_points() == old(self.input).open_points(),
            final(self.input).model() == (InputModel {
                lineage: old(self.input).model().lineage.unpinned(self.spec_base().spec_id()),
                ..old(self.input).model()
            }).restored(self.spec_base()),
    {
        let t = self;
        t.input.input.lineage.unpin(t.ckp.ckp_id);
        t.input.restore(t.ckp);
    }

    /// Rolls back to the base, abandoning every session point opened at or above it. The base
    /// must still be live.
    pub fn rollback_abandoning_points(self)
        requires
            self.input.wf(),
            self.input.model().admits(self.spec_base()),
            self.input.model().lineage.live.contains(self.spec_base().spec_id()),
        ensures
            final(self.input).wf(),
            final(self.input).open_points() == points_after_rollback(
                old(self.input).model(),
                old(self.input).open_points(),
                self.spec_base(),
            ),
            final(self.input).model() == rolled_back(
                old(self.input).model(),
                old(self.input).open_points(),
                self.spec_base(),
            ),
    {
        let t = self;
        t.input.roll_back_base(t.ckp);
    }

    /// Settles an undecided transaction by its policy: [`Rollback`] rolls back reconciling (a
    /// base some restore already invalidated is only unpinned), [`Commit`] keeps the progress.
    pub fn finish(self)
        requires
            self.input.wf(),
            self.input.model().admits(self.spec_base()),
        ensures
            final(self.input).wf(),
            P::spec_rollback_on_drop() ==> final(self.input).model() == rolled_back(
                old(self.input).model(),
                old(self.input).open_points(),
                self.spec_base(),
            ) && final(self.input).open_points() == points_after_rollback(
                old(self.input).model(),
                old(self.input).open_points(),
                self.spec_base(),
            ),
            !P::spec_rollback_on_drop() ==> final(self.input).model() == kept(
                old(self.input).model(),
                self.spec_base().spec_id(),
            ) && final(self.input).open_points() == old(self.input).open_points(),
    {
        let t = self;
        if P::rollback_on_drop() {
            t.input.roll_back_base(t.ckp);
        } else {
            t.input.keep_base(t.ckp.ckp_id);
        }
    }
}

impl<'a, E> InputRef<'a, E> {
    /// Runs `f` speculatively: its progress is kept when it answers `Some`, and rolled back —
    /// reconciling the points it left open — when it answers `None`.
    pub fn attempt<T, F>(&mut self, f: F) -> (r: Option<T>)
        where F: FnOnce(&mut InputRef<'a, E>) -> Option<T>
        requires
            old(self).wf(),
            old(self).model().lineage.next_id < u64::MAX,
            forall|ir: &mut InputRef<'a, E>|
                #![trigger call_requires(f, (ir,))]
                mut_ref_current(ir).wf() ==> call_requires(f, (ir,)),
            forall|ir: &mut InputRef<'a, E>, o: Option<T>|
                #![trigger call_ensures(f, (ir,), o)]
                call_ensures(f, (ir,), o) ==> keeps_handle(mut_ref_current(ir), mut_ref_future(ir)),
        ensures
            final(self).wf(),
            exists|ir: &mut InputRef<'a, E>, o: Option<T>|
                #![trigger call_ensures(f, (ir,), o)]
                call_ensures(f, (ir,), o) && r == o && mut_ref_current(ir).model() == begun(old(self).model())
                    && mut_ref_current(ir).open_points() == old(self).open_points() && settled_attempt(
                    old(self).model(),
                    mut_ref_future(ir),
                    o is Some,
                    final(self).model(),
                    final(self).open_points(),
                ),
    {
        let base = self.save();
        self.pin_base(base.ckp_id);
        let o = f(self);
        if o.is_some() {
            self.keep_base(base.ckp_id);
        } else {
            self.roll_back_base(base);
        }
        o
    }

    /// Runs `f` speculatively: its progress is kept when it answers `Ok`, and rolled back —
    /// reconciling the points it left open — when it answers `Err`, which is handed back.
    pub fn try_attempt<T, Er, F>(&mut self, f: F) -> (r: Result<T, Er>)
        where F: FnOnce(&mut InputRef<'a, E>) -> Result<T, Er>
        requires
            old(self).wf(),
            old(self).model().lineage.next_id < u64::MAX,
            forall|ir: &mut InputRef<'a, E>|
                #![trigger call_requires(f, (ir,))]
                mut_ref_current(ir).wf() ==> call_requires(f, (ir,)),
            forall|ir: &mut InputRef<'a, E>, o: Result<T, Er>|
                #![trigger call_ensures(f, (ir,), o)]
                call_ensures(f, (ir,), o) ==> keeps_handle(mut_ref_current(ir), mut_ref_future(ir)),
        ensures
            final(self).wf(),
            exists|ir: &mut InputRef<'a, E>, o: Result<T, Er>|
                #![trigger call_ensures(f, (ir,), o)]
                call_ensures(f, (ir,), o) && r == o && mut_ref_current(ir).model() == begun(old(self).model())
                    && mut_ref_current(ir).open_points() == old(self).open_points() && settled_attempt(
                    old(self).model(),
                    mut_ref_future(ir),
                    o is Ok,
                    final(self).model(),
                    final(self).open_points(),
                ),
    {
        let base = self.save();
        self.pin_base(base.ckp_id);
        let o = f(self);
        if o.is_ok() {
            self.keep_base(base.ckp_id);
        } else {
            self.roll_back_base(base);
        }
        o
    }

    /// Runs a speculative parse: its progress is kept when it accepts, and rolled back —
    /// reconciling the points it left open — when it declines or errs.
    pub fn attempt_parse<T, Er, F>(&mut self, f: F) -> (r: Result<ParseAttempt<T>, Er>)
        where F: FnOnce(&mut InputRef<'a, E>) -> Result<ParseAttempt<T>, Er>
        requires
            old(self).wf(),
            old(self).model().lineage.next_id < u64::MAX,
            forall|ir: &mut InputRef<'a, E>|
                #![trigger call_requires(f, (ir,))]
                mut_ref_current(ir).wf() ==> call_requires(f, (ir,)),
            forall|ir: &mut InputRef<'a, E>, o: Result<ParseAttempt<T>, Er>|
                #![trigger call_ensures(f, (ir,), o)]
                call_ensures(f, (ir,), o) ==> keeps_handle(mut_ref_current(ir), mut_ref_future(ir)),
        ensures
            final(self).wf(),
            exists|ir: &mut InputRef<'a, E>, o: Result<ParseAttempt<T>, Er>|
                #![trigger call_ensures(f, (ir,), o)]
                call_ensures(f, (ir,), o) && r == o && mut_ref_current(ir).model() == begun(old(self).model())
                    && mut_ref_current(ir).open_points() == old(self).open_points() && settled_attempt(
                    old(self).model(),
                    mut_ref_future(ir),
                    o matches Ok(ParseAttempt::Accept(_)),
                    final(self).model(),
                    final(self).open_points(),
                ),
    {
        let base = self.save();
        self.pin_base(base.ckp_id);
        let o = f(self);
        if matches!(o, Ok(ParseAttempt::Accept(_))) {
            self.keep_base(base.ckp_id);
        } else {
            self.roll_back_base(base);
        }
        o
    }
}

/// A declined attempt leaves the input where it began: when its base is still live, the rollback
/// restores the committed span, the state and the poison latch it began with, and drops every
/// emission made since, whatever the caller code did in between.
pub proof fn law_a_declined_attempt_returns_to_its_base<'a, E>(m: InputModel<E>, mid: InputRef<'a, E>)
    requires
        m.emitter.log.len() <= mid.model().emitter.log.len(),
        mid.model().emitter.log.take(m.emitter.log.len() as int) == m.emitter.log,
        m.emitter.log.len() <= u64::MAX,
        mid.model().lineage.unpinned(m.lineage.next_id).live.contains(m.lineage.next_id),
    ensures
        rolled_back(mid.model(), mid.open_points(), checkpoint_of(m)).span == m.span,
        rolled_back(mid.model(), mid.open_points(), checkpoint_of(m)).state == m.state,
        rolled_back(mid.model(), mid.open_points(), checkpoint_of(m)).poison == m.poison,
        rolled_back(mid.model(), mid.open_points(), checkpoint_of(m)).emitter.log == m.emitter.log,
        rolled_back(mid.model(), mid.open_points(), checkpoint_of(m)).front.len() == 0,
{
}

/// An accepted attempt keeps everything its caller code did but its own base's pin and entry.
pub proof fn law_an_accepted_attempt_keeps_its_progress<'a, E>(m: InputModel<E>, mid: InputRef<'a, E>)
    ensures
        kept(mid.model(), m.lineage.next_id).span == mid.model().span,
        kept(mid.model(), m.lineage.next_id).state == mid.model().state,
        kept(mid.model(), m.lineage.next_id).front == mid.model().front,
        kept(mid.model(), m.lineage.next_id).emitter == mid.model().emitter,
{
}


/// A transaction settled undecided under the commit-by-default policy keeps everything its caller
/// code did (the committed span, the state, the front, the poison latch and every emission), and
/// only the base's pin and entry go; under the rollback-by-default policy it rolls back.
pub proof fn law_an_undecided_commit_keeps_its_progress<E>(m: InputModel<E>, id: u64)
    ensures
        !<Commit as Sealed>::spec_rollback_on_drop(),
        <Rollback as Sealed>::spec_rollback_on_drop(),
        kept(m, id).span == m.span,
        kept(m, id).state == m.state,
        kept(m, id).front == m.front,
        kept(m, id).poison == m.poison,
        kept(m, id).emitter == m.emitter,
        kept(m, id).lineage == m.lineage.unpinned(id).forgotten(id),
{
}

} // verus!
