//! Saving and restoring positions, and session points: named, non-lexical speculation over real
//! token consumption, settled newest first.
use vstd::prelude::*;
use crate::lineage::LineageModel;
use super::{
    Checkpoint, InputModel, InputRef, SessionPointId, checkpoint_of, points_ascending, points_below,
    released_points, unpinned_points,
};

verus! {

broadcast use super::lemma_checkpoint_of;

impl<'a, E> InputRef<'a, E> {
    /// Saves the current position: ground truth, the poison latch, the emitter mark, and a fresh
    /// lineage id on top of the live stack.
    pub fn save(&mut self) -> (ckp: Checkpoint)
        requires
            old(self).wf(),
            old(self).model().lineage.next_id < u64::MAX,
        ensures
            final(self).wf(),
            final(self).open_points() == old(self).open_points(),
            ckp == checkpoint_of(old(self).model()),
            final(self).model() == (InputModel { lineage: old(self).model().lineage.opened(), ..old(self).model() }),
    {
        self.input.lineage.reserve_open();
        let mark = self.input.emitter.checkpoint();
        let cache_pushes = self.input.lineage.cache_pushes();
        let id = self.input.lineage.open();
        Checkpoint {
            span: self.input.span,
            state: self.input.state,
            poison: self.input.poison,
            mark,
            cache_pushes,
            ckp_id: id,
        }
    }

    /// Puts a checkpoint's ground truth back: the span, the state, the poison latch, the
    /// emission log truncated to its mark, the lineage popped through it. The front is dropped;
    /// the region re-lexes to the same tokens.
    fn rewind(&mut self, ckp: Checkpoint)
        requires
            old(self).model().wf(),
            old(self).model().admits(ckp),
        ensures
            final(self).model() == old(self).model().restored(ckp),
            final(self).model().wf(),
            final(self).open_points() == old(self).open_points(),
    {
        self.input.span = ckp.span;
        self.input.state = ckp.state;
        self.input.poison = ckp.poison;
        self.input.front.clear();
        self.input.emitter.rewind(ckp.mark);
        self.input.lineage.pop_through(ckp.ckp_id);
        self.input.lineage.restore_cache_pushes(ckp.cache_pushes);
        proof {
            let m = self.model();
            assert(m.front =~= crate::lexer::chain(m.src, m.span.end as int, m.state, 0));
        }
    }

    /// Restores a checkpoint. The restore may not pop a pinned begin point (a live guard, attempt
    /// or session point) off the lineage.
    pub fn restore(&mut self, ckp: Checkpoint)
        requires
            old(self).wf(),
            old(self).model().admits(ckp),
            !old(self).model().lineage.restore_invalidates_pin(ckp.spec_id()),
        ensures
            final(self).wf(),
            final(self).open_points() == old(self).open_points(),
            final(self).model() == old(self).model().restored(ckp),
    {
        self.rewind(ckp);
    }

    /// Restores a live checkpoint, first abandoning every open session point at or above it:
    /// each one's pin is released, and the restore pops its lineage entry.
    pub fn restore_unchecked(&mut self, ckp: Checkpoint)
        requires
            old(self).wf(),
            old(self).model().admits(ckp),
            old(self).model().lineage.live.contains(ckp.spec_id()),
        ensures
            final(self).wf(),
            final(self).open_points() == old(self).open_points().take(
                points_below(old(self).open_points(), ckp.spec_id()) as int,
            ),
            final(self).model() == (InputModel {
                lineage: unpinned_points(
                    old(self).model().lineage,
                    old(self).open_points().skip(
                        points_below(old(self).open_points(), ckp.spec_id()) as int,
                    ),
                ),
                ..old(self).model()
            }).restored(ckp),
    {
        self.abandon_points_from(ckp.ckp_id);
        self.rewind(ckp);
    }

    /// Abandons the open points at or above `id`, newest first, releasing their pins.
    fn abandon_points_from(&mut self, id: u64)
        requires
            old(self).wf(),
        ensures
            final(self).wf(),
            final(self).open_points() == old(self).open_points().take(
                points_below(old(self).open_points(), id) as int,
            ),
            final(self).model() == (InputModel {
                lineage: unpinned_points(
                    old(self).model().lineage,
                    old(self).open_points().skip(points_below(old(self).open_points(), id) as int),
                ),
                ..old(self).model()
            }),
        decreases old(self).open_points().len(),
    {
        let n = self.points.len();
        if n == 0 || self.points[n - 1].ckp_id < id {
            proof {
                let pts = old(self).open_points();
                assert(pts.take(pts.len() as int) =~= pts);
                assert(pts.skip(pts.len() as int) =~= Seq::<Checkpoint>::empty());
            }
            return;
        }
        let top = self.points.pop().unwrap();
        self.input.lineage.unpin(top.ckp_id);
        proof {
            let pts = old(self).open_points();
            assert(self.open_points() =~= pts.drop_last());
            assert(points_ascending(self.open_points()));
        }
        self.abandon_points_from(id);
        proof {
            let pts = old(self).open_points();
            let k = points_below(pts, id);
            assert(points_below(pts.drop_last(), id) == k);
            super::lemma_points_below_len(pts.drop_last(), id);
            assert(pts.drop_last().take(k as int) =~= pts.take(k as int));
            let rest = pts.skip(k as int);
            assert(rest.len() > 0);
            assert(rest.last() == top);
            assert(rest.drop_last() =~= pts.drop_last().skip(k as int));
        }
    }

    /// Opens a session point: saves the current position, pins it as a begin point, and pushes
    /// it on the handle's point stack. The consume surface stays usable while it is open.
    pub fn begin_point(&mut self) -> (p: SessionPointId)
        requires
            old(self).wf(),
            old(self).model().lineage.next_id < u64::MAX,
        ensures
            final(self).wf(),
            p.spec_ckp() == old(self).model().lineage.next_id,
            final(self).open_points() == old(self).open_points().push(checkpoint_of(old(self).model())),
            final(self).model() == (InputModel {
                lineage: old(self).model().lineage.opened().pinned_with(old(self).model().lineage.next_id),
                ..old(self).model()
            }),
    {
        self.input.lineage.reserve_pin();
        let ckp = self.save();
        self.input.lineage.pin(ckp.ckp_id);
        self.points.push(ckp);
        proof {
            let pts = self.open_points();
            assert forall|i: int, j: int| 0 <= i < j < pts.len() implies pts[i].spec_id() < pts[j].spec_id() by {
                if j == pts.len() - 1 {
                    assert(old(self).open_points()[i].spec_id() < old(self).model().lineage.next_id);
                }
            }
        }
        SessionPointId { ckp: ckp.ckp_id }
    }

    /// Settles the newest open point by keeping its progress: its pin and lineage entry are
    /// released, nothing is rewound.
    pub fn commit_point(&mut self, p: SessionPointId)
        requires
            old(self).wf(),
            old(self).open_points().len() > 0,
            old(self).open_points().last().spec_id() == p.spec_ckp(),
        ensures
            final(self).wf(),
            final(self).open_points() == old(self).open_points().drop_last(),
            final(self).model() == (InputModel {
                lineage: old(self).model().lineage.unpinned(p.spec_ckp()).forgotten(p.spec_ckp()),
                ..old(self).model()
            }),
    {
        let ckp = self.points.pop().unwrap();
        self.input.lineage.unpin(ckp.ckp_id);
        self.input.lineage.forget(ckp.ckp_id);
        proof {
            assert(self.open_points() =~= old(self).open_points().drop_last());
        }
    }

    /// Settles the newest open point by returning to it: its pin is released and its
    /// checkpoint restored, which drops everything consumed and emitted since.
    pub fn rollback_point(&mut self, p: SessionPointId)
        requires
            old(self).wf(),
            old(self).open_points().len() > 0,
            old(self).open_points().last().spec_id() == p.spec_ckp(),
            !old(self).model().lineage.unpinned(p.spec_ckp()).restore_invalidates_pin(p.spec_ckp()),
        ensures
            final(self).wf(),
            final(self).open_points() == old(self).open_points().drop_last(),
            final(self).model() == (InputModel {
                lineage: old(self).model().lineage.unpinned(p.spec_ckp()),
                ..old(self).model()
            }).restored(old(self).open_points().last()),
    {
        let ckp = self.points.pop().unwrap();
        self.input.lineage.unpin(ckp.ckp_id);
        proof {
            assert(self.open_points() =~= old(self).open_points().drop_last());
            let last = old(self).open_points().len() - 1;
            assert(old(self).model().admits(old(self).open_points()[last]));
        }
        self.rewind(ckp);
    }

    /// Releases every open point, newest first: pins and lineage entries dropped, progress kept
    /// — what becomes of the points a handle still holds when it closes.
    pub fn release_points(&mut self)
        requires
            old(self).wf(),
        ensures
            final(self).wf(),
            final(self).open_points().len() == 0,
            final(self).model() == (InputModel {
                lineage: released_points(old(self).model().lineage, old(self).open_points()),
                ..old(self).model()
            }),
        decreases old(self).open_points().len(),
    {
        if self.points.len() == 0 {
            return;
        }
        let ckp = self.points.pop().unwrap();
        self.input.lineage.unpin(ckp.ckp_id);
        self.input.lineage.forget(ckp.ckp_id);
        proof {
            assert(self.open_points() =~= old(self).open_points().drop_last());
        }
        self.release_points();
    }

}

} // verus!
