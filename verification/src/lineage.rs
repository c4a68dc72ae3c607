//! The lineage memos an input carries so backtracking can rewind an abandoned continuation
//! exactly: the live-checkpoint stack, the pin set of live guard begin points, and the monotone
//! counters that hand out never-reused ids.
//!
//! Every operation is stated against [`LineageModel`], the mathematical value of a [`Lineage`].
//! The live-checkpoint stack is kept sorted strictly ascending (ids are minted increasing and every
//! writer preserves order), which is what licenses the binary searches below.
use vstd::prelude::*;

verus! {

/// `s` is sorted strictly ascending.
pub open spec fn strictly_ascending(s: Seq<u64>) -> bool {
    forall|i: int, j: int| 0 <= i < j < s.len() ==> s[i] < s[j]
}

/// The first position of `x` in `s` (meaningful when `s` contains `x`).
pub open spec fn first_index(s: Seq<u64>, x: u64) -> int {
    choose|k: int| 0 <= k < s.len() && s[k] == x && forall|j: int| 0 <= j < k ==> s[j] != x
}

/// `s` with one occurrence of `x` removed: the last element when it is `x`, otherwise the first
/// occurrence; unchanged when `x` does not occur.
pub open spec fn removed_one(s: Seq<u64>, x: u64) -> Seq<u64> {
    if s.len() > 0 && s.last() == x {
        s.drop_last()
    } else if s.contains(x) {
        s.remove(first_index(s, x))
    } else {
        s
    }
}

/// The mathematical value of a [`Lineage`].
pub struct LineageModel {
    /// Ids of the checkpoints saved and neither restored nor invalidated, youngest last.
    pub live: Seq<u64>,
    /// Begin points of the live guards, attempts and session points.
    pub pinned: Seq<u64>,
    /// The next checkpoint id to hand out.
    pub next_id: u64,
    /// Tokens the cache has accepted over the input's life (rewound by a restore).
    pub cache_pushes: u64,
    /// The next savepoint sequence number.
    pub savepoint_seq: u64,
}

impl LineageModel {
    /// The lineage invariant: the live stack is strictly ascending and holds only issued ids.
    pub open spec fn wf(self) -> bool {
        &&& strictly_ascending(self.live)
        &&& forall|i: int| 0 <= i < self.live.len() ==> self.live[i] < self.next_id
    }

    /// The lineage after `open`: the fresh id pushed on top, the id source bumped.
    pub open spec fn opened(self) -> LineageModel {
        LineageModel { live: self.live.push(self.next_id), next_id: (self.next_id + 1) as u64, ..self }
    }

    /// The lineage after a restore to `id`: `id` and every younger checkpoint popped.
    pub open spec fn popped_through(self, id: u64) -> LineageModel {
        LineageModel {
            live: if self.live.contains(id) {
                self.live.take(self.live.index_of(id))
            } else {
                self.live
            },
            ..self
        }
    }

    /// The lineage after `id` was kept (committed) rather than restored.
    pub open spec fn forgotten(self, id: u64) -> LineageModel {
        LineageModel { live: removed_one(self.live, id), ..self }
    }

    /// The lineage after pinning `id`.
    pub open spec fn pinned_with(self, id: u64) -> LineageModel {
        LineageModel { pinned: self.pinned.push(id), ..self }
    }

    /// The lineage after unpinning `id`.
    pub open spec fn unpinned(self, id: u64) -> LineageModel {
        LineageModel { pinned: removed_one(self.pinned, id), ..self }
    }

    /// Whether restoring to `target` would pop a pinned checkpoint off the live stack.
    pub open spec fn restore_invalidates_pin(self, target: u64) -> bool {
        &&& self.live.contains(target)
        &&& exists|p: u64| #[trigger] self.pinned.contains(p) && p >= target && self.live.contains(p)
    }
}

/// The lineage memos of one input.
pub struct Lineage {
    cache_pushes: u64,
    savepoint_seq: u64,
    live_ckpts: Vec<u64>,
    next_ckp_id: u64,
    pinned: Vec<u64>,
}

impl View for Lineage {
    type V = LineageModel;

    closed spec fn view(&self) -> LineageModel {
        LineageModel {
            live: self.live_ckpts@,
            pinned: self.pinned@,
            next_id: self.next_ckp_id,
            cache_pushes: self.cache_pushes,
            savepoint_seq: self.savepoint_seq,
        }
    }
}

/// In a strictly ascending sequence an element has exactly one position.
proof fn lemma_ascending_unique_index(s: Seq<u64>, i: int, j: int)
    requires
        strictly_ascending(s),
        0 <= i < s.len(),
        0 <= j < s.len(),
        s[i] == s[j],
    ensures
        i == j,
{
    if i < j {
        assert(s[i] < s[j]);
    } else if j < i {
        assert(s[j] < s[i]);
    }
}

/// Removing a first occurrence at a known position agrees with `removed_one`.
proof fn lemma_removed_one_at(s: Seq<u64>, x: u64, k: int)
    requires
        0 <= k < s.len(),
        s[k] == x,
        forall|j: int| 0 <= j < k ==> s[j] != x,
        !(s.len() > 0 && s.last() == x),
    ensures
        removed_one(s, x) == s.remove(k),
{
    assert(s.contains(x));
    let f = first_index(s, x);
    assert(0 <= f < s.len() && s[f] == x && forall|j: int| 0 <= j < f ==> s[j] != x);
    if f < k {
        assert(s[f] != x);
    } else if k < f {
        assert(s[k] != x);
    }
}

/// A strictly ascending sequence stays strictly ascending after a removal.
proof fn lemma_remove_keeps_ascending(s: Seq<u64>, k: int)
    requires
        strictly_ascending(s),
        0 <= k < s.len(),
    ensures
        strictly_ascending(s.remove(k)),
{
    let r = s.remove(k);
    assert forall|i: int, j: int| 0 <= i < j < r.len() implies r[i] < r[j] by {
        let ii = if i < k { i } else { i + 1 };
        let jj = if j < k { j } else { j + 1 };
        assert(r[i] == s[ii]);
        assert(r[j] == s[jj]);
    }
}

impl Lineage {
    /// A fresh set of memos: an empty live stack, an empty pin set, and zeroed counters.
    pub fn new() -> (r: Self)
        ensures
            r@.live == Seq::<u64>::empty(),
            r@.pinned == Seq::<u64>::empty(),
            r@.next_id == 0,
            r@.cache_pushes == 0,
            r@.savepoint_seq == 0,
            r@.wf(),
    {
        Lineage {
            cache_pushes: 0,
            savepoint_seq: 0,
            live_ckpts: Vec::new(),
            next_ckp_id: 0,
            pinned: Vec::new(),
        }
    }

    /// The current cache-push count.
    pub fn cache_pushes(&self) -> (r: u64)
        ensures
            r == self@.cache_pushes,
    {
        self.cache_pushes
    }

    /// Records one accepted cache push. The counter never wraps: it is a monotone witness.
    pub fn record_cache_push(&mut self)
        requires
            old(self)@.cache_pushes < u64::MAX,
        ensures
            final(self)@ == (LineageModel {
                cache_pushes: (old(self)@.cache_pushes + 1) as u64,
                ..old(self)@
            }),
    {
        self.cache_pushes = self.cache_pushes + 1;
    }

    /// Rewinds the cache-push counter to a checkpoint's saved value on restore.
    pub fn restore_cache_pushes(&mut self, saved: u64)
        ensures
            final(self)@ == (LineageModel { cache_pushes: saved, ..old(self)@ }),
    {
        self.cache_pushes = saved;
    }

    /// Opens a checkpoint entry: takes a fresh, never-reused id and records it on top of the
    /// live stack.
    pub fn open(&mut self) -> (id: u64)
        requires
            old(self)@.wf(),
            old(self)@.next_id < u64::MAX,
        ensures
            id == old(self)@.next_id,
            final(self)@ == old(self)@.opened(),
            final(self)@.wf(),
    {
        let id = self.next_ckp_id;
        self.next_ckp_id = id + 1;
        self.live_ckpts.push(id);
        id
    }

    /// Reserves the slot [`open`](Self::open) is about to push into.
    pub fn reserve_open(&mut self)
        ensures
            final(self)@ == old(self)@,
    {
        self.live_ckpts.reserve(1);
    }

    /// Binary search for `id` in the sorted live stack: its position, if it is there.
    fn find_live(&self, id: u64) -> (r: Option<usize>)
        requires
            self@.wf(),
        ensures
            r matches Some(k) ==> k < self@.live.len() && self@.live[k as int] == id,
            r is None ==> !self@.live.contains(id),
    {
        let mut lo: usize = 0;
        let mut hi: usize = self.live_ckpts.len();
        while lo < hi
            invariant
                self@.wf(),
                0 <= lo <= hi <= self.live_ckpts@.len(),
                self.live_ckpts@ == self@.live,
                forall|i: int| 0 <= i < lo ==> self@.live[i] < id,
                forall|i: int| hi <= i < self@.live.len() ==> self@.live[i] > id,
            decreases hi - lo,
        {
            let mid = lo + (hi - lo) / 2;
            let v = self.live_ckpts[mid];
            if v == id {
                return Some(mid);
            } else if v < id {
                assert forall|i: int| 0 <= i <= mid implies self@.live[i] < id by {
                    if i < mid {
                        assert(self@.live[i] < self@.live[mid as int]);
                    }
                }
                lo = mid + 1;
            } else {
                assert forall|i: int| mid <= i < self@.live.len() implies self@.live[i] > id by {
                    if i > mid {
                        assert(self@.live[mid as int] < self@.live[i]);
                    }
                }
                hi = mid;
            }
        }
        None
    }

    /// Whether `id` is still live on the lineage stack. `O(1)` on the stack top, `O(log d)`
    /// otherwise.
    pub fn contains(&self, id: u64) -> (r: bool)
        requires
            self@.wf(),
        ensures
            r == self@.live.contains(id),
    {
        let n = self.live_ckpts.len();
        if n > 0 && self.live_ckpts[n - 1] == id {
            assert(self@.live[n - 1] == id);
            return true;
        }
        self.find_live(id).is_some()
    }

    /// Pops the lineage stack down through `id` inclusive, invalidating it and every checkpoint
    /// saved after it. A no-op if `id` is already gone.
    pub fn pop_through(&mut self, id: u64)
        requires
            old(self)@.wf(),
        ensures
            final(self)@ == old(self)@.popped_through(id),
            final(self)@.wf(),
    {
        let ghost live0 = self@.live;
        let n = self.live_ckpts.len();
        if n > 0 && self.live_ckpts[n - 1] == id {
            proof {
                assert(live0.contains(id));
                lemma_ascending_unique_index(live0, live0.index_of(id), n - 1);
            }
            self.live_ckpts.truncate(n - 1);
            assert(self@.live =~= live0.take(live0.index_of(id)));
            return;
        }
        match self.find_live(id) {
            Some(pos) => {
                proof {
                    assert(live0.contains(id));
                    lemma_ascending_unique_index(live0, live0.index_of(id), pos as int);
                }
                self.live_ckpts.truncate(pos);
                assert(self@.live =~= live0.take(live0.index_of(id)));
            },
            None => {},
        }
    }

    /// Drops `id` from the live stack because its checkpoint was kept (committed) rather than
    /// restored. Committing an already-invalidated id is a harmless no-op.
    pub fn forget(&mut self, id: u64)
        requires
            old(self)@.wf(),
        ensures
            final(self)@ == old(self)@.forgotten(id),
            final(self)@.wf(),
    {
        let ghost live0 = self@.live;
        let n = self.live_ckpts.len();
        if n > 0 && self.live_ckpts[n - 1] == id {
            self.live_ckpts.pop();
            assert(self@.live =~= live0.drop_last());
            return;
        }
        match self.find_live(id) {
            Some(pos) => {
                proof {
                    assert forall|j: int| 0 <= j < pos implies live0[j] != id by {
                        assert(live0[j] < live0[pos as int]);
                    }
                    lemma_removed_one_at(live0, id, pos as int);
                    lemma_remove_keeps_ascending(live0, pos as int);
                }
                self.live_ckpts.remove(pos);
            },
            None => {},
        }
    }

    /// Pins `id` as the begin point of a live guard, attempt or session point.
    pub fn pin(&mut self, id: u64)
        ensures
            final(self)@ == old(self)@.pinned_with(id),
    {
        self.pinned.push(id);
    }

    /// Reserves the slot [`pin`](Self::pin) is about to push into.
    pub fn reserve_pin(&mut self)
        ensures
            final(self)@ == old(self)@,
    {
        self.pinned.reserve(1);
    }

    /// Removes `id` from the pin set when its guard, attempt, or session point settles.
    pub fn unpin(&mut self, id: u64)
        ensures
            final(self)@ == old(self)@.unpinned(id),
    {
        let ghost p0 = self@.pinned;
        let n = self.pinned.len();
        if n > 0 && self.pinned[n - 1] == id {
            self.pinned.pop();
            assert(self@.pinned =~= p0.drop_last());
            return;
        }
        let mut i: usize = 0;
        while i < n
            invariant
                n == self.pinned@.len(),
                self.pinned@ == p0,
                self@ == old(self)@,
                p0 == old(self)@.pinned,
                !(p0.len() > 0 && p0.last() == id),
                0 <= i <= n,
                forall|j: int| 0 <= j < i ==> p0[j] != id,
            decreases n - i,
        {
            if self.pinned[i] == id {
                proof {
                    lemma_removed_one_at(p0, id, i as int);
                }
                self.pinned.remove(i);
                return;
            }
            i = i + 1;
        }
        assert(!p0.contains(id));
    }

    /// Whether restoring to `target_id` keeps every pinned checkpoint live: `false` exactly when
    /// the restore would tear a begin point out from under a still-live guard or attempt.
    pub fn restore_preserves_pins(&self, target_id: u64) -> (r: bool)
        requires
            self@.wf(),
        ensures
            r == !self@.restore_invalidates_pin(target_id),
    {
        if !self.contains(target_id) {
            return true;
        }
        let n = self.pinned.len();
        let mut i: usize = 0;
        while i < n
            invariant
                self@.wf(),
                self@.live.contains(target_id),
                n == self.pinned@.len(),
                self.pinned@ == self@.pinned,
                0 <= i <= n,
                forall|j: int|
                    0 <= j < i ==> !(self@.pinned[j] >= target_id && self@.live.contains(
                        #[trigger] self@.pinned[j],
                    )),
            decreases n - i,
        {
            let p = self.pinned[i];
            if p >= target_id && self.contains(p) {
                assert(self@.pinned.contains(p));
                return false;
            }
            i = i + 1;
        }
        proof {
            assert forall|p: u64| #[trigger]
                self@.pinned.contains(p) && p >= target_id implies !self@.live.contains(p) by {
                let k = choose|k: int| 0 <= k < self@.pinned.len() && self@.pinned[k] == p;
            }
        }
        true
    }

    /// Hands out the next input-global savepoint sequence number. Never wraps.
    pub fn next_savepoint_seq(&mut self) -> (seq: u64)
        requires
            old(self)@.savepoint_seq < u64::MAX,
        ensures
            seq == old(self)@.savepoint_seq,
            final(self)@ == (LineageModel {
                savepoint_seq: (old(self)@.savepoint_seq + 1) as u64,
                ..old(self)@
            }),
    {
        let seq = self.savepoint_seq;
        self.savepoint_seq = seq + 1;
        seq
    }

    /// The number of live checkpoints.
    pub fn live_len(&self) -> (r: usize)
        ensures
            r == self@.live.len(),
    {
        self.live_ckpts.len()
    }

    /// The number of pinned checkpoints.
    pub fn pinned_len(&self) -> (r: usize)
        ensures
            r == self@.pinned.len(),
    {
        self.pinned.len()
    }
}

/// Opening a checkpoint keeps the lineage well formed and hands out an id that is fresh: it was
/// not live, and it is younger than every live checkpoint.
pub proof fn law_open_is_fresh(l: LineageModel)
    requires
        l.wf(),
        l.next_id < u64::MAX,
    ensures
        l.opened().wf(),
        !l.live.contains(l.next_id),
        forall|i: int| 0 <= i < l.live.len() ==> l.live[i] < l.next_id,
        l.opened().live.contains(l.next_id),
{
    let o = l.opened();
    assert(o.live[l.live.len() as int] == l.next_id);
}

/// Saving and then restoring to that save returns the live stack to what it was before the save.
pub proof fn law_open_then_pop_through_restores(l: LineageModel)
    requires
        l.wf(),
        l.next_id < u64::MAX,
    ensures
        l.opened().popped_through(l.next_id).live == l.live,
{
    let o = l.opened();
    law_open_is_fresh(l);
    let k = o.live.index_of(l.next_id);
    lemma_ascending_unique_index(o.live, k, l.live.len() as int);
    assert(o.live.take(k) =~= l.live);
}

/// A restore to a live `id` invalidates exactly `id` and every younger checkpoint: afterwards a
/// checkpoint is live iff it was live and older than `id`.
pub proof fn law_pop_through_invalidates_exactly_the_younger(l: LineageModel, id: u64, x: u64)
    requires
        l.wf(),
        l.live.contains(id),
    ensures
        l.popped_through(id).live.contains(x) <==> (l.live.contains(x) && x < id),
        l.popped_through(id).wf(),
{
    let k = l.live.index_of(id);
    let p = l.popped_through(id).live;
    assert(p =~= l.live.take(k));
    if p.contains(x) {
        let i = choose|i: int| 0 <= i < p.len() && p[i] == x;
        assert(l.live[i] < l.live[k]);
    }
    if l.live.contains(x) && x < id {
        let i = choose|i: int| 0 <= i < l.live.len() && l.live[i] == x;
        if i >= k {
            if i > k {
                assert(l.live[k] < l.live[i]);
            }
        }
        assert(p[i] == x);
    }
}

/// Keeping (forgetting) a checkpoint removes it and only it from the live stack.
pub proof fn law_forget_removes_only_that_checkpoint(l: LineageModel, id: u64, x: u64)
    requires
        l.wf(),
    ensures
        l.forgotten(id).live.contains(x) <==> (l.live.contains(x) && x != id),
{
    let s = l.live;
    let r = l.forgotten(id).live;
    if s.len() > 0 && s.last() == id {
        assert(r =~= s.drop_last());
        if s.contains(x) && x != id {
            let i = choose|i: int| 0 <= i < s.len() && s[i] == x;
            assert(i != s.len() - 1);
            assert(r[i] == x);
        }
        if r.contains(x) {
            let i = choose|i: int| 0 <= i < r.len() && r[i] == x;
            assert(s[i] < s[s.len() - 1]);
        }
    } else if s.contains(id) {
        let k = first_index(s, id);
        assert(r =~= s.remove(k));
        if s.contains(x) && x != id {
            let i = choose|i: int| 0 <= i < s.len() && s[i] == x;
            if i < k {
                assert(r[i] == x);
            } else {
                assert(i != k);
                assert(r[i - 1] == x);
            }
        }
        if r.contains(x) {
            let i = choose|i: int| 0 <= i < r.len() && r[i] == x;
            let ii = if i < k { i } else { i + 1 };
            assert(s[ii] == x);
            if x == id {
                lemma_ascending_unique_index(s, ii, k);
            }
        }
    }
}

/// Pinning a begin point and then unpinning it leaves the pin set as it was.
pub proof fn law_pin_then_unpin_restores(l: LineageModel, id: u64)
    ensures
        l.pinned_with(id).unpinned(id) == l,
{
    let p = l.pinned_with(id).pinned;
    assert(p.last() == id);
    assert(p.drop_last() =~= l.pinned);
}

} // verus!
