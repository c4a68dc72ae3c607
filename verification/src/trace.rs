//! The bounded preview a trace line shows of the input ahead: a rendering is written into a sink
//! that keeps at most [`PREVIEW_WINDOW`] characters and refuses the rest, so a long input costs
//! no more than the window to preview.
use vstd::prelude::*;
use vstd::string::*;

verus! {

/// How many characters a preview keeps.
pub const PREVIEW_WINDOW: usize = 24;

/// How a bounded rendering ended.
#[derive(Debug, Clone, Copy, PartialEq, Eq, Structural)]
pub enum BoundedDebugOutcome {
    /// The whole rendering fit in the window.
    Complete,
    /// The rendering was cut at the window.
    WindowTruncated,
    /// The renderer failed for a reason of its own, inside the window.
    FormatFailed,
}

/// What a sink that holds `kept` (and was truncated, when `truncated`) holds after a write of
/// `s`: as much of `s` as the window has room for, truncated once a character did not fit.
pub open spec fn write_into(kept: Seq<char>, truncated: bool, s: Seq<char>) -> (Seq<char>, bool) {
    let room = PREVIEW_WINDOW - kept.len();
    if s.len() <= room {
        (kept + s, truncated)
    } else {
        (kept + s.take(room), true)
    }
}

/// What a fresh sink holds after the writes of `pieces`, in order.
pub open spec fn written(pieces: Seq<Seq<char>>) -> (Seq<char>, bool)
    decreases pieces.len(),
{
    if pieces.len() == 0 {
        (Seq::empty(), false)
    } else {
        let (kept, truncated) = written(pieces.drop_last());
        write_into(kept, truncated, pieces.last())
    }
}

/// The rendering the writes of `pieces` make up.
pub open spec fn joined(pieces: Seq<Seq<char>>) -> Seq<char>
    decreases pieces.len(),
{
    if pieces.len() == 0 {
        Seq::empty()
    } else {
        joined(pieces.drop_last()) + pieces.last()
    }
}

/// A bounded preview of a rendering, however it was cut into writes, is its first
/// [`PREVIEW_WINDOW`] characters, and it is truncated exactly when the rendering is longer.
pub proof fn law_a_preview_is_the_rendering_s_first_window(pieces: Seq<Seq<char>>)
    ensures
        written(pieces).0 == joined(pieces).take(
            if joined(pieces).len() <= PREVIEW_WINDOW { joined(pieces).len() as int } else { PREVIEW_WINDOW as int },
        ),
        written(pieces).1 == (joined(pieces).len() > PREVIEW_WINDOW),
    decreases pieces.len(),
{
    if pieces.len() > 0 {
        let rest = pieces.drop_last();
        law_a_preview_is_the_rendering_s_first_window(rest);
        let j0 = joined(rest);
        let j = joined(pieces);
        let s = pieces.last();
        assert(j == j0 + s);
        let (kept, truncated) = written(rest);
        let room = PREVIEW_WINDOW - kept.len();
        if j0.len() > PREVIEW_WINDOW {
            assert(kept.len() == PREVIEW_WINDOW);
            assert(j.take(PREVIEW_WINDOW as int) =~= j0.take(PREVIEW_WINDOW as int));
            if s.len() <= room {
                assert(s.len() == 0);
                assert(kept + s =~= kept);
            } else {
                assert(kept + s.take(room) =~= kept);
            }
        } else {
            assert(kept =~= j0);
            if s.len() <= room {
                assert(j.take(j.len() as int) =~= kept + s);
            } else {
                assert(j.take(PREVIEW_WINDOW as int) =~= kept + s.take(room));
            }
        }
    }
}

/// A sink that keeps the first [`PREVIEW_WINDOW`] characters written into it and refuses the
/// first one past them. It remembers, as ghost state, every piece written into it.
pub struct PreviewSink {
    prefix: Vec<char>,
    truncated: bool,
    pieces: Ghost<Seq<Seq<char>>>,
}

impl PreviewSink {
    /// The characters kept so far.
    pub closed spec fn spec_prefix(&self) -> Seq<char> {
        self.prefix@
    }

    /// Whether a character was refused.
    pub closed spec fn spec_truncated(&self) -> bool {
        self.truncated
    }

    /// The pieces written so far, in order.
    pub closed spec fn spec_pieces(&self) -> Seq<Seq<char>> {
        self.pieces@
    }

    /// What every sink holds: what its writes left in it.
    #[verifier::type_invariant]
    closed spec fn holds_its_writes(&self) -> bool {
        (self.prefix@, self.truncated) == written(self.pieces@)
    }

    /// The sink invariant: never more than the window.
    pub open spec fn wf(&self) -> bool {
        self.spec_prefix().len() <= PREVIEW_WINDOW
    }

    /// An empty sink.
    pub fn new() -> (r: Self)
        ensures
            r.spec_prefix() == Seq::<char>::empty(),
            !r.spec_truncated(),
            r.spec_pieces() == Seq::<Seq<char>>::empty(),
            r.wf(),
    {
        PreviewSink { prefix: Vec::new(), truncated: false, pieces: Ghost(Seq::empty()) }
    }

    /// Writes `s`: its characters are kept while the window has room; the first that does not
    /// fit marks the sink truncated and fails the write.
    pub fn write_str(&mut self, s: &str) -> (r: Result<(), ()>)
        requires
            old(self).wf(),
        ensures
            final(self).wf(),
            final(self).spec_pieces() == old(self).spec_pieces().push(s@),
            (final(self).spec_prefix(), final(self).spec_truncated()) == write_into(
                old(self).spec_prefix(),
                old(self).spec_truncated(),
                s@,
            ),
            ({
                let room = PREVIEW_WINDOW - old(self).spec_prefix().len();
                if s@.len() <= room {
                    &&& r is Ok
                    &&& final(self).spec_prefix() == old(self).spec_prefix() + s@
                    &&& final(self).spec_truncated() == old(self).spec_truncated()
                } else {
                    &&& r is Err
                    &&& final(self).spec_prefix() == old(self).spec_prefix() + s@.take(room)
                    &&& final(self).spec_truncated()
                }
            }),
    {
        proof {
            use_type_invariant(&*self);
        }
        let ghost pieces0 = self.pieces@;
        let ghost p0 = self.prefix@;
        let truncated0 = self.truncated;
        let mut kept: Vec<char> = Vec::new();
        let mut j: usize = 0;
        while j < self.prefix.len()
            invariant
                j <= self.prefix@.len(),
                kept@ == self.prefix@.take(j as int),
            decreases self.prefix@.len() - j,
        {
            kept.push(self.prefix[j]);
            j = j + 1;
            proof {
                assert(kept@ =~= self.prefix@.take(j as int));
            }
        }
        proof {
            assert(kept@ =~= p0);
        }
        let n = s.unicode_len();
        let mut i: usize = 0;
        let mut refused = false;
        while i < n
            invariant_except_break
                !refused,
            invariant
                n == s@.len(),
                i <= n,
                p0 == old(self).spec_prefix(),
                p0.len() <= PREVIEW_WINDOW,
                kept@ == p0 + s@.take(i as int),
                kept@.len() <= PREVIEW_WINDOW,
            ensures
                refused ==> kept@.len() == PREVIEW_WINDOW && i < n,
                !refused ==> i == n,
            decreases n - i,
        {
            if kept.len() == PREVIEW_WINDOW {
                refused = true;
                break;
            }
            let c = s.get_char(i);
            kept.push(c);
            i = i + 1;
            proof {
                assert(s@.take(i as int) =~= s@.take((i - 1) as int).push(c));
            }
        }
        proof {
            assert(s@.take(n as int) =~= s@);
            let pieces1 = pieces0.push(s@);
            assert(pieces1.drop_last() =~= pieces0);
            if refused {
                assert(i == PREVIEW_WINDOW - p0.len());
            }
        }
        *self = PreviewSink { prefix: kept, truncated: truncated0 || refused, pieces: Ghost(pieces0.push(s@)) };
        if refused {
            Err(())
        } else {
            Ok(())
        }
    }

    /// The characters kept.
    pub fn prefix(&self) -> (r: Vec<char>)
        ensures
            r@ == self.spec_prefix(),
    {
        self.prefix.clone()
    }

    /// Whether a character was refused.
    pub fn is_truncated(&self) -> (r: bool)
        ensures
            r == self.spec_truncated(),
    {
        self.truncated
    }
}

/// The writes a sink takes never leave more than the window in it.
proof fn lemma_written_fits(pieces: Seq<Seq<char>>)
    ensures
        written(pieces).0.len() <= PREVIEW_WINDOW,
    decreases pieces.len(),
{
    if pieces.len() > 0 {
        lemma_written_fits(pieces.drop_last());
    }
}

/// How a rendering that reported `wrote_fully` into a sink that ended `truncated` is classified:
/// a refused character wins, whatever the renderer said after it.
pub open spec fn outcome_of(truncated: bool, wrote_fully: bool) -> BoundedDebugOutcome {
    if truncated {
        BoundedDebugOutcome::WindowTruncated
    } else if wrote_fully {
        BoundedDebugOutcome::Complete
    } else {
        BoundedDebugOutcome::FormatFailed
    }
}

/// A rendering counts as complete exactly when nothing was refused and the renderer reported
/// success, as cut exactly when a character was refused (whatever the renderer said), and as
/// failed exactly when nothing was refused but the renderer reported failure.
pub proof fn law_a_preview_outcome_tells_cut_from_failed(truncated: bool, wrote_fully: bool)
    ensures
        outcome_of(truncated, wrote_fully) == BoundedDebugOutcome::Complete <==> !truncated && wrote_fully,
        outcome_of(truncated, wrote_fully) == BoundedDebugOutcome::WindowTruncated <==> truncated,
        outcome_of(truncated, wrote_fully) == BoundedDebugOutcome::FormatFailed <==> !truncated && !wrote_fully,
{
}

/// The first [`PREVIEW_WINDOW`] characters of `s`, or all of them when it is shorter.
pub open spec fn first_window(s: Seq<char>) -> Seq<char> {
    if s.len() <= PREVIEW_WINDOW { s } else { s.take(PREVIEW_WINDOW as int) }
}

/// Renders through `render` into a fresh preview sink: the kept characters and how the
/// rendering ended. `render` answers whether it wrote fully. What comes back is the first
/// [`PREVIEW_WINDOW`] characters of everything the renderer wrote, and the window counts as cut
/// exactly when the renderer wrote more than that.
pub fn bounded_debug<F>(render: F) -> (r: (Vec<char>, BoundedDebugOutcome))
    where F: FnOnce(&mut PreviewSink) -> bool
    requires
        forall|s: &mut PreviewSink| #![trigger call_requires(render, (s,))] mut_ref_current(s).wf() ==> call_requires(render, (s,)),
    ensures
        exists|s: &mut PreviewSink, wrote: bool|
            #![trigger call_ensures(render, (s,), wrote)]
            call_ensures(render, (s,), wrote) && mut_ref_current(s).spec_prefix() == Seq::<char>::empty()
                && !mut_ref_current(s).spec_truncated() && mut_ref_current(s).spec_pieces() == Seq::<
                Seq<char>,
            >::empty() && r.0@ == mut_ref_future(s).spec_prefix() && r.1 == outcome_of(
                mut_ref_future(s).spec_truncated(),
                wrote,
            ) && r.0@ == first_window(joined(mut_ref_future(s).spec_pieces())) && r.1 == outcome_of(
                joined(mut_ref_future(s).spec_pieces()).len() > PREVIEW_WINDOW,
                wrote,
            ),
{
    let mut sink = PreviewSink::new();
    let wrote_fully = render(&mut sink);
    proof {
        use_type_invariant(&sink);
        lemma_written_fits(sink.spec_pieces());
        law_a_preview_is_the_rendering_s_first_window(sink.spec_pieces());
    }
    let outcome = if sink.is_truncated() {
        BoundedDebugOutcome::WindowTruncated
    } else if wrote_fully {
        BoundedDebugOutcome::Complete
    } else {
        BoundedDebugOutcome::FormatFailed
    };
    (sink.prefix(), outcome)
}

/// What a trace line appends after a preview window ended with `outcome`: nothing when the
/// rendering was complete, an ellipsis when the window cut it, a failure marker when the renderer
/// failed on its own account.
pub open spec fn preview_suffix(outcome: BoundedDebugOutcome) -> Seq<char> {
    match outcome {
        BoundedDebugOutcome::Complete => Seq::empty(),
        BoundedDebugOutcome::WindowTruncated => seq!['\u{2026}'],
        BoundedDebugOutcome::FormatFailed => seq![' ', '<', 'f', 'm', 't', ' ', 'e', 'r', 'r', 'o', 'r', '>'],
    }
}

/// The preview a trace line shows: the kept window, then the suffix its outcome calls for.
pub fn finish_preview(window: Vec<char>, outcome: BoundedDebugOutcome) -> (r: Vec<char>)
    ensures
        r@ == window@ + preview_suffix(outcome),
{
    let mut out = window;
    match outcome {
        BoundedDebugOutcome::Complete => {},
        BoundedDebugOutcome::WindowTruncated => {
            out.push('\u{2026}');
        },
        BoundedDebugOutcome::FormatFailed => {
            let marker = [' ', '<', 'f', 'm', 't', ' ', 'e', 'r', 'r', 'o', 'r', '>'];
            let mut i: usize = 0;
            let ghost w0 = out@;
            while i < 12
                invariant
                    i <= 12,
                    marker@ == preview_suffix(outcome),
                    out@ == w0 + marker@.take(i as int),
                decreases 12 - i,
            {
                out.push(marker[i]);
                i = i + 1;
                proof {
                    assert(out@ =~= w0 + marker@.take(i as int));
                }
            }
            proof {
                assert(marker@.take(12) =~= marker@);
            }
        },
    }
    proof {
        if outcome == BoundedDebugOutcome::Complete {
            assert(out@ =~= window@ + preview_suffix(outcome));
        }
    }
    out
}

} // verus!
