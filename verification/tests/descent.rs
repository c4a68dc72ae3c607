//! The recursion budget as a parser meets it: the scoped form and the guard form hold a level for
//! a whole frame, nest one level per frame, and report the same trip.

use std::sync::atomic::{AtomicUsize, Ordering};
use tokora::emitter::Emitter;
use tokora::input::{Cache, Input, InputContext, InputRef};
use tokora::recursion::{RecursionLimitReached, RecursionLimiter};
use tokora::token_limiter::{TokenLimitExceeded, TokenLimiter};

const LIMIT: usize = 8;
const CALLS: usize = 200;
const TRIP_DEPTH: usize = LIMIT + 1;

#[derive(Debug, Clone, PartialEq, Eq)]
enum ProbeErr {
    Lex,
    Trip { at: usize, depth: usize, limitation: usize },
}

impl From<TokenLimitExceeded> for ProbeErr {
    fn from(_: TokenLimitExceeded) -> Self {
        ProbeErr::Lex
    }
}

impl From<RecursionLimitReached> for ProbeErr {
    fn from(e: RecursionLimitReached) -> Self {
        ProbeErr::Trip { at: e.offset(), depth: e.depth(), limitation: e.limitation() }
    }
}

#[derive(Debug, Clone, PartialEq, Eq)]
struct FrameErr(usize);

impl From<RecursionLimitReached> for FrameErr {
    fn from(e: RecursionLimitReached) -> Self {
        FrameErr(e.depth())
    }
}

type Frame<'a> = InputRef<'a, ProbeErr>;

fn with_budget<O>(f: impl FnOnce(&mut Frame<'_>) -> O) -> O {
    let mut input = Input::<ProbeErr>::with_state_and_context(
        "1",
        TokenLimiter::unlimited(),
        InputContext::new(Emitter::fatal(), Cache::default())
            .with_recursion_limiter(RecursionLimiter::with_limitation(LIMIT)),
    );
    let mut inp = input.as_ref();
    f(&mut inp)
}

/// The scoped form: the level is this call's for exactly the closure's extent.
fn scoped(inp: &mut Frame<'_>, remaining: usize) -> Result<usize, ProbeErr> {
    inp.descending(|inp| match remaining {
        0 => Ok(inp.recursion().depth()),
        n => scoped(inp, n - 1),
    })
}

/// The guard form: the frame's level is held until the frame gives it back.
fn bound_guard(inp: &mut Frame<'_>, remaining: usize) -> Result<usize, ProbeErr> {
    let frame = inp.descend()?;
    let out = match remaining {
        0 => Ok(frame.input.recursion().depth()),
        n => bound_guard(&mut *frame.input, n - 1),
    };
    frame.ascend();
    out
}

#[test]
fn descending_holds_the_bound_through_two_hundred_calls() {
    let out = with_budget(|inp| scoped(inp, CALLS));
    assert_eq!(
        out,
        Err(ProbeErr::Trip { at: 0, depth: TRIP_DEPTH, limitation: LIMIT }),
        "the scoped form must stop at the budget; an `Ok` here means the level was released early"
    );
}

#[test]
fn the_bound_guard_form_holds_the_bound_too() {
    let out = with_budget(|inp| bound_guard(inp, CALLS));
    assert_eq!(out, Err(ProbeErr::Trip { at: 0, depth: TRIP_DEPTH, limitation: LIMIT }));
}

static SEEN: AtomicUsize = AtomicUsize::new(0);

fn ladder(inp: &mut Frame<'_>, remaining: usize) -> Result<(), ProbeErr> {
    inp.descending(|inp| {
        let depth = inp.recursion().depth();
        SEEN.fetch_max(depth, Ordering::Relaxed);
        match remaining {
            0 => Ok(()),
            n => {
                ladder(inp, n - 1)?;
                assert_eq!(inp.recursion().depth(), depth, "the level outlived the recursion below it");
                Ok(())
            }
        }
    })
}

/// One level per live frame, and the cell returns to zero.
#[test]
fn descending_nests_one_level_per_frame_and_returns_to_zero() {
    with_budget(|inp| {
        assert_eq!(ladder(inp, 4), Ok(()));
        assert_eq!(inp.recursion().depth(), 0, "every level entered was left");
    });
    assert_eq!(SEEN.load(Ordering::Relaxed), 5, "five frames, five levels");
}

fn trip_through_descending(inp: &mut Frame<'_>, remaining: usize) -> Result<(), ProbeErr> {
    inp.descending(|inp| match remaining {
        0 => Ok(()),
        n => trip_through_descending(inp, n - 1),
    })
}

fn trip_through_descend(inp: &mut Frame<'_>, remaining: usize) -> Result<(), ProbeErr> {
    let frame = inp.descend()?;
    let out = match remaining {
        0 => Ok(()),
        n => trip_through_descend(&mut *frame.input, n - 1),
    };
    frame.ascend();
    out
}

/// `descending` and `descend` report the same trip.
#[test]
fn descending_and_descend_report_the_same_trip() {
    let a = with_budget(|inp| trip_through_descending(inp, CALLS));
    let b = with_budget(|inp| trip_through_descend(inp, CALLS));
    assert_eq!(a, b, "the two spellings must not drift apart");
    assert!(matches!(a, Err(ProbeErr::Trip { .. })));
}

fn frame(inp: &mut Frame<'_>, remaining: usize) -> Result<usize, FrameErr> {
    inp.descending(|inp| match remaining {
        0 => Ok(inp.recursion().depth()),
        n => frame(inp, n - 1),
    })
}

/// The trip is returned, not emitted, so it is built as the frame's own error.
#[test]
fn descending_builds_the_trip_as_the_frames_own_error() {
    assert_eq!(with_budget(|inp| frame(inp, CALLS)), Err(FrameErr(TRIP_DEPTH)));
}

/// A guard whose level is never given back holds it for the rest of the parse.
#[test]
fn a_leaked_guard_holds_its_level_for_the_rest_of_the_parse() {
    with_budget(|inp| {
        assert_eq!(inp.recursion().depth(), 0, "nothing is descended yet");
        {
            let _frame = inp.descend().expect("one level fits under the budget");
        }
        assert_eq!(inp.recursion().depth(), 1, "the level survives the scope it was taken in");
        assert_eq!(
            scoped(inp, CALLS),
            Err(ProbeErr::Trip { at: 0, depth: TRIP_DEPTH, limitation: LIMIT }),
            "the parse continues and trips having descended one frame fewer"
        );
        assert_eq!(inp.recursion().depth(), 1, "and it is still held after the trip");
    });
}

#[test]
fn a_trip_is_counted_and_seen_by_the_attempt_witness() {
    with_budget(|inp| {
        let before = inp.trip_snapshot();
        assert!(!inp.tripped_during_attempt(before));
        let _ = scoped(inp, CALLS);
        assert!(inp.tripped_during_attempt(before), "the refused level moved the counter");
        let after = inp.trip_snapshot();
        assert!(!inp.tripped_during_attempt(after));
    });
}
