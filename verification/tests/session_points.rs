//! Session points: named, non-lexical speculation over real token consumption. Every rollback is
//! watched to put the tokens back.

use tokora::drop_policy::Commit;
use tokora::emitter::Emitter;
use tokora::error::UnexpectedEot;
use tokora::input::transaction::ParseAttempt;
use tokora::input::{Cache, Input, InputContext, InputRef, SessionPointId};
use tokora::span::{SimpleSpan, Spanned};
use tokora::token_limiter::{TokenLimitExceeded, TokenLimiter};

#[derive(Debug, Clone, PartialEq)]
enum NumErr {
    Lex,
    Limit,
}

impl From<TokenLimitExceeded> for NumErr {
    fn from(_: TokenLimitExceeded) -> Self {
        NumErr::Limit
    }
}

impl From<UnexpectedEot> for NumErr {
    fn from(_: UnexpectedEot) -> Self {
        NumErr::Lex
    }
}

fn silent_input(src: &str) -> Input<NumErr> {
    Input::with_state_and_context(
        src,
        TokenLimiter::with_limitation(usize::MAX),
        InputContext::new(Emitter::silent(), Cache::default()),
    )
}

fn verbose_input(src: &str) -> Input<NumErr> {
    Input::with_state_and_context(
        src,
        TokenLimiter::with_limitation(usize::MAX),
        InputContext::new(Emitter::verbose(), Cache::default()),
    )
}

/// Emits an application diagnostic through the input's emitter.
fn emit(ir: &mut InputRef<'_, NumErr>, at: usize, err: NumErr) {
    ir.emit_error(Spanned::new(SimpleSpan::new(at, at + 1), err)).expect("a verbose emitter is non-fatal");
}

/// The number of diagnostics currently retained by the input's emitter.
fn diag_count(ir: &InputRef<'_, NumErr>) -> usize {
    ir.emitter_ref().len()
}

/// Consumes one token, asserting it is there, and returns its source text.
fn take(ir: &mut InputRef<'_, NumErr>) -> Vec<u8> {
    ir.next().expect("complete + non-fatal").expect("a token is there");
    ir.slice()
}

#[test]
fn session_point_commit_keeps_consumed_tokens() {
    let mut input = verbose_input("1 2 3 4");
    let mut ir = input.as_ref();

    let point = ir.begin_point();
    assert_eq!(ir.points(), 1, "the point is live");

    assert_eq!(take(&mut ir), b"1");
    assert_eq!(take(&mut ir), b"2");
    let after_two = ir.cursor();
    emit(&mut ir, 0, NumErr::Lex);

    ir.commit_point(point);
    assert_eq!(ir.points(), 0, "the point settled");
    assert_eq!(ir.cursor(), after_two, "commit keeps the consumed tokens: the cursor stays past `2`");
    assert_eq!(diag_count(&ir), 1, "commit keeps the emitted diagnostic");
    assert_eq!(take(&mut ir), b"3", "the next token is the one after `2`");
}

#[test]
fn session_point_rollback_puts_the_tokens_back() {
    let mut input = verbose_input("1 2 3 4");
    let mut ir = input.as_ref();

    assert_eq!(take(&mut ir), b"1", "committed work before the session");
    let mark = ir.cursor();

    let point = ir.begin_point();
    assert_eq!(take(&mut ir), b"2");
    emit(&mut ir, 2, NumErr::Lex);
    assert_eq!(take(&mut ir), b"3");
    assert_eq!(diag_count(&ir), 1, "a speculative diagnostic");
    assert_ne!(ir.cursor(), mark, "the session moved the cursor");

    ir.rollback_point(point);
    assert_eq!(ir.points(), 0, "the point settled");
    assert_eq!(ir.cursor(), mark, "rollback returned the cursor to the mark");
    assert_eq!(diag_count(&ir), 0, "rollback dropped the speculative diagnostic");
    assert_eq!(take(&mut ir), b"2", "the rewound token re-lexes");
    assert_eq!(take(&mut ir), b"3");
    assert_eq!(take(&mut ir), b"4");
    assert!(ir.next().expect("complete + non-fatal").is_none(), "and then the stream ends");
}

#[test]
fn session_points_nest_lifo() {
    let mut input = verbose_input("1 2 3 4 5");
    let mut ir = input.as_ref();

    assert_eq!(take(&mut ir), b"1");
    let at1 = ir.cursor();
    let p1 = ir.begin_point();

    assert_eq!(take(&mut ir), b"2");
    let p2 = ir.begin_point();

    assert_eq!(take(&mut ir), b"3");
    let at3 = ir.cursor();
    let p3 = ir.begin_point();

    assert_eq!(take(&mut ir), b"4");
    assert_eq!(ir.points(), 3, "three live points");

    ir.rollback_point(p3);
    assert_eq!(ir.points(), 2);
    assert_eq!(ir.cursor(), at3, "rolled back to the newest point's mark");

    ir.commit_point(p2);
    assert_eq!(ir.points(), 1);
    assert_eq!(ir.cursor(), at3, "commit keeps the current position");

    ir.rollback_point(p1);
    assert_eq!(ir.points(), 0);
    assert_eq!(ir.cursor(), at1, "rolled back to the oldest point's mark");
    assert_eq!(take(&mut ir), b"2", "and the stream replays from there");
}

#[test]
fn a_reissued_point_never_reuses_a_settled_point_s_identity() {
    let mut input = silent_input("1 2 3 4");
    let mut ir = input.as_ref();

    let first = ir.begin_point();
    ir.commit_point(first);
    let second = ir.begin_point();
    assert_ne!(first, second, "a reopened point at the same depth is a distinct identity");
    ir.commit_point(second);
    assert_eq!(ir.points(), 0);
}

/// Settles `point` behind a plain `&mut` reborrow of the handle.
fn settle_behind_a_reborrow(ir: &mut InputRef<'_, NumErr>, point: SessionPointId) {
    ir.commit_point(point);
}

/// Settles `point` on a handle moved into this frame.
fn settle_on_a_moved_handle(mut ir: InputRef<'_, NumErr>, point: SessionPointId) {
    ir.commit_point(point);
    ir.close();
}

#[test]
fn a_point_settles_across_the_handle_s_reborrows() {
    let mut input = verbose_input("1 2 3 4 5 6");
    let mut ir = input.as_ref();

    // (a) A `&mut` reborrow into a nested parser, with the id handed along beside it.
    let reborrowed = ir.begin_point();
    assert_eq!(take(&mut ir), b"1");
    settle_behind_a_reborrow(&mut ir, reborrowed);
    assert_eq!(ir.points(), 0, "the settle behind a reborrow was honored");

    // (b) Opened and settled through a guard, which reaches the same handle.
    {
        let guard = ir.begin();
        let through_guard = guard.input.begin_point();
        assert_eq!(take(guard.input), b"2");
        guard.input.commit_point(through_guard);
        guard.commit();
    }
    assert_eq!(ir.points(), 0, "the settle through a guard was honored");

    // (c) Held across an `attempt`, whose closure receives the handle reborrowed.
    let across = ir.begin_point();
    let attempted: Option<()> = ir.attempt(|ir| {
        assert_eq!(take(ir), b"3");
        Some(())
    });
    assert!(attempted.is_some(), "the attempt kept its progress");
    ir.commit_point(across);
    assert_eq!(ir.points(), 0, "the settle across an attempt was honored");
}

#[test]
fn a_point_settles_on_a_handle_that_moved() {
    let mut input = verbose_input("1 2 3");
    {
        let mut ir = input.as_ref();
        let point = ir.begin_point();
        assert_eq!(take(&mut ir), b"1");
        settle_on_a_moved_handle(ir, point);
    }
    assert_eq!(input.pinned_checkpoints_len(), 0, "the commit through the moved handle released the point's pin");
    assert_eq!(input.live_checkpoints_len(), 0, "…and its live-checkpoint lineage entry");
}

/// A guard settled undecided under the default rolling-back policy reconciles the points
/// opened inside it.
#[test]
fn guard_drop_rollback_reconciles_the_open_session_point() {
    let mut input = silent_input("1 2 3 4 5");
    {
        let mut ir = input.as_ref();
        let _ = ir.next().unwrap().expect("committed work before the guard");
        let before = ir.cursor();
        let baseline = ir.live_checkpoints_len();

        {
            let guard = ir.begin();
            let _point = guard.input.begin_point();
            let _ = guard.input.next().unwrap().expect("speculative work through the point");
            // …and the guard is settled undecided: its policy rolls back, below the open point.
            guard.finish();
        }

        assert_eq!(ir.points(), 0, "the rollback abandoned the point it invalidated");
        assert_eq!(ir.live_checkpoints_len(), baseline, "…and released its lineage entry");
        assert_eq!(ir.cursor(), before, "the guard still rolled back to its own base");
        ir.close();
    }
    assert_eq!(input.pinned_checkpoints_len(), 0, "…and its pin: the pin set holds exactly the live begin points");
}

#[test]
fn the_explicit_reconciling_rollback_abandons_the_open_session_point() {
    let mut input = silent_input("1 2 3 4 5");
    {
        let mut ir = input.as_ref();
        let _ = ir.next().unwrap().expect("committed work before the guard");
        let before = ir.cursor();
        let baseline = ir.live_checkpoints_len();

        {
            let guard = ir.begin_with::<Commit>();
            let _point = guard.input.begin_point();
            let _ = guard.input.next().unwrap().expect("speculative work through the point");
            guard.rollback_abandoning_points();
        }

        assert_eq!(ir.points(), 0, "the explicit reconciling rollback abandoned the point it invalidated");
        assert_eq!(ir.live_checkpoints_len(), baseline, "…and released its lineage entry");
        assert_eq!(ir.cursor(), before, "…and still rolled back to the guard's own base");
        ir.close();
    }
    assert_eq!(input.pinned_checkpoints_len(), 0, "…and its pin");
}

#[test]
fn attempt_declining_across_an_abandoned_point_reconciles() {
    let mut input = silent_input("1 2 3 4 5");
    {
        let mut ir = input.as_ref();
        let _ = ir.next().unwrap().expect("committed work before the attempt");
        let before = ir.cursor();
        let baseline = ir.live_checkpoints_len();

        let declined: Option<()> = ir.attempt(|ir| {
            let _point = ir.begin_point();
            let _ = ir.next().unwrap().expect("speculative work through the point");
            None
        });

        assert!(declined.is_none(), "the closure declined");
        assert_eq!(ir.points(), 0, "the decline reconciled the point the closure abandoned");
        assert_eq!(ir.live_checkpoints_len(), baseline, "…and released its lineage entry");
        assert_eq!(ir.cursor(), before, "…and still rolled back to the attempt's own base");
        ir.close();
    }
    assert_eq!(input.pinned_checkpoints_len(), 0, "…and its pin");
}

#[test]
fn try_attempt_erring_across_an_abandoned_point_reconciles() {
    let mut input = silent_input("1 2 3 4 5");
    {
        let mut ir = input.as_ref();
        let _ = ir.next().unwrap().expect("committed work before the attempt");
        let before = ir.cursor();
        let baseline = ir.live_checkpoints_len();

        let erred: Result<(), NumErr> = ir.try_attempt(|ir| {
            let _point = ir.begin_point();
            let _ = ir.next().unwrap().expect("speculative work through the point");
            Err(NumErr::Lex)
        });

        assert_eq!(erred, Err(NumErr::Lex), "the error propagates untouched");
        assert_eq!(ir.points(), 0, "the error arm reconciled the open point");
        assert_eq!(ir.live_checkpoints_len(), baseline, "…and released its lineage entry");
        assert_eq!(ir.cursor(), before, "…and still rolled back to the attempt's own base");
        ir.close();
    }
    assert_eq!(input.pinned_checkpoints_len(), 0, "…and its pin");
}

#[test]
fn attempt_parse_declining_across_an_abandoned_point_reconciles() {
    let mut input = silent_input("1 2 3 4 5");
    {
        let mut ir = input.as_ref();
        let _ = ir.next().unwrap().expect("committed work before the attempt");
        let before = ir.cursor();
        let baseline = ir.live_checkpoints_len();

        let declined: Result<ParseAttempt<()>, NumErr> = ir.attempt_parse(|ir| {
            let _point = ir.begin_point();
            let _ = ir.next().unwrap().expect("speculative work through the point");
            Ok(ParseAttempt::Decline)
        });

        assert!(matches!(declined, Ok(ParseAttempt::Decline)), "the decline is reported in the crate's own vocabulary");
        assert_eq!(ir.points(), 0, "the decline arm reconciled the open point");
        assert_eq!(ir.live_checkpoints_len(), baseline, "…and released its lineage entry");
        assert_eq!(ir.cursor(), before, "…and still rolled back to the attempt's own base");
        ir.close();
    }
    assert_eq!(input.pinned_checkpoints_len(), 0, "…and its pin");
}

#[test]
fn attempt_parse_erring_across_an_abandoned_point_reconciles() {
    let mut input = silent_input("1 2 3 4 5");
    {
        let mut ir = input.as_ref();
        let _ = ir.next().unwrap().expect("committed work before the attempt");
        let before = ir.cursor();
        let baseline = ir.live_checkpoints_len();

        let erred: Result<ParseAttempt<()>, NumErr> = ir.attempt_parse(|ir| {
            let _point = ir.begin_point();
            let _ = ir.next().unwrap().expect("speculative work through the point");
            Err(NumErr::Lex)
        });

        assert_eq!(erred.err(), Some(NumErr::Lex), "the error propagates untouched");
        assert_eq!(ir.points(), 0, "the error arm reconciled the open point");
        assert_eq!(ir.live_checkpoints_len(), baseline, "…and released its lineage entry");
        assert_eq!(ir.cursor(), before, "…and still rolled back to the attempt's own base");
        ir.close();
    }
    assert_eq!(input.pinned_checkpoints_len(), 0, "…and its pin");
}

#[test]
fn attempt_accepting_leaves_the_closure_s_point_open_and_its_progress_kept() {
    let mut input = silent_input("1 2 3 4 5");
    {
        let mut ir = input.as_ref();
        let _ = ir.next().unwrap().expect("committed work before the attempt");

        let point = ir
            .attempt(|ir| {
                let point = ir.begin_point();
                let _ = ir.next().unwrap().expect("kept work through the point");
                Some(point)
            })
            .expect("the closure accepted");

        assert_eq!(ir.points(), 1, "an accepted attempt settles its own base only; the closure's point is still open");
        let after_accept = ir.cursor();
        ir.rollback_point(point);
        assert!(ir.cursor() < after_accept, "…and still settleable: rolling it back put the token back");
        ir.close();
    }
    assert_eq!(input.pinned_checkpoints_len(), 0, "nothing left pinned");
}

#[test]
fn session_depth_accessor() {
    let mut input = silent_input("1 2 3 4");
    let mut ir = input.as_ref();

    assert_eq!(ir.points(), 0, "a fresh reference has no points");
    let outer = ir.begin_point();
    assert_eq!(ir.points(), 1);
    let inner = ir.begin_point();
    assert_eq!(ir.points(), 2, "nesting deepens the stack");
    ir.commit_point(inner);
    assert_eq!(ir.points(), 1, "committing the newest lowers the depth");
    ir.rollback_point(outer);
    assert_eq!(ir.points(), 0, "rolling back the oldest empties the stack");
}

#[test]
fn settled_points_do_not_grow_the_lineage() {
    let mut input = silent_input("1 2 3 4 5 6 7 8");
    let mut ir = input.as_ref();

    for i in 0..4 {
        let point = ir.begin_point();
        let _ = ir.next().unwrap();
        if i % 2 == 0 {
            ir.commit_point(point);
        } else {
            ir.rollback_point(point);
        }
        assert_eq!(ir.live_checkpoints_len(), 0, "a settled session point releases its lineage entry");
    }
    assert_eq!(ir.points(), 0);
}

/// Closing a handle with points still open releases them: the pin set holds exactly the live
/// begin points, and with the handle gone there are none.
#[test]
fn dropping_the_handle_releases_the_open_points() {
    let mut input = silent_input("1 2 3 4 5");
    {
        let mut ir = input.as_ref();
        let _outer = ir.begin_point();
        let _ = ir.next().unwrap().expect("1");
        let _inner = ir.begin_point();
        let _ = ir.next().unwrap().expect("2");
        assert_eq!(ir.points(), 2, "two points are open");
        assert_eq!(ir.live_checkpoints_len(), 2, "each open point holds a live lineage entry");
        ir.close();
    }
    assert_eq!(input.pinned_checkpoints_len(), 0, "an abandoned point releases its pin");
    assert_eq!(input.live_checkpoints_len(), 0, "…and its lineage entry, exactly as a `commit_point` would");
}

/// Closing a handle releases its points' bookkeeping but rewinds nothing.
#[test]
fn dropping_the_handle_keeps_the_progress_of_the_open_points() {
    let mut input = verbose_input("1 2 3 4");
    let after_three;
    {
        let mut ir = input.as_ref();
        assert_eq!(take(&mut ir), b"1", "committed work before the session");
        let _point = ir.begin_point();
        assert_eq!(take(&mut ir), b"2", "speculative work through the point");
        assert_eq!(take(&mut ir), b"3");
        emit(&mut ir, 0, NumErr::Lex);
        after_three = ir.cursor();
        assert_eq!(ir.points(), 1, "the point is still open when the handle closes");
        ir.close();
    }
    {
        let mut ir = input.as_ref();
        assert_eq!(ir.cursor(), after_three, "closing kept the progress: the cursor did NOT rewind");
        assert_eq!(diag_count(&ir), 1, "and kept the diagnostic emitted through it");
        assert_eq!(take(&mut ir), b"4", "the stream resumes past the kept work");
        assert_eq!(ir.points(), 0, "a fresh handle starts with no points");
    }
}

#[test]
fn a_second_handle_rewinds_across_an_abandoned_point() {
    let mut input = silent_input("1 2 3 4 5 6");
    {
        let mut ir = input.as_ref();
        let _ = ir.next().unwrap().expect("1");
        let _point = ir.begin_point();
        let _ = ir.next().unwrap().expect("2");
        ir.close();
    }
    let mut ir = input.as_ref();
    let at = ir.cursor();

    let ckp = ir.save();
    let _ = ir.next().unwrap().expect("3");
    ir.restore(ckp);
    assert_eq!(ir.cursor(), at, "the raw restore rewound");

    let point = ir.begin_point();
    let _ = ir.next().unwrap().expect("3");
    ir.rollback_point(point);
    assert_eq!(ir.cursor(), at, "the new point rolled back");

    assert!(ir
        .attempt(|ir| {
            let _ = ir.next().unwrap();
            None::<()>
        })
        .is_none());
    assert_eq!(ir.cursor(), at, "the declined attempt rewound");
}

#[test]
fn a_rollback_rewinds_the_budget_never() {
    let mut input = Input::<NumErr>::with_state_and_context(
        "1 2 3",
        TokenLimiter::with_limitation(usize::MAX),
        InputContext::new(Emitter::verbose(), Cache::default())
            .with_token_budget(tokora::token_budget::TokenBudget::with_limitation(2)),
    );
    let mut ir = input.as_ref();
    let ckp = ir.save();
    assert!(ir.next().unwrap().is_some());
    assert!(ir.next().unwrap().is_some());
    ir.restore(ckp);
    assert_eq!(ir.token_budget().spent(), 2, "the budget is durable: a rollback refunds nothing");
    assert!(ir.next().unwrap().is_none(), "so the re-lex is refused");
    assert!(ir.token_budget().refused_an_item());
}
