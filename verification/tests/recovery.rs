//! Recovery scans and head reads: where each scan stops, what it reports, and what it leaves
//! behind at the end of input; and the reads that look at the head without consuming it.

use tokora::emitter::{Channel, Emission, Emitter};
use tokora::error::{UnexpectedEot, UnexpectedToken};
use tokora::input::consume::Expect;
use tokora::input::scan::{ScanMode, Scanned};
use tokora::input::{Cache, Input, InputContext};
use tokora::lexer::{Token, TokenKind};
use tokora::span::{SimpleSpan, Spanned};
use tokora::staged_trip::StagedTrip;
use tokora::token_limiter::{TokenLimitExceeded, TokenLimiter};

#[derive(Debug, Clone, Copy, PartialEq, Eq)]
enum RecErr {
    Eot(usize, bool),
    Limit,
    Unexpected(SimpleSpan, TokenKind),
}

impl From<TokenLimitExceeded> for RecErr {
    fn from(_: TokenLimitExceeded) -> Self {
        RecErr::Limit
    }
}

impl From<UnexpectedEot> for RecErr {
    fn from(e: UnexpectedEot) -> Self {
        RecErr::Eot(e.offset(), e.is_terminal())
    }
}

impl From<UnexpectedToken> for RecErr {
    fn from(e: UnexpectedToken) -> Self {
        RecErr::Unexpected(e.span, e.found)
    }
}

fn input(src: &str, emitter: Emitter<RecErr>) -> Input<RecErr> {
    Input::with_state_and_context(
        src,
        TokenLimiter::with_limitation(usize::MAX),
        InputContext::new(emitter, Cache::default()),
    )
}

fn sp(start: usize, end: usize) -> SimpleSpan {
    SimpleSpan::new(start, end)
}

fn unexpected(start: usize, end: usize, kind: TokenKind) -> Emission<RecErr> {
    Emission::Error {
        channel: Channel::UnexpectedToken,
        span: sp(start, end),
        error: RecErr::Unexpected(sp(start, end), kind),
    }
}

fn is_semi(t: &Token) -> bool {
    t.data == TokenKind::Semi
}

#[test]
fn sync_to_stops_before_the_sync_token_and_reports_each_skip() {
    let mut inp = input("a b ; c", Emitter::verbose());
    {
        let mut ir = inp.as_ref();
        assert_eq!(ir.sync_to(is_semi), Ok(Scanned::Found(None)));
        assert_eq!(ir.offset(), 3);
        assert_eq!(ir.next(), Ok(Some(Spanned::new(sp(4, 5), TokenKind::Semi))));
        ir.close();
    }
    assert_eq!(
        inp.emitter().log().clone(),
        vec![unexpected(0, 1, TokenKind::Word), unexpected(2, 3, TokenKind::Word)]
    );
}

#[test]
fn sync_to_at_the_end_of_input_keeps_the_run_committed_at_the_lexer_s_end() {
    let mut inp = input("a b  ", Emitter::verbose());
    {
        let mut ir = inp.as_ref();
        assert_eq!(ir.sync_to(is_semi), Ok(Scanned::Exhausted));
        assert_eq!(ir.offset(), 5);
        assert!(ir.is_exhausted());
        ir.close();
    }
    assert_eq!(inp.emitter().len(), 2);
}

#[test]
fn sync_through_consumes_the_sync_token_and_hands_it_back() {
    let mut inp = input("a ; c", Emitter::verbose());
    {
        let mut ir = inp.as_ref();
        assert_eq!(ir.sync_through(is_semi), Ok(Scanned::Found(Some(Spanned::new(sp(2, 3), TokenKind::Semi)))));
        assert_eq!(ir.offset(), 3);
        assert_eq!(ir.next(), Ok(Some(Spanned::new(sp(4, 5), TokenKind::Word))));
        ir.close();
    }
    assert_eq!(inp.emitter().log().clone(), vec![unexpected(0, 1, TokenKind::Word)]);
}

#[test]
fn sync_through_at_the_end_of_input_leaves_no_trace() {
    let mut inp = input("a b", Emitter::verbose());
    {
        let mut ir = inp.as_ref();
        assert_eq!(ir.sync_through(is_semi), Ok(Scanned::Exhausted));
        assert_eq!(ir.offset(), 0);
        assert_eq!(ir.emitter_ref().len(), 0);
        assert_eq!(ir.next(), Ok(Some(Spanned::new(sp(0, 1), TokenKind::Word))));
        ir.close();
    }
}

#[test]
fn a_balanced_sync_reports_nothing_and_rewinds_at_the_end() {
    let mut inp = input("a b ; c", Emitter::verbose());
    {
        let mut ir = inp.as_ref();
        assert_eq!(ir.skip_until(ScanMode::SyncBalanced, &is_semi), Ok(Scanned::Found(None)));
        assert_eq!(ir.offset(), 3);
        assert_eq!(ir.emitter_ref().len(), 0);
        ir.close();
    }
    let mut inp = input("a b", Emitter::verbose());
    {
        let mut ir = inp.as_ref();
        assert_eq!(ir.skip_until(ScanMode::SyncBalanced, &is_semi), Ok(Scanned::Exhausted));
        assert_eq!(ir.offset(), 0);
        ir.close();
    }
}

#[test]
fn a_fatal_emitter_stops_a_reporting_scan_at_its_first_skip() {
    let mut inp = input("a b ;", Emitter::fatal());
    {
        let mut ir = inp.as_ref();
        assert_eq!(ir.sync_to(is_semi), Err(RecErr::Unexpected(sp(0, 1), TokenKind::Word)));
        assert_eq!(ir.offset(), 1);
        ir.close();
    }
}

#[test]
fn skip_while_passes_the_run_and_stops_before_the_first_token_outside_it() {
    let mut inp = input("~ ~ 7 ~", Emitter::verbose());
    {
        let mut ir = inp.as_ref();
        assert_eq!(ir.skip_while(|t: &Token| t.data == TokenKind::Trivia), Ok(()));
        assert_eq!(ir.offset(), 3);
        assert_eq!(ir.next(), Ok(Some(Spanned::new(sp(4, 5), TokenKind::Num))));
        ir.close();
    }
    assert_eq!(inp.emitter().len(), 0);
}

#[test]
fn the_head_reads_consume_nothing() {
    let mut inp = input("1 a ;", Emitter::verbose());
    let mut ir = inp.as_ref();
    assert_eq!(
        ir.peek(2),
        Ok(vec![Spanned::new(sp(0, 1), TokenKind::Num), Spanned::new(sp(2, 3), TokenKind::Word)])
    );
    assert_eq!(ir.peek_one(), Ok(Some(Spanned::new(sp(0, 1), TokenKind::Num))));
    assert_eq!(ir.peek_kind(), Ok(Some(TokenKind::Num)));
    assert_eq!(ir.head_satisfies(|k: &TokenKind| *k == TokenKind::Num), Ok(true));
    assert_eq!(ir.peek_head_map(|t: Token| t.span.end), Ok(Some(1)));
    assert_eq!(ir.offset(), 0);
    assert_eq!(ir.cursor(), 0);
    assert_eq!(ir.next(), Ok(Some(Spanned::new(sp(0, 1), TokenKind::Num))));
    ir.close();
}

#[test]
fn a_peek_past_the_end_shows_what_there_is() {
    let mut inp = input("1 a", Emitter::verbose());
    let mut ir = inp.as_ref();
    assert_eq!(ir.peek(5).map(|w| w.len()), Ok(2));
    assert_eq!(ir.peek_one(), Ok(Some(Spanned::new(sp(0, 1), TokenKind::Num))));
    ir.close();
    let mut empty = input("   ", Emitter::verbose());
    let mut ir = empty.as_ref();
    assert_eq!(ir.peek_one(), Ok(None));
    assert_eq!(ir.peek_kind(), Ok(None));
    assert_eq!(ir.head_satisfies(|_: &TokenKind| true), Ok(false));
    assert!(ir.is_exhausted());
    ir.close();
}

#[test]
fn expect_map_takes_an_accepted_head_and_leaves_a_declined_one() {
    let mut inp = input("1 a", Emitter::verbose());
    let mut ir = inp.as_ref();
    let num = |t: &Token| -> Result<usize, TokenKind> {
        if t.data == TokenKind::Num { Ok(t.span.start) } else { Err(t.data) }
    };
    assert_eq!(ir.expect_map(&num), Ok(Expect::Taken(0, Spanned::new(sp(0, 1), TokenKind::Num))));
    assert_eq!(ir.offset(), 1);
    assert_eq!(ir.expect_map(&num), Ok(Expect::Left(TokenKind::Word)));
    assert_eq!(ir.offset(), 1);
    assert_eq!(ir.next(), Ok(Some(Spanned::new(sp(2, 3), TokenKind::Word))));
    assert_eq!(ir.expect_map(&num), Ok(Expect::Nothing));
    ir.close();
}

#[test]
fn a_token_limit_trip_is_a_terminal_stop() {
    let mut inp = Input::with_state_and_context(
        "1 2 3",
        TokenLimiter::with_limitation(1),
        InputContext::new(Emitter::<RecErr>::verbose(), Cache::default()),
    );
    {
        let mut ir = inp.as_ref();
        assert_eq!(ir.next(), Ok(Some(Spanned::new(sp(0, 1), TokenKind::Num))));
        // The second token passes the limiter: reported as a lexer error, and the stream is
        // over for good, as a terminal end of input.
        let num = |t: &Token| -> Result<(), ()> { if t.data == TokenKind::Num { Ok(()) } else { Err(()) } };
        assert_eq!(ir.expect_map(&num), Err(RecErr::Eot(1, true)));
        assert_eq!(ir.next(), Ok(None));
        ir.close();
    }
    assert_eq!(
        inp.emitter().log().clone(),
        vec![Emission::Error { channel: Channel::Lexer, span: sp(2, 3), error: RecErr::Limit }]
    );
}

#[test]
fn a_staged_trip_writes_the_smaller_boundary() {
    let mut latch: Option<usize> = None;
    assert_eq!(StagedTrip::stage(latch, 7).install(&mut latch), None);
    assert_eq!(latch, Some(7));
    // A later stop beyond the latched one writes nothing.
    assert_eq!(StagedTrip::stage(latch, 9).install(&mut latch), None);
    assert_eq!(latch, Some(7));
    // An earlier one lowers it and hands back what it displaced.
    assert_eq!(StagedTrip::stage(latch, 3).install(&mut latch), Some(7));
    assert_eq!(latch, Some(3));
}

#[test]
fn a_terminal_peek_says_whether_a_stop_cut_the_window() {
    let mut inp = input("1 a", Emitter::verbose());
    let mut ir = inp.as_ref();
    let (w, terminal) = ir.peek_with_emitter_terminal(5).unwrap();
    assert_eq!(w.len(), 2);
    assert!(!terminal, "a genuine end of input is no terminal stop");
    ir.close();
    let mut tripping = Input::with_state_and_context(
        "1 2 3",
        TokenLimiter::with_limitation(1),
        InputContext::new(Emitter::<RecErr>::verbose(), Cache::default()),
    );
    let mut ir = tripping.as_ref();
    let (w, terminal) = ir.peek_with_emitter_terminal(3).unwrap();
    assert_eq!(w, vec![Spanned::new(sp(0, 1), TokenKind::Num)]);
    assert!(terminal, "the limit trip cut the window");
    ir.close();
}
