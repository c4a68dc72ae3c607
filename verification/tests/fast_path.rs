//! The hot head reads, and the promise that taking them changes nothing: every program observes
//! the same thing whatever was resident beforehand.

use std::cell::RefCell;
use tokora::emitter::{Emission, Emitter};
use tokora::error::UnexpectedEot;
use tokora::input::{Cache, Input, InputContext, InputRef};
use tokora::lexer::{Token, TokenKind};
use tokora::span::SimpleSpan;
use tokora::token_limiter::{TokenLimitExceeded, TokenLimiter};

#[derive(Debug, Clone, Copy, PartialEq, Eq)]
enum ByValErr {
    Lex,
    Limit,
}

impl From<TokenLimitExceeded> for ByValErr {
    fn from(_: TokenLimitExceeded) -> Self {
        ByValErr::Limit
    }
}

impl From<UnexpectedEot> for ByValErr {
    fn from(_: UnexpectedEot) -> Self {
        ByValErr::Lex
    }
}

/// What one run observed: everything here is a function of the token stream alone.
#[derive(Debug, PartialEq)]
struct Observed {
    asked: Vec<(SimpleSpan, TokenKind)>,
    read: Vec<Option<TokenKind>>,
    cursor: usize,
    span: SimpleSpan,
    is_exhausted: bool,
    diagnostics: (usize, usize),
    drained: Vec<(SimpleSpan, TokenKind)>,
}

#[derive(Debug, Clone, Copy, PartialEq, Eq)]
enum Program {
    Skip,
    SkipTwice,
    ConsumeSkipConsume,
    PeekKind,
    SkipPeekSkipPeek,
    DrainByPeek,
}

const ALL: &[Program] = &[
    Program::Skip,
    Program::SkipTwice,
    Program::ConsumeSkipConsume,
    Program::PeekKind,
    Program::SkipPeekSkipPeek,
    Program::DrainByPeek,
];

/// `~` is a real trivia token, so the end of one token and the start of the next differ.
const SOURCES: &[&str] = &["2 ;", "~ ~ 2 ;", "~ ~ ~", "", "~", "2", "2 ~ ~ ;"];

const PREFILLS: &[usize] = &[0, 1, 2, 3];

fn observe(program: Program, src: &str, prefill: usize, capacity: usize) -> Observed {
    let mut input = Input::<ByValErr>::with_state_and_context(
        src,
        TokenLimiter::with_limitation(usize::MAX),
        InputContext::new(Emitter::verbose(), Cache::with_capacity(capacity)),
    );
    let asked = RefCell::new(Vec::new());
    let mut read = Vec::new();
    let (cursor, span, is_exhausted, drained) = {
        let mut inp = input.as_ref();
        for _ in 0..prefill {
            let _ = inp.peek(3).unwrap();
        }
        run(&mut inp, program, &asked, &mut read);
        let cursor = inp.cursor();
        let span = inp.span();
        let is_exhausted = inp.is_exhausted();
        let mut drained = Vec::new();
        while let Some(tok) = inp.next().unwrap() {
            drained.push((tok.span, tok.data));
        }
        (cursor, span, is_exhausted, drained)
    };
    let count = |which: ByValErr| {
        input
            .emitter()
            .log()
            .iter()
            .filter(|e| matches!(e, Emission::Error { error, .. } if *error == which))
            .count()
    };
    Observed {
        asked: asked.into_inner(),
        read,
        cursor,
        span,
        is_exhausted,
        diagnostics: (count(ByValErr::Lex), count(ByValErr::Limit)),
        drained,
    }
}

fn run(
    inp: &mut InputRef<'_, ByValErr>,
    program: Program,
    asked: &RefCell<Vec<(SimpleSpan, TokenKind)>>,
    read: &mut Vec<Option<TokenKind>>,
) {
    match program {
        Program::Skip => skip(inp, asked),
        Program::SkipTwice => {
            skip(inp, asked);
            skip(inp, asked);
        }
        Program::ConsumeSkipConsume => {
            let _ = inp.next().unwrap();
            skip(inp, asked);
            let _ = inp.next().unwrap();
        }
        Program::PeekKind => read.push(inp.peek_kind().unwrap()),
        Program::SkipPeekSkipPeek => {
            skip(inp, asked);
            read.push(inp.peek_kind().unwrap());
            skip(inp, asked);
            read.push(inp.peek_kind().unwrap());
        }
        Program::DrainByPeek => loop {
            let head = inp.peek_kind().unwrap();
            read.push(head);
            if head.is_none() {
                break;
            }
            inp.next().unwrap().expect("the head was just read");
        },
    }
}

/// One `skip_while(is_trivia)`, recording every token the predicate was asked about.
fn skip(inp: &mut InputRef<'_, ByValErr>, asked: &RefCell<Vec<(SimpleSpan, TokenKind)>>) {
    inp.skip_while(|t: &Token| {
        asked.borrow_mut().push((t.span, t.data));
        t.data.is_trivia()
    })
    .unwrap();
}

#[test]
fn fast_paths_are_invisible_to_residency() {
    for &program in ALL {
        for &src in SOURCES {
            let reference = observe(program, src, 0, 3);
            for &prefill in PREFILLS {
                for (capacity, name) in [(3, "deque(3)"), (1, "option(1)"), (0, "blackhole(0)")] {
                    let got = observe(program, src, prefill, capacity);
                    assert_eq!(
                        got, reference,
                        "{program:?} over {src:?} observed differently at prefill {prefill} under {name}"
                    );
                }
            }
        }
    }
}

#[test]
fn the_agreed_skip_observation_is_the_right_one() {
    let none_to_skip = observe(Program::Skip, "2 ;", 1, 3);
    assert_eq!(none_to_skip.asked, vec![(SimpleSpan::new(0, 1), TokenKind::Num)], "a no-op skip asks about the head exactly once");
    assert_eq!(none_to_skip.cursor, 0, "the stopping token is still the head");
    assert_eq!(none_to_skip.span, SimpleSpan::new(0, 0), "nothing committed");
    assert_eq!(
        none_to_skip.drained,
        vec![(SimpleSpan::new(0, 1), TokenKind::Num), (SimpleSpan::new(2, 3), TokenKind::Semi)],
        "a skip that skips nothing consumes nothing"
    );

    let with_trivia = observe(Program::Skip, "~ ~ 2 ;", 3, 3);
    assert_eq!(
        with_trivia.asked,
        vec![
            (SimpleSpan::new(0, 1), TokenKind::Trivia),
            (SimpleSpan::new(2, 3), TokenKind::Trivia),
            (SimpleSpan::new(4, 5), TokenKind::Num),
        ],
        "the probe's answer is carried into the scan, not asked again"
    );
    assert_eq!(with_trivia.cursor, 4, "the cursor is the stopper's start");
    assert_eq!(with_trivia.span, SimpleSpan::new(2, 3), "the committed span ends at the last skipped token");

    let twice = observe(Program::SkipTwice, "~ ~ 2 ;", 3, 3);
    assert_eq!(
        twice.asked,
        vec![
            (SimpleSpan::new(0, 1), TokenKind::Trivia),
            (SimpleSpan::new(2, 3), TokenKind::Trivia),
            (SimpleSpan::new(4, 5), TokenKind::Num),
            (SimpleSpan::new(4, 5), TokenKind::Num),
        ],
        "the second skip asks only about the head it stops on"
    );
    assert_eq!(twice.span, with_trivia.span, "the second skip commits nothing");

    let all_trivia = observe(Program::Skip, "~ ~ ~", 3, 3);
    assert_eq!(all_trivia.drained, vec![], "everything was skipped");
    assert!(all_trivia.is_exhausted, "the skip ran to end of input");
    assert_eq!(all_trivia.span, SimpleSpan::new(5, 5), "the end-of-input settle commits at the lexer's own end");

    let empty = observe(Program::Skip, "", 3, 3);
    assert_eq!(empty.asked, vec![], "there was nothing to ask about");
    assert!(empty.is_exhausted);

    let peeked = observe(Program::PeekKind, "2 ;", 2, 3);
    assert_eq!(peeked.read, vec![Some(TokenKind::Num)]);
    assert_eq!(peeked.cursor, 0, "a peek commits nothing");
    assert_eq!(peeked.span, SimpleSpan::new(0, 0), "and moves no committed position");
    assert_eq!(
        peeked.drained,
        vec![(SimpleSpan::new(0, 1), TokenKind::Num), (SimpleSpan::new(2, 3), TokenKind::Semi)],
        "the token a peek read is still the next one consumed"
    );

    let empty_head = observe(Program::PeekKind, "", 2, 3);
    assert_eq!(empty_head.read, vec![None]);

    let pair = observe(Program::SkipPeekSkipPeek, "~ ~ 2 ;", 3, 3);
    assert_eq!(pair.read, vec![Some(TokenKind::Num), Some(TokenKind::Num)], "both reads see the token the skip stopped on");
    assert_eq!(
        pair.asked,
        vec![
            (SimpleSpan::new(0, 1), TokenKind::Trivia),
            (SimpleSpan::new(2, 3), TokenKind::Trivia),
            (SimpleSpan::new(4, 5), TokenKind::Num),
            (SimpleSpan::new(4, 5), TokenKind::Num),
        ],
        "a head read in between does not make the second skip re-ask about the trivia run"
    );

    let drained = observe(Program::DrainByPeek, "~ ~ 2 ;", 1, 3);
    assert_eq!(
        drained.read,
        vec![Some(TokenKind::Trivia), Some(TokenKind::Trivia), Some(TokenKind::Num), Some(TokenKind::Semi), None],
        "every token is read once, then end of input"
    );
}

/// Numbers under a token limiter: the lex past the limit trips and latches.
fn tripping_input(src: &str, limit: usize) -> Input<ByValErr> {
    Input::with_state_and_context(
        src,
        TokenLimiter::with_limitation(limit),
        InputContext::new(Emitter::verbose(), Cache::default()),
    )
}

#[test]
fn skip_while_over_a_latched_boundary_agrees_warm_and_cold() {
    let mut warm = tripping_input("1 2 3", 2);
    let mut inp = warm.as_ref();
    assert!(inp.next().unwrap().is_some(), "the first number");
    let _ = inp.peek(3);
    inp.skip_while(|t: &Token| t.data.is_trivia()).unwrap();
    let warm_seen = (inp.cursor(), inp.span());
    let warm_next = inp.next().unwrap().map(|t| t.span);

    let mut cold = tripping_input("1 2 3", 2);
    let mut inp = cold.as_ref();
    assert!(inp.next().unwrap().is_some(), "the first number");
    inp.skip_while(|t: &Token| t.data.is_trivia()).unwrap();
    let cold_seen = (inp.cursor(), inp.span());
    let cold_next = inp.next().unwrap().map(|t| t.span);

    assert_eq!(warm_seen, cold_seen, "the same cursor and committed span whether the stopper was prefetched or lexed");
    assert_eq!((warm_next, cold_next), (Some(SimpleSpan::new(2, 3)), Some(SimpleSpan::new(2, 3))));
}

#[test]
fn skip_while_with_a_latched_boundary_and_nothing_resident_takes_the_general_path() {
    let mut input = tripping_input("1 2 3", 2);
    let mut inp = input.as_ref();
    assert!(inp.next().unwrap().is_some(), "the first number");
    assert!(inp.next().unwrap().is_some(), "the second number");
    let before = (inp.cursor(), inp.span());

    inp.skip_while(|t: &Token| t.data.is_trivia()).unwrap();
    assert_eq!((inp.cursor(), inp.span()), before, "a skip that finds nothing to skip and cannot lex commits nothing");
    assert!(inp.next().unwrap().is_none(), "the latched boundary keeps the drain at the trip");
}

#[test]
fn peek_head_map_serves_a_resident_head_at_a_latched_boundary() {
    let mut input = tripping_input("1 2 3", 2);
    let mut inp = input.as_ref();
    assert!(inp.next().unwrap().is_some(), "the first number");
    let _ = inp.peek(3);

    assert_eq!(inp.peek_kind().unwrap(), Some(TokenKind::Num), "a resident head is readable whatever the latch says");
    assert!(inp.head_satisfies(|k: &TokenKind| *k == TokenKind::Num).unwrap(), "and the predicate form agrees");
    let tok = inp.next().unwrap().expect("the resident head");
    assert_eq!(tok.span, SimpleSpan::new(2, 3), "a read consumes nothing, latched or not");
}

#[test]
fn peek_head_map_raises_on_a_latched_boundary_with_nothing_resident() {
    let mut input = tripping_input("1 2 3", 2);
    let mut inp = input.as_ref();
    assert!(inp.next().unwrap().is_some(), "the first number");
    assert!(inp.next().unwrap().is_some(), "the second number");
    assert_eq!(inp.peek_kind(), Err(ByValErr::Lex), "a terminal stop surfaces the end-of-input error");
    assert_eq!(inp.peek_kind(), Err(ByValErr::Lex));
    assert!(inp.next().unwrap().is_none(), "the drain stops at the latched boundary");
}
