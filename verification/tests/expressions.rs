//! Operator-precedence parsing over a small arithmetic grammar: binding powers, associativity,
//! prefix and postfix operators, and the diagnostics of an incomplete expression.

use std::cell::RefCell;
use tokora::emitter::{Channel, Emission, Emitter};
use tokora::error::{NonAssociativeChain, UnexpectedEoLhs, UnexpectedEoRhs, UnexpectedEot};
use tokora::input::{Cache, Input, InputContext};
use tokora::lexer::{Token, TokenKind};
use tokora::pratt::{PrattAssoc, PrattGrammar, PrattLhs, PrattRhs};
use tokora::recursion::{RecursionLimitReached, RecursionLimiter};
use tokora::span::{SimpleSpan, Spanned};
use tokora::token_limiter::{TokenLimitExceeded, TokenLimiter};

#[derive(Debug, Clone, Copy, PartialEq, Eq)]
enum ExprErr {
    Lex,
    Limit,
    Depth(usize),
    NonAssoc(usize),
    NoLhs(usize),
    NoRhs(usize),
}

impl From<TokenLimitExceeded> for ExprErr {
    fn from(_: TokenLimitExceeded) -> Self {
        ExprErr::Limit
    }
}

impl From<UnexpectedEot> for ExprErr {
    fn from(_: UnexpectedEot) -> Self {
        ExprErr::Lex
    }
}

impl From<RecursionLimitReached> for ExprErr {
    fn from(r: RecursionLimitReached) -> Self {
        ExprErr::Depth(r.depth())
    }
}

impl From<NonAssociativeChain> for ExprErr {
    fn from(e: NonAssociativeChain) -> Self {
        ExprErr::NonAssoc(e.offset)
    }
}

impl From<UnexpectedEoLhs> for ExprErr {
    fn from(e: UnexpectedEoLhs) -> Self {
        ExprErr::NoLhs(e.offset)
    }
}

impl From<UnexpectedEoRhs> for ExprErr {
    fn from(e: UnexpectedEoRhs) -> Self {
        ExprErr::NoRhs(e.offset)
    }
}

/// One fold the parse performed: the operator's text and the spans it combined.
#[derive(Debug, Clone, PartialEq, Eq)]
enum Fold {
    Prefix(String, SimpleSpan),
    Infix(String, SimpleSpan, SimpleSpan),
    Postfix(String, SimpleSpan),
}

fn text(src: &str, t: &Token) -> String {
    src[t.span.start..t.span.end].to_string()
}

fn cover(a: SimpleSpan, b: SimpleSpan) -> SimpleSpan {
    SimpleSpan::new(a.start.min(b.start), a.end.max(b.end))
}

fn input(src: &str, emitter: Emitter<ExprErr>, recursion: RecursionLimiter) -> Input<ExprErr> {
    Input::with_state_and_context(
        src,
        TokenLimiter::with_limitation(usize::MAX),
        InputContext::new(emitter, Cache::default()).with_recursion_limiter(recursion),
    )
}

/// Parses one expression of `src` with: numbers as operands; `-` prefix at 5; `+` and `-` left at
/// 1, `*` left at 2, `^` right at 3, `=` non-associative at 0; `!` postfix at 6; and a number
/// where an operator belongs as adjacency at 4. Returns the result, the folds in the order they
/// ran, the offset it stopped at, and the emitter's log.
fn parse(
    src: &str,
    emitter: Emitter<ExprErr>,
    recursion: RecursionLimiter,
) -> (Result<Option<SimpleSpan>, ExprErr>, Vec<Fold>, usize, Vec<Emission<ExprErr>>) {
    parse_from(src, emitter, recursion, None)
}

/// As [`parse`], from the minimum power `min` when one is given.
fn parse_from(
    src: &str,
    emitter: Emitter<ExprErr>,
    recursion: RecursionLimiter,
    min: Option<u32>,
) -> (Result<Option<SimpleSpan>, ExprErr>, Vec<Fold>, usize, Vec<Emission<ExprErr>>) {
    let folds = RefCell::new(Vec::new());
    let mut inp = input(src, emitter, recursion);
    let (r, offset) = {
        let mut ir = inp.as_ref();
        let g = PrattGrammar {
            lhs: |t: &Token| match (t.data, text(src, t).as_str()) {
                (TokenKind::Num, _) => Some(PrattLhs::Operand),
                (_, "-") => Some(PrattLhs::Prefix(5)),
                _ => None,
            },
            rhs: |t: &Token| match (t.data, text(src, t).as_str()) {
                (TokenKind::Num, _) => Some(PrattRhs::Adjacent(4)),
                (_, "+") | (_, "-") => Some(PrattRhs::Infix(PrattAssoc::Left, 1)),
                (_, "*") => Some(PrattRhs::Infix(PrattAssoc::Left, 2)),
                (_, "^") => Some(PrattRhs::Infix(PrattAssoc::Right, 3)),
                (_, "=") => Some(PrattRhs::Infix(PrattAssoc::Neither, 0)),
                (_, "!") => Some(PrattRhs::Postfix(6)),
                (TokenKind::Semi, _) => Some(PrattRhs::End),
                _ => None,
            },
            fold_prefix: |op: Token, operand: Token| -> Result<Token, ExprErr> {
                folds.borrow_mut().push(Fold::Prefix(text(src, &op), operand.span));
                Ok(Spanned::new(cover(op.span, operand.span), TokenKind::Num))
            },
            fold_infix: |l: Token, r: Token, _assoc: PrattAssoc, op: Token| -> Result<Token, ExprErr> {
                folds.borrow_mut().push(Fold::Infix(text(src, &op), l.span, r.span));
                Ok(Spanned::new(cover(l.span, r.span), TokenKind::Num))
            },
            fold_postfix: |operand: Token, op: Token| -> Result<Token, ExprErr> {
                folds.borrow_mut().push(Fold::Postfix(text(src, &op), operand.span));
                Ok(Spanned::new(cover(operand.span, op.span), TokenKind::Num))
            },
        };
        let r = match min {
            Some(min) => ir.pratt_with_min_precedence(&g, min),
            None => ir.pratt(&g),
        }
        .map(|t| t.map(|t| t.span));
        let offset = ir.offset();
        ir.close();
        (r, offset)
    };
    let log = inp.emitter().log().clone();
    (r, folds.into_inner(), offset, log)
}

fn sp(start: usize, end: usize) -> SimpleSpan {
    SimpleSpan::new(start, end)
}

#[test]
fn a_tighter_operator_folds_first() {
    let (r, folds, offset, log) = parse("1 + 2 * 3", Emitter::verbose(), RecursionLimiter::new());
    assert_eq!(r, Ok(Some(sp(0, 9))));
    assert_eq!(
        folds,
        vec![
            Fold::Infix("*".to_string(), sp(4, 5), sp(8, 9)),
            Fold::Infix("+".to_string(), sp(0, 1), sp(4, 9)),
        ]
    );
    assert_eq!(offset, 9);
    assert!(log.is_empty());
}

#[test]
fn a_left_associative_chain_folds_from_the_left() {
    let (r, folds, _, _) = parse("1 - 2 - 3", Emitter::verbose(), RecursionLimiter::new());
    assert_eq!(r, Ok(Some(sp(0, 9))));
    assert_eq!(
        folds,
        vec![
            Fold::Infix("-".to_string(), sp(0, 1), sp(4, 5)),
            Fold::Infix("-".to_string(), sp(0, 5), sp(8, 9)),
        ]
    );
}

#[test]
fn a_right_associative_chain_folds_from_the_right() {
    let (r, folds, _, _) = parse("2 ^ 3 ^ 4", Emitter::verbose(), RecursionLimiter::new());
    assert_eq!(r, Ok(Some(sp(0, 9))));
    assert_eq!(
        folds,
        vec![
            Fold::Infix("^".to_string(), sp(4, 5), sp(8, 9)),
            Fold::Infix("^".to_string(), sp(0, 1), sp(4, 9)),
        ]
    );
}

#[test]
fn prefix_and_postfix_operators_bind_at_their_powers() {
    // `-` at 5 takes `3` but not `* 2`; `!` at 6 binds tighter than the prefix.
    let (r, folds, _, _) = parse("- 3 ! * 2", Emitter::verbose(), RecursionLimiter::new());
    assert_eq!(r, Ok(Some(sp(0, 9))));
    assert_eq!(
        folds,
        vec![
            Fold::Postfix("!".to_string(), sp(2, 3)),
            Fold::Prefix("-".to_string(), sp(2, 5)),
            Fold::Infix("*".to_string(), sp(0, 5), sp(8, 9)),
        ]
    );
}

#[test]
fn a_token_that_starts_nothing_is_left_where_it_is() {
    let (r, folds, offset, log) = parse("; 1", Emitter::verbose(), RecursionLimiter::new());
    assert_eq!(r, Ok(None));
    assert!(folds.is_empty());
    assert_eq!(offset, 0);
    assert!(log.is_empty());
}

#[test]
fn an_end_token_stops_the_expression_before_it() {
    let (r, _, offset, _) = parse("1 + 2 ; 3", Emitter::verbose(), RecursionLimiter::new());
    assert_eq!(r, Ok(Some(sp(0, 5))));
    assert_eq!(offset, 5);
}

#[test]
fn an_empty_input_is_no_expression() {
    let (r, folds, offset, _) = parse("", Emitter::verbose(), RecursionLimiter::new());
    assert_eq!(r, Ok(None));
    assert!(folds.is_empty());
    assert_eq!(offset, 0);
}

#[test]
fn chaining_a_non_associative_operator_is_refused_at_the_second() {
    let (r, _, _, _) = parse("1 = 2 = 3", Emitter::verbose(), RecursionLimiter::new());
    assert_eq!(r, Err(ExprErr::NonAssoc(5)));
}

#[test]
fn a_missing_right_operand_is_reported_and_the_left_side_returned() {
    let (r, folds, offset, log) = parse("1 +", Emitter::verbose(), RecursionLimiter::new());
    assert_eq!(r, Ok(Some(sp(0, 1))));
    assert!(folds.is_empty());
    assert_eq!(offset, 3);
    assert_eq!(
        log,
        vec![Emission::Error { channel: Channel::UnexpectedEndOfRhs, span: sp(3, 3), error: ExprErr::NoRhs(3) }]
    );
}

#[test]
fn a_fatal_emitter_turns_a_missing_operand_into_the_error() {
    let (r, _, _, log) = parse("1 +", Emitter::fatal(), RecursionLimiter::new());
    assert_eq!(r, Err(ExprErr::NoRhs(3)));
    assert!(log.is_empty());
}

#[test]
fn a_prefix_operator_without_an_operand_is_reported_and_returned() {
    let (r, folds, offset, log) = parse("-", Emitter::verbose(), RecursionLimiter::new());
    assert_eq!(r, Ok(Some(sp(0, 1))));
    assert!(folds.is_empty());
    assert_eq!(offset, 1);
    assert_eq!(
        log,
        vec![Emission::Error { channel: Channel::UnexpectedEndOfLhs, span: sp(1, 1), error: ExprErr::NoLhs(1) }]
    );
}

#[test]
fn an_operand_where_an_operator_belongs_ends_the_expression_with_a_report() {
    let (r, _, offset, log) = parse("1 2", Emitter::verbose(), RecursionLimiter::new());
    assert_eq!(r, Ok(Some(sp(0, 1))));
    assert_eq!(offset, 1);
    assert_eq!(
        log,
        vec![Emission::Error { channel: Channel::UnexpectedEndOfRhs, span: sp(1, 1), error: ExprErr::NoRhs(1) }]
    );
}

#[test]
fn nesting_past_the_recursion_limit_is_refused() {
    let (r, _, _, _) = parse("- - - 1", Emitter::verbose(), RecursionLimiter::with_limitation(2));
    assert_eq!(r, Err(ExprErr::Depth(3)));
}

#[test]
fn nesting_within_the_recursion_limit_parses() {
    let (r, folds, _, _) = parse("- - 1", Emitter::verbose(), RecursionLimiter::with_limitation(3));
    assert_eq!(r, Ok(Some(sp(0, 5))));
    assert_eq!(
        folds,
        vec![Fold::Prefix("-".to_string(), sp(4, 5)), Fold::Prefix("-".to_string(), sp(2, 5))]
    );
}

#[test]
fn a_minimum_power_leaves_the_operators_below_it() {
    // `+` at 1 is below a minimum of 2: the expression ends before it, which stays unconsumed.
    let (r, folds, offset, log) = parse_from("1 * 2 + 3", Emitter::verbose(), RecursionLimiter::new(), Some(2));
    assert_eq!(r, Ok(Some(sp(0, 5))));
    assert_eq!(folds, vec![Fold::Infix("*".to_string(), sp(0, 1), sp(4, 5))]);
    assert_eq!(offset, 5);
    assert!(log.is_empty());
}

#[test]
fn a_prefix_operator_below_the_minimum_starts_nothing() {
    // `-` binds at 5: below a minimum of 6 it is not taken, and nothing is consumed.
    let (r, folds, offset, log) = parse_from("- 1", Emitter::verbose(), RecursionLimiter::new(), Some(6));
    assert_eq!(r, Ok(None));
    assert!(folds.is_empty());
    assert_eq!(offset, 0);
    assert!(log.is_empty());
    let (r, _, _, _) = parse_from("- 1", Emitter::verbose(), RecursionLimiter::new(), Some(5));
    assert_eq!(r, Ok(Some(sp(0, 3))));
}
