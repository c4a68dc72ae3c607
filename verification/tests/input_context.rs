//! The context an input is built from, and building one.

use tokora::emitter::Emitter;
use tokora::input::{Cache, Input, InputContext};
use tokora::recursion::RecursionLimiter;
use tokora::token_budget::TokenBudget;
use tokora::token_limiter::TokenLimiter;

#[test]
fn input_context_new_and_into_components() {
    let ctx = InputContext::new("emitter", 42u32);
    let (e, c, r, b) = ctx.into_components();
    assert_eq!(e, "emitter");
    assert_eq!(c, 42u32);
    // `new` carries the parse default, not the general-purpose one.
    assert_eq!(r.limitation(), RecursionLimiter::PARSE_DEFAULT_DEPTH);
    assert_ne!(
        r.limitation(),
        RecursionLimiter::new().limitation(),
        "InputContext's parser-facing default must not equal RecursionLimiter::new()'s general one"
    );
    assert_eq!(r.depth(), 0);
    // The token budget's default is protection off.
    assert_eq!(b, TokenBudget::unlimited());
    assert_eq!(b.limitation(), usize::MAX);
    assert_eq!(b.spent(), 0);
}

#[test]
fn input_context_with_recursion_limiter_replaces_the_default() {
    let ctx = InputContext::new("emitter", 42u32).with_recursion_limiter(RecursionLimiter::unlimited());
    let (_, _, r, _) = ctx.into_components();
    assert_eq!(r.limitation(), usize::MAX);
    assert_eq!(r.depth(), 0);
}

#[test]
fn input_context_with_token_budget_replaces_the_default() {
    let ctx = InputContext::new("emitter", 42u32).with_token_budget(TokenBudget::with_limitation(7));
    let (_, _, r, b) = ctx.into_components();
    assert_eq!(b.limitation(), 7);
    assert_eq!(b.spent(), 0);
    // And it did not disturb the cell beside it.
    assert_eq!(r.limitation(), RecursionLimiter::PARSE_DEFAULT_DEPTH);
}

#[test]
fn input_context_different_types() {
    let ctx = InputContext::new(vec![1, 2, 3], Some("cache"));
    let (e, c, _, _) = ctx.into_components();
    assert_eq!(e, vec![1, 2, 3]);
    assert_eq!(c, Some("cache"));
}

fn dummy_context() -> InputContext<Emitter<()>, Cache> {
    InputContext::new(Emitter::<()>::fatal(), Cache::default())
}

#[test]
fn input_with_state_and_context() {
    let input = Input::<()>::with_state_and_context("hello", TokenLimiter::unlimited(), dummy_context());
    assert_eq!(input.span().end, 0);
    assert_eq!(input.live_checkpoints_len(), 0);
}

/// `as_ref` takes no emitter: the handle borrows the one the input was built with.
#[test]
fn input_as_ref_borrows_the_bound_emitter() {
    let mut input = Input::<()>::with_state_and_context("hello", TokenLimiter::unlimited(), dummy_context());
    let input_ref = input.as_ref();
    assert_eq!(input_ref.emitter_ref().len(), 0);
    assert_eq!(input_ref.cursor(), 0);
}

#[test]
fn the_default_cache_keeps_three() {
    assert_eq!(Cache::default().capacity(), 3);
    assert_eq!(Cache::with_capacity(0).capacity(), 0);
}
