//! The one-token window a head read fills: a fixed-capacity deque of the `generic_arraydeque`
//! crate, sized by its type to one token.
use vstd::prelude::*;
use generic_arraydeque::ArrayDeque;
use generic_arraydeque::typenum::U1;
use crate::lexer::Token;

verus! {

/// A one-token window: the outside deque, held where Verus does not look inside it.
#[verifier::external_body]
pub struct HeadWindow {
    deque: ArrayDeque<Token, U1>,
}

/// The tokens a one-token window holds, oldest first.
pub uninterp spec fn window_items(d: HeadWindow) -> Seq<Token>;

/// An empty one-token window (`ArrayDeque::new`).
#[verifier::external_body]
pub(crate) fn window_new() -> (d: HeadWindow)
    ensures
        window_items(d) == Seq::<Token>::empty(),
{
    HeadWindow { deque: ArrayDeque::new() }
}

/// Appends at the back when there is room (`ArrayDeque::push_back`): a full window hands the
/// token back unchanged.
#[verifier::external_body]
pub(crate) fn window_push_back(d: &mut HeadWindow, t: Token) -> (r: Option<Token>)
    ensures
        window_items(*old(d)).len() < 1 ==> r is None && window_items(*final(d)) == window_items(*old(d)).push(t),
        window_items(*old(d)).len() >= 1 ==> r == Some(t) && window_items(*final(d)) == window_items(*old(d)),
{
    d.deque.push_back(t)
}

/// Removes the front (`ArrayDeque::pop_front`).
#[verifier::external_body]
pub(crate) fn window_pop_front(d: &mut HeadWindow) -> (r: Option<Token>)
    ensures
        window_items(*old(d)).len() > 0 ==> r == Some(window_items(*old(d))[0]) && window_items(*final(d))
            == window_items(*old(d)).drop_first(),
        window_items(*old(d)).len() == 0 ==> r is None && window_items(*final(d)) == window_items(*old(d)),
{
    d.deque.pop_front()
}

} // verus!
