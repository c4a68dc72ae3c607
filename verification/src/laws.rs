//! What holds of the input layer as a whole: the cache is invisible to a consume and to a run of
//! consumes, a token left unconsumed stays at the cursor, a restore returns to its checkpoint, a
//! terminal stop stops the stream, the recursion-trip counter never decreases, and a cached
//! consume-while is the cached consume-to of the negated predicate.
use vstd::prelude::*;
use crate::emitter::Emission;
use crate::input::{Checkpoint, InputModel, Pull, checkpoint_of, lemma_checkpoint_of, pulled};
use crate::input::descent::raised_level;
use crate::lexer::{CachedToken, LexStep, chain, lex_step};
use crate::stream::{gated_run, lemma_chain_append, lemma_chain_bounds, lemma_chain_head, lemma_chain_take, lemma_run_is_chain};
use crate::lexer::{chain_end_pos, chain_end_state};
use crate::stream::{RunEnd, lemma_chain_len};

verus! {

broadcast use crate::token_budget::TokenBudget::lemma_after_spend, crate::token_budget::TokenBudget::lemma_after_latch;

/// The cache is invisible to a consume: an input with tokens looked ahead and the same input
/// with none consume the same next token and reach the same committed position, when the budget
/// still has room and the position is short of the poison boundary.
pub proof fn law_cache_is_invisible_to_a_consume<E>(warm: InputModel<E>, cold: InputModel<E>)
    requires
        warm.wf(),
        cold.wf(),
        warm.src == cold.src,
        warm.span == cold.span,
        warm.state == cold.state,
        warm.poison == cold.poison,
        warm.front.len() > 0,
        cold.front.len() == 0,
        !cold.budget.spec_is_exhausted(),
        !cold.reached(cold.span.end as int),
    ensures
        warm.pull().0 == cold.pull().0,
        warm.pull().1.span == cold.pull().1.span,
        warm.pull().1.state == cold.pull().1.state,
{
    lemma_chain_head(warm.src, warm.span.end as int, warm.state, warm.front.len());
    reveal_with_fuel(gated_run, 2);
    lemma_run_is_chain(cold.src, cold.poison, cold.span.end as int, cold.state, cold.budget, 1);
}

/// A token looked at and left where it was stays at the cursor, whether it was resident or
/// freshly lexed, and nothing is committed.
pub proof fn law_a_token_left_unconsumed_is_at_the_cursor<E>(m: InputModel<E>)
    requires
        m.wf(),
        m.pull().0 is Yield,
    ensures
        m.put_back().cursor() == m.pull().0->Yield_0.span.start,
        m.put_back().span == m.span,
        m.put_back().state == m.state,
{
    if m.front.len() == 0 {
        reveal_with_fuel(gated_run, 2);
    }
}

/// A restore returns to its checkpoint: the committed span, the state and the poison latch are
/// the saved ones, every emission since is gone, and nothing is resident, so the next consume
/// re-lexes from the saved position.
pub proof fn law_restore_returns_to_the_checkpoint<E>(saved: InputModel<E>, now: InputModel<E>)
    requires
        saved.emitter.log.len() <= now.emitter.log.len(),
        now.emitter.log.take(saved.emitter.log.len() as int) == saved.emitter.log,
        saved.emitter.log.len() <= u64::MAX,
    ensures
        now.restored(checkpoint_of(saved)).span == saved.span,
        now.restored(checkpoint_of(saved)).state == saved.state,
        now.restored(checkpoint_of(saved)).poison == saved.poison,
        now.restored(checkpoint_of(saved)).emitter.log == saved.emitter.log,
        now.restored(checkpoint_of(saved)).front.len() == 0,
        now.restored(checkpoint_of(saved)).budget == now.budget,
{
    lemma_checkpoint_of(saved);
}

/// A limit trip stops the stream: the consume after it meets the latched boundary and yields
/// nothing.
pub proof fn law_a_trip_stops_the_stream<E>(m: InputModel<E>)
    requires
        m.wf(),
        m.pull().0 is Trip,
    ensures
        m.pull().1.pull().0 is Halt,
        m.pull().1.pull().1 == m.pull().1,
{
    reveal_with_fuel(gated_run, 2);
}

/// A refusal by the token budget stops the stream the same way.
pub proof fn law_a_refusal_stops_the_stream<E>(m: InputModel<E>)
    requires
        m.wf(),
        m.front.len() == 0,
        !m.reached(m.span.end as int),
        m.run(1).1 is Refused,
    ensures
        m.pull().0 is Halt,
        m.pull().1.pull().0 is Halt,
        m.pull().1.pull().1 == m.pull().1,
{
    reveal_with_fuel(gated_run, 2);
}


/// The recursion-trip counter never decreases: a refused descent counts one more (saturating at
/// the top), a granted one and the way back keep it, and no consume, look-ahead, restore or
/// rewind touches it.
pub proof fn law_the_trip_counter_never_decreases<E>(m: InputModel<E>, ckp: Checkpoint, entry: InputModel<E>)
    ensures
        raised_level(m).1.resource_trips >= m.resource_trips,
        !raised_level(m).0 && m.resource_trips < u64::MAX ==> raised_level(m).1.resource_trips == m.resource_trips + 1,
        raised_level(m).0 ==> raised_level(m).1.resource_trips == m.resource_trips,
        m.pull().1.resource_trips == m.resource_trips,
        m.put_back().resource_trips == m.resource_trips,
        m.restored(ckp).resource_trips == m.resource_trips,
        m.rewound_to(entry).resource_trips == m.resource_trips,
{
}

/// Consuming resident tokens while `g` accepts them, where `g` answers the negation of `f`, stops
/// where consuming them until `f` accepts one stops: the two consumes are one.
pub proof fn law_consume_while_is_consume_to_negated<E, F, G>(m: InputModel<E>, f: F, g: G, k_to: int, k_while: int)
    where F: Fn(&CachedToken) -> bool, G: Fn(&CachedToken) -> bool
    requires
        forall|t: CachedToken, b: bool| #[trigger] call_ensures(g, (&t,), b) <==> call_ensures(f, (&t,), !b),
        forall|t: CachedToken, b1: bool, b2: bool|
            #[trigger] call_ensures(f, (&t,), b1) && #[trigger] call_ensures(f, (&t,), b2) ==> b1 == b2,
        0 <= k_to <= m.front.len(),
        forall|i: int| 0 <= i < k_to ==> #[trigger] call_ensures(f, (&m.front[i],), false),
        k_to < m.front.len() ==> call_ensures(f, (&m.front[k_to],), true),
        0 <= k_while <= m.front.len(),
        forall|i: int| 0 <= i < k_while ==> #[trigger] call_ensures(g, (&m.front[i],), true),
        k_while < m.front.len() ==> call_ensures(g, (&m.front[k_while],), false),
    ensures
        k_to == k_while,
        m.consumed_n(k_to) == m.consumed_n(k_while),
{
    if k_to < k_while {
        assert(call_ensures(g, (&m.front[k_to],), true));
        assert(call_ensures(f, (&m.front[k_to],), false));
    }
    if k_while < k_to {
        assert(call_ensures(f, (&m.front[k_while],), false));
        assert(call_ensures(g, (&m.front[k_while],), false));
        assert(call_ensures(f, (&m.front[k_while],), true));
    }
}


/// One consume, warm and cold: the same token, the same committed position and state; the warm
/// input loses its head, the cold one stays with nothing resident and pays one charge.
proof fn lemma_consume_warm_and_cold<E>(warm: InputModel<E>, cold: InputModel<E>)
    requires
        warm.wf(),
        cold.wf(),
        warm.src == cold.src,
        warm.span == cold.span,
        warm.state == cold.state,
        warm.front.len() > 0,
        cold.front.len() == 0,
        cold.poison is None,
        warm.poison is None,
        !cold.budget.spec_is_exhausted(),
    ensures
        warm.pull().0 == cold.pull().0,
        warm.pull().0 is Yield,
        warm.pull().1.wf(),
        cold.pull().1.wf(),
        warm.pull().1.src == cold.pull().1.src,
        warm.pull().1.span == cold.pull().1.span,
        warm.pull().1.state == cold.pull().1.state,
        warm.pull().1.front == warm.front.drop_first(),
        cold.pull().1.front.len() == 0,
        cold.pull().1.poison is None,
        warm.pull().1.poison is None,
        cold.pull().1.budget == cold.budget.after_spend(),
{
    law_cache_is_invisible_to_a_consume(warm, cold);
    lemma_chain_head(warm.src, warm.span.end as int, warm.state, warm.front.len());
    lemma_chain_bounds(warm.src, warm.span.end as int, warm.state, warm.front.len());
    reveal_with_fuel(gated_run, 2);
    let ct = warm.front[0];
    assert(ct.tok.span.start < ct.tok.span.end);
    let w1 = warm.pull().1;
    assert(w1.front == chain(w1.src, w1.span.end as int, w1.state, w1.front.len()));
    let c1 = cold.pull().1;
    assert(c1.front =~= chain(c1.src, c1.span.end as int, c1.state, 0));
}

/// `n` consumes, warm and cold, as the one-consume lemma chains them.
proof fn lemma_consumes_warm_and_cold<E>(warm: InputModel<E>, cold: InputModel<E>, n: nat)
    requires
        warm.wf(),
        cold.wf(),
        warm.src == cold.src,
        warm.span == cold.span,
        warm.state == cold.state,
        n <= warm.front.len(),
        cold.front.len() == 0,
        cold.poison is None,
        warm.poison is None,
        cold.budget.spec_spent() + n <= cold.budget.spec_max(),
    ensures
        pulled(warm, n).0 == pulled(cold, n).0,
        pulled(warm, n).0.len() == n,
        pulled(warm, n).1.poison is None,
        pulled(warm, n).1.wf(),
        pulled(cold, n).1.wf(),
        pulled(warm, n).1.src == pulled(cold, n).1.src,
        pulled(warm, n).1.span == pulled(cold, n).1.span,
        pulled(warm, n).1.state == pulled(cold, n).1.state,
        pulled(warm, n).1.front == warm.front.skip(n as int),
        pulled(cold, n).1.front.len() == 0,
        pulled(cold, n).1.poison is None,
        pulled(cold, n).1.budget.spec_spent() == cold.budget.spec_spent() + n,
        pulled(cold, n).1.budget.spec_max() == cold.budget.spec_max(),
    decreases n,
{
    if n == 0 {
        assert(warm.front.skip(0) =~= warm.front);
    } else {
        lemma_consumes_warm_and_cold(warm, cold, (n - 1) as nat);
        let wk = pulled(warm, (n - 1) as nat).1;
        let ck = pulled(cold, (n - 1) as nat).1;
        assert(wk.front.len() > 0);
        lemma_consume_warm_and_cold(wk, ck);
        ck.budget.lemma_after_spend();
        assert(wk.front.drop_first() =~= warm.front.skip(n as int));
    }
}

/// The cache stays invisible across a run of consumes: an input with `n` or more tokens looked
/// ahead and the same input with none hand out the same `n` tokens and reach the same committed
/// position and state, when the budget has room for them and no poison boundary is latched.
pub proof fn law_residency_is_invisible_across_consumes<E>(warm: InputModel<E>, cold: InputModel<E>, n: nat)
    requires
        warm.wf(),
        cold.wf(),
        warm.src == cold.src,
        warm.span == cold.span,
        warm.state == cold.state,
        n <= warm.front.len(),
        cold.front.len() == 0,
        cold.poison is None,
        warm.poison is None,
        cold.budget.spec_spent() + n <= cold.budget.spec_max(),
    ensures
        pulled(warm, n).0 == pulled(cold, n).0,
        pulled(warm, n).1.span == pulled(cold, n).1.span,
        pulled(warm, n).1.state == pulled(cold, n).1.state,
{
    lemma_consumes_warm_and_cold(warm, cold, n);
}


/// A look-ahead of `window` tokens shows at most `window` of them, and what it shows is the token
/// stream itself: the first tokens the lexer produces from the committed position, in order.
/// When `window` tokens are already resident it shows exactly the first `window` of them, and
/// when its lexing ran through it shows exactly `window`.
pub proof fn law_a_peek_shows_the_next_window_of_the_stream<E>(m: InputModel<E>, window: usize)
    requires
        m.wf(),
    ensures
        m.fill(window).0.len() <= window,
        m.fill(window).0 == chain(m.src, m.span.end as int, m.state, m.fill(window).0.len()),
        m.front.len() >= window ==> m.fill(window).0 == m.front.take(window as int),
        m.fill(window).1 is Full ==> m.fill(window).0.len() == window,
{
    let pos0 = m.span.end as int;
    let st0 = m.state;
    let f = m.front.len();
    lemma_chain_len(m.src, pos0, st0, f);
    let r = m.run(m.want(window));
    lemma_run_is_chain(m.src, m.poison, m.lex_pos(), m.lex_state(), m.budget, m.want(window));
    lemma_chain_append(m.src, pos0, st0, f, r.0.len());
    let full = m.front + r.0;
    assert(full == chain(m.src, pos0, st0, f + r.0.len()));
    let kept = r.0.take(vstd::math::min(m.room() as int, r.0.len() as int));
    let shown = match r.1 {
        RunEnd::Trip(..) => m.front + kept,
        _ => m.front + r.0,
    };
    let j = shown.len();
    assert(shown =~= full.take(j as int));
    let k = if window as int <= j { window as int } else { j as int };
    assert(m.fill(window).0 == shown.take(k));
    assert(shown.take(k) =~= full.take(k));
    lemma_chain_take(m.src, pos0, st0, (f + r.0.len()) as nat, k as nat);
    if m.front.len() >= window {
        assert(r.0 =~= Seq::<CachedToken>::empty());
        assert(shown =~= m.front);
    }
}

} // verus!
