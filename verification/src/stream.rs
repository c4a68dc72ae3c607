//! The token stream as the input layer sees it: budget-gated lexing steps and runs of them, and
//! the facts that tie a run to the plain lexer chain it is a prefix of.
use vstd::prelude::*;
use crate::lexer::{
    CachedToken, LexStep, Token, chain, chain_end_pos, chain_end_state, lemma_lexed_token_bounds,
    lex_step, lexed_token, skip_space,
};
use crate::token_budget::TokenBudget;
use crate::token_limiter::TokenLimiter;

verus! {

broadcast use crate::token_budget::TokenBudget::lemma_after_spend, crate::token_budget::TokenBudget::lemma_after_latch;

/// What the budget-gated lexing site hands back.
pub enum Gated {
    /// No item: the end of input, with the lexer's own span end.
    Eof(usize),
    /// An item, with the state after it.
    Token(CachedToken),
    /// An item that passed the lexer-side limiter: a terminal stop.
    Trip(Token),
    /// An item the token budget refused: a terminal stop with no diagnostic.
    Refused,
}

/// The budget-gated lexing step from `pos` under `st`, and the budget after it. The ceiling check is asked
/// before the lexer runs; a met ceiling funds one probe over the life of the input.
pub open spec fn gated_step(src: Seq<u8>, pos: int, st: TokenLimiter, b: TokenBudget) -> (
    Gated,
    TokenBudget,
) {
    if b.spec_is_exhausted() {
        if pos >= src.len() {
            (Gated::Eof(pos as usize), b)
        } else if b.spec_refused() {
            (Gated::Refused, b)
        } else {
            match lex_step(src, pos, st) {
                LexStep::Eof(e) => (Gated::Eof(e), b),
                _ => (Gated::Refused, b.after_latch()),
            }
        }
    } else {
        match lex_step(src, pos, st) {
            LexStep::Eof(e) => (Gated::Eof(e), b),
            LexStep::Token(ct) => (Gated::Token(ct), b.after_spend()),
            LexStep::Trip(t) => (Gated::Trip(t), b.after_spend()),
        }
    }
}

/// Why a run of lexing steps stopped.
pub enum RunEnd {
    /// It lexed every token it was asked for.
    Full,
    /// The lexer reached the end of input; its own span collapses at the offset.
    Eof(usize),
    /// The lex position reached the latched poison boundary.
    Boundary,
    /// A token passed the lexer-side limiter, lexed at the offset under the state.
    Trip(Token, usize, TokenLimiter),
    /// The token budget refused an item at the offset.
    Refused(usize),
}

/// Whether `pos` is at or past the poison boundary `poison`.
pub open spec fn reached_in(poison: Option<usize>, pos: int) -> bool {
    match poison {
        Some(b) => pos >= b,
        None => false,
    }
}

/// Up to `n` budget-gated lexing steps from `pos` under `st`: the tokens produced, why the run
/// stopped, and the budget after it. A run never lexes at or past the poison boundary.
pub open spec fn gated_run(
    src: Seq<u8>,
    poison: Option<usize>,
    pos: int,
    st: TokenLimiter,
    b: TokenBudget,
    n: nat,
) -> (Seq<CachedToken>, RunEnd, TokenBudget)
    decreases n,
{
    if n == 0 {
        (Seq::empty(), RunEnd::Full, b)
    } else if reached_in(poison, pos) {
        (Seq::empty(), RunEnd::Boundary, b)
    } else {
        let (g, b1) = gated_step(src, pos, st, b);
        match g {
            Gated::Token(ct) => {
                let r = gated_run(src, poison, ct.tok.span.end as int, ct.state, b1, (n - 1) as nat);
                (seq![ct] + r.0, r.1, r.2)
            },
            Gated::Eof(e) => (Seq::empty(), RunEnd::Eof(e), b1),
            Gated::Trip(t) => (Seq::empty(), RunEnd::Trip(t, pos as usize, st), b1),
            Gated::Refused => (Seq::empty(), RunEnd::Refused(pos as usize), b1),
        }
    }
}

/// The step a run takes after `prefix`: where it lexes next and under which state.
pub open spec fn run_step(
    src: Seq<u8>,
    poison: Option<usize>,
    pos: int,
    st: TokenLimiter,
    b: TokenBudget,
) -> (Seq<CachedToken>, RunEnd, TokenBudget) {
    gated_run(src, poison, pos, st, b, 1)
}

/// Unfolding a chain of at least one token: its head is the first lexer step, its tail the chain
/// from after that token.
pub proof fn lemma_chain_head(src: Seq<u8>, pos: int, st: TokenLimiter, n: nat)
    requires
        chain(src, pos, st, n).len() > 0,
    ensures
        n > 0,
        lex_step(src, pos, st) == LexStep::Token(chain(src, pos, st, n)[0]),
        chain(src, pos, st, n).drop_first() == chain(
            src,
            chain(src, pos, st, n)[0].tok.span.end as int,
            chain(src, pos, st, n)[0].state,
            (n - 1) as nat,
        ),
{
    let c = chain(src, pos, st, n);
    match lex_step(src, pos, st) {
        LexStep::Token(ct) => {
            let rest = chain(src, ct.tok.span.end as int, ct.state, (n - 1) as nat);
            assert(c == seq![ct] + rest);
            assert(c.drop_first() =~= rest);
        },
        _ => {},
    }
}

/// A chain never holds more tokens than it was asked for.
pub proof fn lemma_chain_len(src: Seq<u8>, pos: int, st: TokenLimiter, n: nat)
    ensures
        chain(src, pos, st, n).len() <= n,
    decreases n,
{
    if n > 0 {
        match lex_step(src, pos, st) {
            LexStep::Token(ct) => lemma_chain_len(src, ct.tok.span.end as int, ct.state, (n - 1) as nat),
            _ => {},
        }
    }
}

/// Every token of a chain lies inside the source, after where the chain started, and the tokens
/// come in source order.
pub proof fn lemma_chain_bounds(src: Seq<u8>, pos: int, st: TokenLimiter, n: nat)
    requires
        0 <= pos <= src.len(),
        src.len() <= usize::MAX,
    ensures
        forall|i: int|
            0 <= i < chain(src, pos, st, n).len() ==> pos <= #[trigger] chain(
                src,
                pos,
                st,
                n,
            )[i].tok.span.start < chain(src, pos, st, n)[i].tok.span.end <= src.len(),
        forall|i: int, j: int|
            0 <= i < j < chain(src, pos, st, n).len() ==> #[trigger] chain(src, pos, st, n)[i].tok.span.end
                <= #[trigger] chain(src, pos, st, n)[j].tok.span.start,
    decreases n,
{
    let c = chain(src, pos, st, n);
    if n > 0 {
        lemma_lexed_token_bounds(src, pos);
        match lex_step(src, pos, st) {
            LexStep::Token(ct) => {
                let e = ct.tok.span.end as int;
                let rest = chain(src, e, ct.state, (n - 1) as nat);
                lemma_chain_bounds(src, e, ct.state, (n - 1) as nat);
                assert(c == seq![ct] + rest);
                assert forall|i: int| 0 <= i < c.len() implies pos <= #[trigger] c[i].tok.span.start
                    < c[i].tok.span.end <= src.len() by {
                    if i > 0 {
                        assert(c[i] == rest[i - 1]);
                    }
                }
                assert forall|i: int, j: int| 0 <= i < j < c.len() implies #[trigger] c[i].tok.span.end
                    <= #[trigger] c[j].tok.span.start by {
                    assert(c[j] == rest[j - 1]);
                    if i > 0 {
                        assert(c[i] == rest[i - 1]);
                    }
                }
            },
            _ => {},
        }
    }
}

/// The tokens of a gated run are exactly the plain chain of the same length.
pub proof fn lemma_run_is_chain(
    src: Seq<u8>,
    poison: Option<usize>,
    pos: int,
    st: TokenLimiter,
    b: TokenBudget,
    n: nat,
)
    ensures
        gated_run(src, poison, pos, st, b, n).0 == chain(
            src,
            pos,
            st,
            gated_run(src, poison, pos, st, b, n).0.len(),
        ),
        gated_run(src, poison, pos, st, b, n).0.len() <= n,
        gated_run(src, poison, pos, st, b, n).1 is Full ==> gated_run(
            src,
            poison,
            pos,
            st,
            b,
            n,
        ).0.len() == n,
    decreases n,
{
    let r = gated_run(src, poison, pos, st, b, n);
    if n == 0 || reached_in(poison, pos) {
        assert(r.0 =~= chain(src, pos, st, 0));
    } else {
        let (g, b1) = gated_step(src, pos, st, b);
        match g {
            Gated::Token(ct) => {
                let e = ct.tok.span.end as int;
                lemma_run_is_chain(src, poison, e, ct.state, b1, (n - 1) as nat);
                let rest = gated_run(src, poison, e, ct.state, b1, (n - 1) as nat);
                assert(lex_step(src, pos, st) == LexStep::Token(ct));
                assert(chain(src, pos, st, r.0.len()) == seq![ct] + chain(
                    src,
                    e,
                    ct.state,
                    (r.0.len() - 1) as nat,
                ));
                assert(r.0 =~= chain(src, pos, st, r.0.len()));
            },
            _ => {
                assert(r.0 =~= chain(src, pos, st, 0));
            },
        }
    }
}

/// Extending a run by one step: a run that stopped early stays stopped; a full one takes one more
/// step from where its tokens end.
pub proof fn lemma_run_snoc(
    src: Seq<u8>,
    poison: Option<usize>,
    pos: int,
    st: TokenLimiter,
    b: TokenBudget,
    n: nat,
)
    ensures
        ({
            let r = gated_run(src, poison, pos, st, b, n);
            let r1 = gated_run(src, poison, pos, st, b, n + 1);
            if r.1 is Full {
                let s = run_step(
                    src,
                    poison,
                    chain_end_pos(pos, r.0),
                    chain_end_state(st, r.0),
                    r.2,
                );
                r1 == (r.0 + s.0, s.1, s.2)
            } else {
                r1 == r
            }
        }),
    decreases n,
{
    let r = gated_run(src, poison, pos, st, b, n);
    let r1 = gated_run(src, poison, pos, st, b, n + 1);
    if n == 0 {
        let s = run_step(src, poison, pos, st, b);
        assert(r.0 =~= Seq::<CachedToken>::empty());
        assert(gated_run(src, poison, pos, st, b, 1) == s);
        assert(r.0 + s.0 =~= s.0);
    } else if reached_in(poison, pos) {
    } else {
        let (g, b1) = gated_step(src, pos, st, b);
        match g {
            Gated::Token(ct) => {
                let e = ct.tok.span.end as int;
                lemma_run_snoc(src, poison, e, ct.state, b1, (n - 1) as nat);
                let q = gated_run(src, poison, e, ct.state, b1, (n - 1) as nat);
                let q1 = gated_run(src, poison, e, ct.state, b1, n as nat);
                assert(r == (seq![ct] + q.0, q.1, q.2));
                assert(r1 == (seq![ct] + q1.0, q1.1, q1.2));
                if q.1 is Full {
                    let s = run_step(
                        src,
                        poison,
                        chain_end_pos(e, q.0),
                        chain_end_state(ct.state, q.0),
                        q.2,
                    );
                    if q.0.len() > 0 {
                        assert((seq![ct] + q.0).last() == q.0.last());
                    } else {
                        assert((seq![ct] + q.0).last() == ct);
                    }
                    assert(chain_end_pos(pos, r.0) == chain_end_pos(e, q.0));
                    assert(chain_end_state(st, r.0) == chain_end_state(ct.state, q.0));
                    assert(seq![ct] + (q.0 + s.0) =~= (seq![ct] + q.0) + s.0);
                }
            },
            _ => {},
        }
    }
}

/// A chain of `n` tokens followed by the chain after it is the chain of the sum.
pub proof fn lemma_chain_append(src: Seq<u8>, pos: int, st: TokenLimiter, n: nat, m: nat)
    requires
        chain(src, pos, st, n).len() == n,
    ensures
        chain(src, pos, st, n + m) == chain(src, pos, st, n) + chain(
            src,
            chain_end_pos(pos, chain(src, pos, st, n)),
            chain_end_state(st, chain(src, pos, st, n)),
            m,
        ),
    decreases n,
{
    let c = chain(src, pos, st, n);
    if n == 0 {
        assert(c =~= Seq::<CachedToken>::empty());
        assert(c + chain(src, pos, st, m) =~= chain(src, pos, st, m));
    } else {
        lemma_chain_head(src, pos, st, n);
        let ct = c[0];
        let e = ct.tok.span.end as int;
        lemma_chain_append(src, e, ct.state, (n - 1) as nat, m);
        let rest = chain(src, e, ct.state, (n - 1) as nat);
        assert(c == seq![ct] + rest);
        if n > 1 {
            assert(c.last() == rest.last());
        }
        assert(chain(src, pos, st, n + m) == seq![ct] + chain(src, e, ct.state, (n - 1 + m) as nat));
        assert(chain_end_pos(pos, c) == chain_end_pos(e, rest));
        assert(chain_end_state(st, c) == chain_end_state(ct.state, rest));
        assert(seq![ct] + (rest + chain(src, chain_end_pos(e, rest), chain_end_state(ct.state, rest), m))
            =~= c + chain(src, chain_end_pos(e, rest), chain_end_state(ct.state, rest), m));
    }
}

/// The first `k` tokens of a chain of `n >= k` are the chain of `k`.
pub proof fn lemma_chain_take(src: Seq<u8>, pos: int, st: TokenLimiter, n: nat, k: nat)
    requires
        k <= n,
    ensures
        chain(src, pos, st, n).take(k as int) == chain(src, pos, st, k) || chain(src, pos, st, n).len() < k,
        chain(src, pos, st, n).len() >= k ==> chain(src, pos, st, n).take(k as int) == chain(src, pos, st, k),
        chain(src, pos, st, n).len() < k ==> chain(src, pos, st, n) == chain(src, pos, st, k),
    decreases k,
{
    let c = chain(src, pos, st, n);
    if k == 0 {
        assert(c.take(0) =~= chain(src, pos, st, 0));
    } else {
        match lex_step(src, pos, st) {
            LexStep::Token(ct) => {
                let e = ct.tok.span.end as int;
                lemma_chain_take(src, e, ct.state, (n - 1) as nat, (k - 1) as nat);
                let rest = chain(src, e, ct.state, (n - 1) as nat);
                assert(c == seq![ct] + rest);
                assert(chain(src, pos, st, k) == seq![ct] + chain(src, e, ct.state, (k - 1) as nat));
                if c.len() >= k {
                    assert(c.take(k as int) =~= seq![ct] + rest.take((k - 1) as int));
                }
            },
            _ => {
                assert(c =~= Seq::<CachedToken>::empty());
                assert(chain(src, pos, st, k) =~= Seq::<CachedToken>::empty());
            },
        }
    }
}

/// Where a chain ends after two pieces is where the second piece ends, started where the first
/// one ended.
pub proof fn lemma_chain_end_concat(pos: int, st: TokenLimiter, a: Seq<CachedToken>, b: Seq<CachedToken>)
    ensures
        chain_end_pos(pos, a + b) == chain_end_pos(chain_end_pos(pos, a), b),
        chain_end_state(st, a + b) == chain_end_state(chain_end_state(st, a), b),
{
    if b.len() > 0 {
        assert((a + b).last() == b.last());
    } else {
        assert(a + b =~= a);
    }
}

/// A run that stopped early gives the same answer however many more steps it is allowed.
pub proof fn lemma_run_stable(
    src: Seq<u8>,
    poison: Option<usize>,
    pos: int,
    st: TokenLimiter,
    b: TokenBudget,
    n: nat,
    m: nat,
)
    requires
        n <= m,
        !(gated_run(src, poison, pos, st, b, n).1 is Full),
    ensures
        gated_run(src, poison, pos, st, b, m) == gated_run(src, poison, pos, st, b, n),
    decreases m - n,
{
    if n < m {
        lemma_run_snoc(src, poison, pos, st, b, n);
        lemma_run_stable(src, poison, pos, st, b, n + 1, m);
    }
}

} // verus!
