//! The input: a byte source, the lexer state and committed span (ground truth), the token front
//! (tokens lexed ahead and not yet consumed), the emitter, the lineage memos, the poison boundary,
//! and the three monotone session facts (the recursion budget, the token budget and the trip
//! counters). [`InputRef`] is the handle a parser drives it through.
//!
//! # The cache is invisible
//!
//! The front always holds exactly the next tokens lexing from the committed position would
//! produce ([`InputModel::wf`]), so every observable of a consume, a peek or a skip is a function
//! of the token stream alone and never of how much of it had been looked ahead.
use vstd::prelude::*;
use vstd::string::*;
use vstd::math::min;
use vstd::std_specs::convert::FromSpec;
use crate::error::UnexpectedEot;
use crate::emitter::{Channel, Emission, Emitter, EmitterMode, EmitterModel, error_outcome};
use crate::lexer::{
    CachedToken, LexStep, Token, TokenKind, chain, chain_end_pos, chain_end_state, counted,
    lemma_chain_push, lemma_lexed_token_bounds, lex_step, lex_step_at, lexed_token, skip_space,
};
use crate::lineage::{Lineage, LineageModel};
use crate::recursion::{RecursionLimitReached, RecursionLimiter};
use crate::span::{SimpleSpan, Spanned};
use crate::staged_trip::{StagedTrip, clamped};
use crate::stream::{
    Gated, RunEnd, gated_run, gated_step, lemma_chain_bounds, lemma_chain_head, lemma_run_is_chain,
    reached_in,
};
use crate::token_budget::TokenBudget;
use crate::token_limiter::{TokenLimitExceeded, TokenLimiter};

pub mod consume;
mod speculate;
pub mod scan;
mod emit;
pub mod transaction;
pub mod descent;

verus! {

broadcast use crate::token_budget::TokenBudget::lemma_after_spend, crate::token_budget::TokenBudget::lemma_after_latch;

/// The token cache's retention policy: how many tokens a peek keeps resident ahead of the cursor.
#[derive(Debug, Clone, Copy, PartialEq, Eq, Hash)]
pub struct Cache {
    capacity: usize,
}

impl Cache {
    /// A cache that keeps up to `capacity` peeked tokens resident.
    pub fn with_capacity(capacity: usize) -> (r: Self)
        ensures
            r.spec_capacity() == capacity,
    {
        Cache { capacity }
    }

    /// How many peeked tokens it keeps resident.
    pub closed spec fn spec_capacity(self) -> usize {
        self.capacity
    }

    /// How many peeked tokens it keeps resident.
    pub fn capacity(&self) -> (r: usize)
        ensures
            r == self.spec_capacity(),
    {
        self.capacity
    }
}

impl Default for Cache {
    /// The default cache: a deque of three.
    fn default() -> (r: Self)
        ensures
            r.spec_capacity() == 3,
    {
        Cache { capacity: 3 }
    }
}

/// The bundle an input is built from: the emitter and cache it binds, and the two budgets it
/// starts with.
pub struct InputContext<Em, C> {
    emitter: Em,
    cache: C,
    recursion: RecursionLimiter,
    token_budget: TokenBudget,
}

impl<Em, C> InputContext<Em, C> {
    /// The emitter.
    pub closed spec fn spec_emitter(self) -> Em {
        self.emitter
    }

    /// The cache.
    pub closed spec fn spec_cache(self) -> C {
        self.cache
    }

    /// The recursion budget.
    pub closed spec fn spec_recursion(self) -> RecursionLimiter {
        self.recursion
    }

    /// The token budget.
    pub closed spec fn spec_token_budget(self) -> TokenBudget {
        self.token_budget
    }

    /// Binds `emitter` and `cache`, with the parse-default recursion budget and no token ceiling.
    pub fn new(emitter: Em, cache: C) -> (r: Self)
        ensures
            r.spec_emitter() == emitter,
            r.spec_cache() == cache,
            r.spec_recursion().spec_depth() == 0,
            r.spec_recursion().spec_limitation() == RecursionLimiter::PARSE_DEFAULT_DEPTH,
            r.spec_token_budget().spec_max() == usize::MAX,
            r.spec_token_budget().spec_spent() == 0,
            !r.spec_token_budget().spec_refused(),
    {
        InputContext {
            emitter,
            cache,
            recursion: RecursionLimiter::parse_default(),
            token_budget: TokenBudget::unlimited(),
        }
    }

    /// Replaces the recursion budget, leaving the other cells alone.
    pub fn with_recursion_limiter(self, recursion: RecursionLimiter) -> (r: Self)
        ensures
            r.spec_emitter() == self.spec_emitter(),
            r.spec_cache() == self.spec_cache(),
            r.spec_recursion() == recursion,
            r.spec_token_budget() == self.spec_token_budget(),
    {
        InputContext { recursion, ..self }
    }

    /// Replaces the token budget, leaving the other cells alone.
    pub fn with_token_budget(self, token_budget: TokenBudget) -> (r: Self)
        ensures
            r.spec_emitter() == self.spec_emitter(),
            r.spec_cache() == self.spec_cache(),
            r.spec_recursion() == self.spec_recursion(),
            r.spec_token_budget() == token_budget,
    {
        InputContext { token_budget, ..self }
    }

    /// The four components, apart.
    pub fn into_components(self) -> (r: (Em, C, RecursionLimiter, TokenBudget))
        ensures
            r.0 == self.spec_emitter(),
            r.1 == self.spec_cache(),
            r.2 == self.spec_recursion(),
            r.3 == self.spec_token_budget(),
    {
        (self.emitter, self.cache, self.recursion, self.token_budget)
    }
}

/// A saved position: everything a restore puts back.
#[derive(Debug, Clone, Copy, PartialEq, Eq)]
pub struct Checkpoint {
    span: SimpleSpan,
    state: TokenLimiter,
    poison: Option<usize>,
    mark: u64,
    cache_pushes: u64,
    ckp_id: u64,
}

impl Checkpoint {
    /// The committed span saved.
    pub closed spec fn spec_span(self) -> SimpleSpan {
        self.span
    }

    /// The lexer state saved.
    pub closed spec fn spec_state(self) -> TokenLimiter {
        self.state
    }

    /// The poison boundary saved.
    pub closed spec fn spec_poison(self) -> Option<usize> {
        self.poison
    }

    /// The emitter mark taken.
    pub closed spec fn spec_mark(self) -> u64 {
        self.mark
    }

    /// The lineage id of this checkpoint.
    pub closed spec fn spec_id(self) -> u64 {
        self.ckp_id
    }

    /// The cache-push count saved.
    pub closed spec fn spec_cache_pushes(self) -> u64 {
        self.cache_pushes
    }

    /// The lineage id of this checkpoint.
    pub fn id(&self) -> (r: u64)
        ensures
            r == self.spec_id(),
    {
        self.ckp_id
    }
}

/// The checkpoint a save takes of `m`: its ground truth, its emitter mark, and the next lineage id.
pub closed spec fn checkpoint_of<E>(m: InputModel<E>) -> Checkpoint {
    Checkpoint {
        span: m.span,
        state: m.state,
        poison: m.poison,
        mark: m.emitter.log.len() as u64,
        cache_pushes: m.lineage.cache_pushes,
        ckp_id: m.lineage.next_id,
    }
}

/// What [`checkpoint_of`] saves.
pub broadcast proof fn lemma_checkpoint_of<E>(m: InputModel<E>)
    ensures
        #[trigger] checkpoint_of(m).spec_span() == m.span,
        checkpoint_of(m).spec_state() == m.state,
        checkpoint_of(m).spec_poison() == m.poison,
        checkpoint_of(m).spec_mark() == m.emitter.log.len() as u64,
        checkpoint_of(m).spec_cache_pushes() == m.lineage.cache_pushes,
        checkpoint_of(m).spec_id() == m.lineage.next_id,
{
}

/// How many of the open points `pts` (oldest first) are older than the checkpoint `id`: the
/// ones a rollback to `id` leaves standing.
pub open spec fn points_below(pts: Seq<Checkpoint>, id: u64) -> nat
    decreases pts.len(),
{
    if pts.len() > 0 && pts.last().spec_id() >= id {
        points_below(pts.drop_last(), id)
    } else {
        pts.len()
    }
}

/// At most every point is left standing.
pub proof fn lemma_points_below_len(pts: Seq<Checkpoint>, id: u64)
    ensures
        points_below(pts, id) <= pts.len(),
    decreases pts.len(),
{
    if pts.len() > 0 && pts.last().spec_id() >= id {
        lemma_points_below_len(pts.drop_last(), id);
    }
}

/// The lineage after the points `pts` were abandoned, newest first: each one's pin released.
pub open spec fn unpinned_points(l: LineageModel, pts: Seq<Checkpoint>) -> LineageModel
    decreases pts.len(),
{
    if pts.len() == 0 {
        l
    } else {
        unpinned_points(l.unpinned(pts.last().spec_id()), pts.drop_last())
    }
}

/// The lineage after the points `pts` were released, newest first: each one's pin and lineage
/// entry dropped, its progress kept.
pub open spec fn released_points(l: LineageModel, pts: Seq<Checkpoint>) -> LineageModel
    decreases pts.len(),
{
    if pts.len() == 0 {
        l
    } else {
        released_points(
            l.unpinned(pts.last().spec_id()).forgotten(pts.last().spec_id()),
            pts.drop_last(),
        )
    }
}

/// The mathematical value of an [`Input`].
pub struct InputModel<E> {
    pub src: Seq<u8>,
    pub state: TokenLimiter,
    pub span: SimpleSpan,
    pub front: Seq<CachedToken>,
    pub cache_capacity: usize,
    pub poison: Option<usize>,
    pub emitter: EmitterModel<E>,
    pub lineage: LineageModel,
    pub recursion: RecursionLimiter,
    pub budget: TokenBudget,
    pub resource_trips: u64,
    pub scanner_trips: u64,
}

/// The counter after one more trip, saturating at the ceiling.
pub open spec fn bumped(n: u64) -> u64 {
    if n == u64::MAX { u64::MAX } else { (n + 1) as u64 }
}

/// Where a consume's token came from.
pub enum Pull {
    /// A token: the front's head, or one lexed at the committed position.
    Yield(Token),
    /// Nothing: the end of input, the poison boundary, or a refusal by the token budget.
    Halt,
    /// A token passed the lexer-side limiter: a terminal stop, reported as a lexer error.
    Trip(Token, TokenLimitExceeded),
}

/// The head a fill of one shows: its first token, or `eot` when it showed nothing because it
/// stopped terminally, or nothing at a genuine end.
pub open spec fn head_of<E>(fr: Result<(Seq<CachedToken>, bool), E>, eot: E) -> Result<Option<Token>, E> {
    match fr {
        Ok((w, terminal)) => if w.len() > 0 {
            Ok(Some(w[0].tok))
        } else if terminal {
            Err(eot)
        } else {
            Ok(None)
        },
        Err(e) => Err(e),
    }
}

/// `n` consecutive consumes from `m`, stopping early at the first that yields nothing: the
/// tokens they yielded and the input after them.
pub open spec fn pulled<E>(m: InputModel<E>, n: nat) -> (Seq<Token>, InputModel<E>)
    decreases n,
{
    if n == 0 {
        (Seq::empty(), m)
    } else {
        let (ts, mk) = pulled(m, (n - 1) as nat);
        let (p, m2) = mk.pull();
        match p {
            Pull::Yield(t) => if ts.len() == n - 1 { (ts.push(t), m2) } else { (ts, mk) },
            _ => (ts, mk),
        }
    }
}

/// `n` skips of a scan from `m`: consumes that yielded, each followed — when the scan
/// `reports` — by its unexpected-token report, `errs[i]` standing for the i-th. Stops early at
/// the first consume that yields nothing.
pub open spec fn skipped<E>(m: InputModel<E>, n: nat, reports: bool, errs: Seq<E>) -> (Seq<Token>, InputModel<E>)
    decreases n,
{
    if n == 0 {
        (Seq::empty(), m)
    } else {
        let (ts, mk) = skipped(m, (n - 1) as nat, reports, errs);
        let (p, m2) = mk.pull();
        match p {
            Pull::Yield(t) => if ts.len() == n - 1 {
                (
                    ts.push(t),
                    if reports {
                        m2.offered(Emission::Error { channel: Channel::UnexpectedToken, span: t.span, error: errs[n - 1] })
                    } else {
                        m2
                    },
                )
            } else {
                (ts, mk)
            },
            _ => (ts, mk),
        }
    }
}

/// The skips up to `n` look only at the first `n` reports.
pub proof fn lemma_skipped_extend<E>(m: InputModel<E>, n: nat, reports: bool, errs: Seq<E>, e: E)
    requires
        errs.len() >= n,
    ensures
        skipped(m, n, reports, errs.push(e)) == skipped(m, n, reports, errs),
    decreases n,
{
    if n > 0 {
        lemma_skipped_extend(m, (n - 1) as nat, reports, errs, e);
        assert(errs.push(e)[n - 1] == errs[n - 1]);
    }
}

/// A consume moves the input forward, and so does putting its token back.
pub proof fn lemma_pull_advances<E>(m: InputModel<E>)
    requires
        m.wf(),
    ensures
        m.advanced_to(m.pull().1),
        m.pull().0 is Yield ==> m.advanced_to(m.put_back()),
        m.pull().0 is Yield ==> m.pull().1.span.end > m.span.end,
{
    lemma_chain_bounds(m.src, m.span.end as int, m.state, m.front.len());
    if m.front.len() > 0 {
        assert(m.front[0].tok.span.start < m.front[0].tok.span.end);
    } else {
        reveal_with_fuel(gated_run, 2);
        lemma_run_is_chain(m.src, m.poison, m.span.end as int, m.state, m.budget, 1);
        lemma_chain_bounds(m.src, m.span.end as int, m.state, 1);
        crate::lexer::lemma_lexed_token_bounds(m.src, m.span.end as int);
        let r = m.run(1);
        if r.0.len() > 0 {
            assert(r.0[0].tok.span.start < r.0[0].tok.span.end);
        }
    }
}

/// Whether a run stopped terminally: at the poison boundary, on a limit trip, or on a refusal.
pub open spec fn terminal_end(end: RunEnd) -> bool {
    end is Boundary || end is Trip || end is Refused
}

/// The limit report for a token lexed under `st` that passed the limiter.
pub open spec fn exceeded(st: TokenLimiter) -> TokenLimitExceeded {
    TokenLimitExceeded { tokens: counted(st).tokens, limitation: st.limitation }
}

/// What a terminal limit stop answers: a fatal emitter fails with the report, the others halt.
pub open spec fn stop_answer<E, T>(mode: EmitterMode, e: E) -> Result<Option<T>, E> {
    if mode == EmitterMode::Fatal { Err(e) } else { Ok(None) }
}

impl<E> InputModel<E> {
    /// The input invariant: the committed span lies in the source, the lineage is well formed,
    /// and the front holds exactly the next tokens lexing from the committed position produces.
    pub open spec fn wf(self) -> bool {
        &&& self.span.start <= self.span.end <= self.src.len()
        &&& self.src.len() <= usize::MAX
        &&& self.lineage.wf()
        &&& self.front == chain(self.src, self.span.end as int, self.state, self.front.len())
    }

    /// Where lexing ahead resumes: after the last token of the front.
    pub open spec fn lex_pos(self) -> int {
        chain_end_pos(self.span.end as int, self.front)
    }

    /// The state lexing ahead resumes under.
    pub open spec fn lex_state(self) -> TokenLimiter {
        chain_end_state(self.state, self.front)
    }

    /// The front of the stream: the start of the next unconsumed token when one is resident,
    /// else the end of the committed span.
    pub open spec fn cursor(self) -> usize {
        if self.front.len() > 0 { self.front[0].tok.span.start } else { self.span.end }
    }

    /// Whether `pos` is at or past the latched poison boundary.
    pub open spec fn reached(self, pos: int) -> bool {
        match self.poison {
            Some(b) => pos >= b,
            None => false,
        }
    }

    /// The input after the front token was consumed.
    pub open spec fn consumed_front(self) -> InputModel<E> {
        InputModel {
            span: self.front[0].tok.span,
            state: self.front[0].state,
            front: self.front.drop_first(),
            ..self
        }
    }

    /// The input after `ct`, lexed at the committed position, was consumed, under budget `b`.
    pub open spec fn committed(self, ct: CachedToken, b: TokenBudget) -> InputModel<E> {
        InputModel { span: ct.tok.span, state: ct.state, budget: b, ..self }
    }

    /// The input after a terminal scanner stop at `boundary`, under budget `b`.
    pub open spec fn tripped(self, boundary: usize, b: TokenBudget) -> InputModel<E> {
        InputModel {
            poison: clamped(self.poison, boundary),
            scanner_trips: bumped(self.scanner_trips),
            budget: b,
            ..self
        }
    }

    /// The input after a checkpoint was restored: ground truth and the lineage memos put back,
    /// the front dropped (the region re-lexes to the same tokens), the emission log truncated.
    pub open spec fn restored(self, ckp: Checkpoint) -> InputModel<E> {
        InputModel {
            span: ckp.spec_span(),
            state: ckp.spec_state(),
            poison: ckp.spec_poison(),
            front: Seq::empty(),
            emitter: self.emitter.rewound(ckp.spec_mark()),
            lineage: LineageModel {
                cache_pushes: ckp.spec_cache_pushes(),
                ..self.lineage.popped_through(ckp.spec_id())
            },
            ..self
        }
    }

    /// Whether a checkpoint can be restored into this input: its span lies in the source.
    pub open spec fn admits(self, ckp: Checkpoint) -> bool {
        ckp.spec_span().start <= ckp.spec_span().end <= self.src.len()
    }

    /// Up to `n` budget-gated lexing steps from where the front ends.
    pub open spec fn run(self, n: nat) -> (Seq<CachedToken>, RunEnd, TokenBudget) {
        gated_run(self.src, self.poison, self.lex_pos(), self.lex_state(), self.budget, n)
    }

    /// The input after `em` was offered to its emitter.
    pub open spec fn offered(self, em: Emission<E>) -> InputModel<E> {
        InputModel { emitter: self.emitter.offered(em), ..self }
    }

    /// The input after the lexer collapsed its span at the end of input `e`.
    pub open spec fn at_end(self, e: usize, b: TokenBudget) -> InputModel<E> {
        InputModel { span: SimpleSpan { start: e, end: e }, budget: b, ..self }
    }

    /// What consuming the next token does: where it comes from (the front, or one gated lexing
    /// step at the committed position) and the input after it, before any diagnostic is offered.
    pub open spec fn pull(self) -> (Pull, InputModel<E>) {
        if self.front.len() > 0 {
            (Pull::Yield(self.front[0].tok), self.consumed_front())
        } else {
            let r = self.run(1);
            match r.1 {
                RunEnd::Full => (Pull::Yield(r.0[0].tok), self.committed(r.0[0], r.2)),
                RunEnd::Eof(e) => (Pull::Halt, self.at_end(e, r.2)),
                RunEnd::Boundary => (Pull::Halt, self),
                RunEnd::Trip(t, at, st) => (Pull::Trip(t, exceeded(st)), self.tripped(at, r.2)),
                RunEnd::Refused(at) => (Pull::Halt, self.tripped(at, r.2)),
            }
        }
    }

    /// Whether `fin` and `r` are what consuming the next token of this input gives; `err` stands
    /// for the report a limit stop converts to.
    pub open spec fn next_answer(self, fin: InputModel<E>, r: Result<Option<Token>, E>, err: E) -> bool
        where E: From<TokenLimitExceeded>
    {
        let (p, m) = self.pull();
        match p {
            Pull::Yield(t) => r == Ok::<Option<Token>, E>(Some(t)) && fin == m,
            Pull::Halt => r == Ok::<Option<Token>, E>(None) && fin == m,
            Pull::Trip(t, x) => {
                &&& fin == m.offered(Emission::Error { channel: Channel::Lexer, span: t.span, error: err })
                &&& r == stop_answer::<E, Token>(self.emitter.mode, err)
                &&& E::obeys_from_spec() ==> err == E::from_spec(x)
            },
        }
    }

    /// How many more tokens the cache retains.
    pub open spec fn room(self) -> nat {
        if self.front.len() < self.cache_capacity { (self.cache_capacity - self.front.len()) as nat } else { 0 }
    }

    /// How many tokens a peek of `window` asks the lexer for.
    pub open spec fn want(self, window: usize) -> nat {
        if self.front.len() >= window { 0 } else { (window - self.front.len()) as nat }
    }

    /// What a peek of `window` tokens does: the tokens it shows, why its lexing stopped, and the
    /// input after it, before any diagnostic is offered. The cache keeps what it has room for;
    /// the rest is shown and re-lexed later, except after a limit trip, which shows only what
    /// was kept.
    pub open spec fn fill(self, window: usize) -> (Seq<CachedToken>, RunEnd, InputModel<E>) {
        let r = self.run(self.want(window));
        let kept = r.0.take(min(self.room() as int, r.0.len() as int));
        let m = InputModel { front: self.front + kept, budget: r.2, ..self };
        let shown = match r.1 {
            RunEnd::Trip(..) => self.front + kept,
            _ => self.front + r.0,
        };
        let fin = match r.1 {
            RunEnd::Trip(_, at, _) => m.tripped(at, r.2),
            RunEnd::Refused(at) => m.tripped(at, r.2),
            _ => m,
        };
        (shown.take(min(window as int, shown.len() as int)), r.1, fin)
    }

    /// Whether `fin` and `r` are what a peek of `window` gives: the shown tokens and whether the
    /// fill stopped terminally; `err` stands for the report a limit trip converts to.
    pub open spec fn fill_answer(
        self,
        window: usize,
        fin: InputModel<E>,
        r: Result<(Seq<CachedToken>, bool), E>,
        err: E,
    ) -> bool
        where E: From<TokenLimitExceeded>
    {
        let (shown, end, m) = self.fill(window);
        match end {
            RunEnd::Trip(t, _, st) => {
                &&& fin == m.offered(Emission::Error { channel: Channel::Lexer, span: t.span, error: err })
                &&& r == (if self.emitter.mode == EmitterMode::Fatal { Err(err) } else { Ok((shown, true)) })
                &&& E::obeys_from_spec() ==> err == E::from_spec(exceeded(st))
            },
            _ => fin == m && r == Ok::<(Seq<CachedToken>, bool), E>((shown, terminal_end(end))),
        }
    }

    /// Whether `fin` and `r` are what reading the head of the stream gives: the front's head
    /// when one is resident (nothing changes), else a fill of one; a fill that shows nothing
    /// because it stopped terminally answers `eot`.
    pub open spec fn head_answer(
        self,
        fin: InputModel<E>,
        r: Result<Option<Token>, E>,
        eot: E,
    ) -> bool
        where E: From<TokenLimitExceeded> + From<UnexpectedEot>
    {
        if self.front.len() > 0 {
            fin == self && r == Ok::<Option<Token>, E>(Some(self.front[0].tok))
        } else {
            &&& <E as FromSpec<UnexpectedEot>>::obeys_from_spec() ==> eot == <E as FromSpec<
                UnexpectedEot,
            >>::from_spec(UnexpectedEot { offset: self.span.end, terminal: true })
            &&& exists|err: E, fr: Result<(Seq<CachedToken>, bool), E>|
                #![trigger self.fill_answer(1, fin, fr, err)]
                self.fill_answer(1, fin, fr, err) && r == head_of(fr, eot)
        }
    }

    /// The input after its first `k` resident tokens were consumed.
    pub open spec fn consumed_n(self, k: int) -> InputModel<E> {
        if k <= 0 {
            self
        } else {
            InputModel {
                span: self.front[k - 1].tok.span,
                state: self.front[k - 1].state,
                front: self.front.skip(k),
                ..self
            }
        }
    }

    /// The input after its next token was looked at and left where it was: a resident head
    /// stays; a freshly lexed one becomes the front.
    pub open spec fn put_back(self) -> InputModel<E> {
        if self.front.len() > 0 {
            self
        } else {
            let r = self.run(1);
            InputModel { front: r.0, budget: r.2, ..self }
        }
    }

    /// Whether the next consume meets a genuine end of input (not a boundary, trip or refusal).
    pub open spec fn meets_eof(self) -> bool {
        self.front.len() == 0 && !self.reached(self.span.end as int) && self.run(1).1 is Eof
    }

    /// This input with the ground truth of `entry` put back and every emission since rewound: the
    /// no-trace exit of a scan that found nothing. The budget and the trip counters stay.
    pub open spec fn rewound_to(self, entry: InputModel<E>) -> InputModel<E> {
        InputModel {
            span: entry.span,
            state: entry.state,
            poison: entry.poison,
            front: Seq::empty(),
            emitter: self.emitter.rewound(entry.emitter.log.len() as u64),
            ..self
        }
    }

    /// Whether `fin` is this input moved forward: same source, lineage and emitter mode, and a
    /// committed end at or past this one.
    pub open spec fn advanced_to(self, fin: InputModel<E>) -> bool {
        &&& fin.src == self.src
        &&& fin.lineage == self.lineage
        &&& fin.emitter.mode == self.emitter.mode
        &&& fin.span.end >= self.span.end
    }

    /// Whether nothing more can be consumed: the front is empty and the committed position is at
    /// the end of the tokens, or at the latched poison boundary.
    pub open spec fn exhausted(self) -> bool {
        &&& self.front.len() == 0
        &&& (lexed_token(self.src, self.span.end as int) is None || self.reached(self.span.end as int))
    }
}

/// An input: the source, the ground-truth cells, the lineage memos and the session facts.
pub struct Input<E> {
    src: Vec<u8>,
    state: TokenLimiter,
    span: SimpleSpan,
    front: Vec<CachedToken>,
    cache_capacity: usize,
    poison: Option<usize>,
    emitter: Emitter<E>,
    lineage: Lineage,
    recursion: RecursionLimiter,
    token_budget: TokenBudget,
    resource_trips: u64,
    scanner_trips: u64,
}

impl<E> View for Input<E> {
    type V = InputModel<E>;

    closed spec fn view(&self) -> InputModel<E> {
        InputModel {
            src: self.src@,
            state: self.state,
            span: self.span,
            front: self.front@,
            cache_capacity: self.cache_capacity,
            poison: self.poison,
            emitter: self.emitter@,
            lineage: self.lineage@,
            recursion: self.recursion,
            budget: self.token_budget,
            resource_trips: self.resource_trips,
            scanner_trips: self.scanner_trips,
        }
    }
}

impl<E> Input<E> {
    /// Builds an input over `src`, starting from lexer state `state`, bound to the context's
    /// emitter, cache policy and budgets. Nothing is consumed yet.
    pub fn with_state_and_context(src: &str, state: TokenLimiter, ctx: InputContext<Emitter<E>, Cache>) -> (r: Self)
        ensures
            r@.wf(),
            r@.src == src.spec_bytes(),
            r@.state == state,
            r@.span == (SimpleSpan { start: 0, end: 0 }),
            r@.front.len() == 0,
            r@.cache_capacity == ctx.spec_cache().spec_capacity(),
            r@.poison is None,
            r@.emitter == ctx.spec_emitter()@,
            r@.lineage.live.len() == 0,
            r@.lineage.pinned.len() == 0,
            r@.lineage.next_id == 0,
            r@.recursion == ctx.spec_recursion(),
            r@.budget == ctx.spec_token_budget(),
            r@.resource_trips == 0,
            r@.scanner_trips == 0,
    {
        let (emitter, cache, recursion, token_budget) = ctx.into_components();
        let bytes = src.as_bytes_vec();
        let _len: usize = bytes.len();
        let r = Input {
            src: bytes,
            state,
            span: SimpleSpan { start: 0, end: 0 },
            front: Vec::new(),
            cache_capacity: cache.capacity(),
            poison: None,
            emitter,
            lineage: Lineage::new(),
            recursion,
            token_budget,
            resource_trips: 0,
            scanner_trips: 0,
        };
        assert(r@.front =~= chain(r@.src, 0, state, 0));
        r
    }

    /// A handle over this input, with no session points open.
    pub fn as_ref<'b>(&'b mut self) -> (r: InputRef<'b, E>)
        ensures
            r.model() == old(self)@,
            r.open_points().len() == 0,
    {
        InputRef { input: self, points: Vec::new() }
    }

    /// The emitter, by shared reference.
    pub fn emitter(&self) -> (r: &Emitter<E>)
        ensures
            r@ == self@.emitter,
    {
        &self.emitter
    }

    /// The number of pinned checkpoints: the begin points of the live guards, attempts and
    /// session points.
    pub fn pinned_checkpoints_len(&self) -> (r: usize)
        ensures
            r == self@.lineage.pinned.len(),
    {
        self.lineage.pinned_len()
    }

    /// The number of live checkpoints on the lineage stack.
    pub fn live_checkpoints_len(&self) -> (r: usize)
        ensures
            r == self@.lineage.live.len(),
    {
        self.lineage.live_len()
    }

    /// The committed span.
    pub fn span(&self) -> (r: SimpleSpan)
        ensures
            r == self@.span,
    {
        self.span
    }
}

/// Identifies an open session point: the lineage id of its checkpoint.
#[derive(Debug, Clone, Copy, PartialEq, Eq, Hash, Structural)]
pub struct SessionPointId {
    ckp: u64,
}

impl SessionPointId {
    /// The lineage id of the point's checkpoint.
    pub closed spec fn spec_ckp(self) -> u64 {
        self.ckp
    }

    /// The lineage id of the point's checkpoint.
    pub fn ckp(&self) -> (r: u64)
        ensures
            r == self.spec_ckp(),
    {
        self.ckp
    }
}

/// The handle a parser drives an input through. It borrows the input for its whole life and owns
/// the stack of open session points.
pub struct InputRef<'a, E> {
    input: &'a mut Input<E>,
    points: Vec<Checkpoint>,
}

/// `s` holds checkpoints with strictly ascending ids.
pub open spec fn points_ascending(s: Seq<Checkpoint>) -> bool {
    forall|i: int, j: int| 0 <= i < j < s.len() ==> s[i].spec_id() < s[j].spec_id()
}

impl<'a, E> InputRef<'a, E> {
    /// The input this handle drives.
    pub closed spec fn model(&self) -> InputModel<E> {
        (*self.input)@
    }

    /// The open session points, oldest first.
    pub closed spec fn open_points(&self) -> Seq<Checkpoint> {
        self.points@
    }

    /// The handle invariant: the input is well formed, and the open points are admissible,
    /// issued, and ordered oldest first.
    pub open spec fn wf(&self) -> bool {
        &&& self.model().wf()
        &&& points_ascending(self.open_points())
        &&& forall|i: int|
            0 <= i < self.open_points().len() ==> self.model().admits(#[trigger] self.open_points()[i])
                && self.open_points()[i].spec_id() < self.model().lineage.next_id
    }

    /// The committed span: the last consumed token (or the lexer's end after an end of input).
    pub fn span(&self) -> (r: SimpleSpan)
        ensures
            r == self.model().span,
    {
        self.input.span
    }

    /// The committed offset: where the committed span ends.
    pub open spec fn committed_offset(&self) -> usize {
        self.model().span.end
    }

    /// The committed offset: where the committed span ends.
    pub fn offset(&self) -> (r: usize)
        ensures
            r == self.model().span.end,
    {
        self.input.span.end
    }

    /// The resume cursor: the start of the token at the front of the stream when one is resident,
    /// else the committed offset. A consume moves the committed offset ([`offset`](Self::offset))
    /// to the end of the token it consumed; the cursor then reads the next resident token, the
    /// one place a scan's stop is kept.
    pub fn cursor(&self) -> (r: usize)
        ensures
            r == self.model().cursor(),
    {
        if self.input.front.len() > 0 {
            self.input.front[0].tok.span.start
        } else {
            self.input.span.end
        }
    }

    /// The lexer state at the committed position.
    pub fn state(&self) -> (r: TokenLimiter)
        ensures
            r == self.model().state,
    {
        self.input.state
    }

    /// The number of open session points.
    pub fn points(&self) -> (r: usize)
        ensures
            r == self.open_points().len(),
    {
        self.points.len()
    }

    /// The number of live checkpoints on the lineage stack.
    pub fn live_checkpoints_len(&self) -> (r: usize)
        ensures
            r == self.model().lineage.live.len(),
    {
        self.input.lineage.live_len()
    }

    /// The number of pinned checkpoints.
    pub fn pinned_checkpoints_len(&self) -> (r: usize)
        ensures
            r == self.model().lineage.pinned.len(),
    {
        self.input.lineage.pinned_len()
    }

    /// The token budget, read-only.
    pub fn token_budget(&self) -> (r: TokenBudget)
        ensures
            r == self.model().budget,
    {
        self.input.token_budget
    }

    /// The recursion budget this parse descends against: the live depth and the limit.
    /// Read-only: the only writers are [`descend`](Self::descend) and the release of its level.
    pub fn recursion(&self) -> (r: RecursionLimiter)
        ensures
            r == self.model().recursion,
    {
        self.input.recursion
    }

    /// The emitter, by shared reference: a door for reading its log mid-parse.
    pub fn emitter_ref(&self) -> (r: &Emitter<E>)
        ensures
            r@ == self.model().emitter,
    {
        &self.input.emitter
    }

    /// Whether `pos` is at or past the latched poison boundary.
    fn reached_boundary(&self, pos: usize) -> (r: bool)
        ensures
            r == self.model().reached(pos as int),
    {
        match self.input.poison {
            Some(b) => pos >= b,
            None => false,
        }
    }

    /// Where lexing ahead resumes, and under which state.
    fn lex_position(&self) -> (r: (usize, TokenLimiter))
        requires
            self.model().wf(),
        ensures
            r.0 == self.model().lex_pos(),
            r.1 == self.model().lex_state(),
            r.0 <= self.model().src.len(),
    {
        proof {
            let m = self.model();
            lemma_chain_bounds(m.src, m.span.end as int, m.state, m.front.len());
            if m.front.len() > 0 {
                let k = m.front.len() - 1;
                assert(m.front[k].tok.span.start < m.front[k].tok.span.end);
            }
        }
        let n = self.input.front.len();
        if n == 0 {
            (self.input.span.end, self.input.state)
        } else {
            let ct = self.input.front[n - 1];
            (ct.tok.span.end, ct.state)
        }
    }

    /// One budget-gated lexing step at `pos` under `st`; only the budget changes.
    fn gate_at(&mut self, pos: usize, st: TokenLimiter) -> (g: Gated)
        requires
            pos <= old(self).model().src.len(),
        ensures
            (g, final(self).model().budget) == gated_step(
                old(self).model().src,
                pos as int,
                st,
                old(self).model().budget,
            ),
            final(self).model() == (InputModel { budget: final(self).model().budget, ..old(self).model() }),
            final(self).open_points() == old(self).open_points(),
    {
        if self.input.token_budget.is_exhausted() {
            if pos >= self.input.src.len() {
                return Gated::Eof(pos);
            }
            if self.input.token_budget.limit_probe_spent() {
                return Gated::Refused;
            }
            match lex_step_at(&self.input.src, pos, st) {
                LexStep::Eof(e) => Gated::Eof(e),
                _ => {
                    self.input.token_budget.latch_limit_probe();
                    Gated::Refused
                },
            }
        } else {
            match lex_step_at(&self.input.src, pos, st) {
                LexStep::Eof(e) => Gated::Eof(e),
                LexStep::Token(ct) => {
                    self.input.token_budget.spend();
                    Gated::Token(ct)
                },
                LexStep::Trip(t) => {
                    self.input.token_budget.spend();
                    Gated::Trip(t)
                },
            }
        }
    }

    /// Latches a terminal scanner stop at `at`: the poison boundary clamps down to it and the
    /// scanner-trip counter counts it.
    fn latch_stop(&mut self, at: usize)
        ensures
            final(self).model() == (InputModel {
                poison: clamped(old(self).model().poison, at),
                scanner_trips: bumped(old(self).model().scanner_trips),
                ..old(self).model()
            }),
            final(self).open_points() == old(self).open_points(),
    {
        let staged = StagedTrip::stage(self.input.poison, at);
        let _displaced = staged.install(&mut self.input.poison);
        self.input.scanner_trips = self.input.scanner_trips.saturating_add(1);
    }

    /// Consumes the front's head: the committed span and state move to it.
    fn pop_front(&mut self) -> (ct: CachedToken)
        requires
            old(self).model().wf(),
            old(self).model().front.len() > 0,
        ensures
            ct == old(self).model().front[0],
            final(self).model() == old(self).model().consumed_front(),
            final(self).model().wf(),
            final(self).open_points() == old(self).open_points(),
    {
        proof {
            let m = self.model();
            lemma_chain_head(m.src, m.span.end as int, m.state, m.front.len());
            lemma_chain_bounds(m.src, m.span.end as int, m.state, m.front.len());
            assert(m.front[0] == m.front[0]);
        }
        let ct = self.input.front.remove(0);
        self.input.span = ct.tok.span;
        self.input.state = ct.state;
        proof {
            let m0 = old(self).model();
            let m = self.model();
            assert(m.front =~= m0.front.drop_first());
            assert(m0.front[0].tok.span.start < m0.front[0].tok.span.end);
            assert(m.front == crate::lexer::chain(m.src, m.span.end as int, m.state, m.front.len()));
            assert(m.lineage == m0.lineage);
        }
        ct
    }

    /// Puts a token lexed where the front ends at the back of the front.
    fn push_front(&mut self, ct: CachedToken)
        requires
            old(self).model().wf(),
            lex_step(old(self).model().src, old(self).model().lex_pos(), old(self).model().lex_state())
                == LexStep::Token(ct),
        ensures
            final(self).model() == (InputModel { front: old(self).model().front.push(ct), ..old(self).model() }),
            final(self).model().wf(),
            final(self).open_points() == old(self).open_points(),
    {
        proof {
            let m = self.model();
            lemma_chain_push(m.src, m.span.end as int, m.state, m.front.len());
        }
        self.input.front.push(ct);
    }

    /// Closes the handle after [releasing](Self::release_points) its open points, so that no
    /// point outlives its handle.
    pub fn close(self)
        requires
            self.wf(),
    {
        let mut h = self;
        h.release_points();
    }

    /// The source bytes of the committed span.
    pub fn slice(&self) -> (r: Vec<u8>)
        requires
            self.wf(),
        ensures
            r@ == self.model().src.subrange(
                self.model().span.start as int,
                self.model().span.end as int,
            ),
    {
        let mut out: Vec<u8> = Vec::new();
        let mut i = self.input.span.start;
        while i < self.input.span.end
            invariant
                self.wf(),
                self.input.span.start <= i <= self.input.span.end,
                out@ == self.model().src.subrange(self.model().span.start as int, i as int),
            decreases self.input.span.end - i,
        {
            out.push(self.input.src[i]);
            i = i + 1;
            assert(out@ =~= self.model().src.subrange(self.model().span.start as int, i as int));
        }
        out
    }
}

} // verus!
