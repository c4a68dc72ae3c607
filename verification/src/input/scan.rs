//! Skipping runs of tokens: the trivia skip, and the one scanner behind the recovery syncs. Every
//! skip is a run of consumes, so its observable result is a function of the token stream alone
//! and never of how much of it had been looked ahead.
use vstd::prelude::*;
use vstd::std_specs::convert::FromSpec;
use crate::emitter::{Channel, Emission, EmitterMode};
use crate::lexer::{CachedToken, Token};
use crate::span::{SimpleSpan, Spanned};
use crate::stream::{Gated, gated_run, lemma_chain_bounds, lemma_run_is_chain};
use crate::token_limiter::TokenLimitExceeded;
use crate::error::UnexpectedToken;
use crate::lexer::TokenKind;
use crate::token_limiter::TokenLimiter;
use super::{InputModel, InputRef, Pull, exceeded, lemma_skipped_extend, pulled, skipped};

verus! {

/// Whether `fin` and `r` are how a skip settles once its skipped run left the input as `mk`:
/// a token the predicate rejects stays at the front, an end settles as a consume would, and a
/// limit trip is reported (`err` standing for its report).
pub open spec fn skip_settled<E, F: Fn(&Token) -> bool>(
    mk: InputModel<E>,
    fin: InputModel<E>,
    r: Result<(), E>,
    err: E,
    pred: F,
) -> bool
    where E: From<TokenLimitExceeded>
{
    let (p, m2) = mk.pull();
    match p {
        Pull::Yield(t) => call_ensures(pred, (&t,), false) && fin == mk.put_back() && r == Ok::<(), E>(()),
        Pull::Halt => fin == m2 && r == Ok::<(), E>(()),
        Pull::Trip(t, x) => {
            &&& fin == m2.offered(Emission::Error { channel: Channel::Lexer, span: t.span, error: err })
            &&& r == (if mk.emitter.mode == EmitterMode::Fatal { Err(err) } else { Ok(()) })
            &&& E::obeys_from_spec() ==> err == E::from_spec(x)
        },
    }
}

impl<'a, E> InputRef<'a, E> {
    /// Skips tokens while `pred` accepts them, consuming each; the first one it rejects stays at
    /// the front of the stream, asked about exactly once. An end of input commits at the lexer's
    /// end; a limit trip is reported and stops the skip.
    pub fn skip_while<F>(&mut self, pred: F) -> (r: Result<(), E>)
        where E: From<TokenLimitExceeded>, F: Fn(&Token) -> bool
        requires
            old(self).wf(),
            forall|t: &Token| call_requires(pred, (t,)),
        ensures
            final(self).wf(),
            final(self).open_points() == old(self).open_points(),
            exists|n: nat, err: E|
                #![trigger pulled(old(self).model(), n), skip_settled(pulled(old(self).model(), n).1, final(self).model(), r, err, pred)]
                pulled(old(self).model(), n).0.len() == n && (forall|i: int|
                    0 <= i < n ==> call_ensures(pred, (&pulled(old(self).model(), n).0[i],), true))
                    && skip_settled(pulled(old(self).model(), n).1, final(self).model(), r, err, pred),
    {
        let ghost m0 = self.model();
        let ghost mut n: nat = 0;
        // Resident tokens first: each is asked about once, consumed when accepted.
        loop
            invariant
                self.wf(),
                self.open_points() == old(self).open_points(),
                m0 == old(self).model(),
                forall|t: &Token| call_requires(pred, (t,)),
                pulled(m0, n).0.len() == n,
                pulled(m0, n).1 == self.model(),
                forall|i: int| 0 <= i < n ==> #[trigger] call_ensures(pred, (&pulled(m0, n).0[i],), true),
            ensures
                self.model().front.len() == 0,
            decreases self.model().front.len(),
        {
            if self.input.front.len() == 0 {
                break;
            }
            let head = self.input.front[0];
            if !pred(&head.tok) {
                proof {
                    let x = vstd::pervasive::arbitrary::<E>();
                    assert(skip_settled(pulled(m0, n).1, self.model(), Ok(()), x, pred));
                }
                return Ok(());
            }
            let ghost before = self.model();
            self.pop_front();
            proof {
                assert(pulled(m0, n + 1) == (pulled(m0, n).0.push(head.tok), self.model()));
                assert forall|i: int| 0 <= i < n + 1 implies #[trigger] call_ensures(pred, (&pulled(m0, n + 1).0[i],), true) by {
                    if i < n {
                        assert(pulled(m0, n + 1).0[i] == pulled(m0, n).0[i]);
                    }
                }
                n = n + 1;
            }
        }
        // Then the lexer, one gated step at a time from the committed position.
        loop
            invariant
                self.wf(),
                self.open_points() == old(self).open_points(),
                m0 == old(self).model(),
                forall|t: &Token| call_requires(pred, (t,)),
                self.model().front.len() == 0,
                pulled(m0, n).0.len() == n,
                pulled(m0, n).1 == self.model(),
                forall|i: int| 0 <= i < n ==> #[trigger] call_ensures(pred, (&pulled(m0, n).0[i],), true),
            decreases self.model().src.len() - self.model().span.end,
        {
            let pos = self.input.span.end;
            let st = self.input.state;
            let ghost mk = self.model();
            proof {
                reveal_with_fuel(gated_run, 2);
                lemma_run_is_chain(mk.src, mk.poison, pos as int, st, mk.budget, 1);
                lemma_chain_bounds(mk.src, pos as int, st, 1);
            }
            if self.reached_boundary(pos) {
                proof {
                    let x = vstd::pervasive::arbitrary::<E>();
                    assert(skip_settled(mk, self.model(), Ok(()), x, pred));
                }
                return Ok(());
            }
            let g = self.gate_at(pos, st);
            match g {
                Gated::Token(ct) => {
                    proof {
                        let run = gated_run(mk.src, mk.poison, pos as int, st, mk.budget, 1);
                        assert(run.0 =~= seq![ct]);
                        assert(crate::lexer::chain(mk.src, pos as int, st, 1)[0] == ct);
                        assert(ct.tok.span.start < ct.tok.span.end);
                    }
                    if !pred(&ct.tok) {
                        self.push_front(ct);
                        proof {
                            let x = vstd::pervasive::arbitrary::<E>();
                            assert(self.model().front =~= seq![ct]);
                            assert(skip_settled(mk, self.model(), Ok(()), x, pred));
                        }
                        return Ok(());
                    }
                    self.input.span = ct.tok.span;
                    self.input.state = ct.state;
                    proof {
                        assert(self.model().front =~= crate::lexer::chain(self.model().src, self.model().span.end as int, self.model().state, 0));
                        assert(pulled(m0, n + 1) == (pulled(m0, n).0.push(ct.tok), self.model()));
                        assert forall|i: int| 0 <= i < n + 1 implies #[trigger] call_ensures(pred, (&pulled(m0, n + 1).0[i],), true) by {
                            if i < n {
                                assert(pulled(m0, n + 1).0[i] == pulled(m0, n).0[i]);
                            }
                        }
                        n = n + 1;
                    }
                },
                Gated::Eof(e) => {
                    self.input.span = SimpleSpan { start: e, end: e };
                    proof {
                        crate::lexer::lemma_lexed_token_bounds(mk.src, pos as int);
                        let x = vstd::pervasive::arbitrary::<E>();
                        assert(skip_settled(mk, self.model(), Ok(()), x, pred));
                    }
                    return Ok(());
                },
                Gated::Refused => {
                    self.latch_stop(pos);
                    proof {
                        let x = vstd::pervasive::arbitrary::<E>();
                        assert(skip_settled(mk, self.model(), Ok(()), x, pred));
                    }
                    return Ok(());
                },
                Gated::Trip(t) => {
                    self.latch_stop(pos);
                    let report = TokenLimitExceeded {
                        tokens: if st.tokens == usize::MAX { usize::MAX } else { st.tokens + 1 },
                        limitation: st.limitation,
                    };
                    let err = E::from(report);
                    let ghost g_err = err;
                    let answer = self.input.emitter.emit_on(Channel::Lexer, Spanned { span: t.span, data: err });
                    proof {
                        assert(report == exceeded(st));
                        assert(skip_settled(mk, self.model(), answer, g_err, pred));
                    }
                    return answer;
                },
            }
        }
    }
}

/// How a scan settles the three decisions that separate the recovery syncs from the trivia skip.
#[derive(Debug, Clone, Copy, PartialEq, Eq, Structural)]
pub enum ScanMode {
    /// Stop before the sync token; commit at the lexer's end at end of input; report skips.
    SyncTo,
    /// Consume the sync token; rewind everything at end of input; report skips.
    SyncThrough,
    /// Stop before the sync token; rewind everything at end of input; report nothing.
    SyncBalanced,
    /// Stop before the token that ends the run; commit at the lexer's end; report nothing.
    SkipWhile,
}

impl ScanMode {
    /// Whether each skipped token is reported as unexpected.
    pub open spec fn spec_reports(self) -> bool {
        self == ScanMode::SyncTo || self == ScanMode::SyncThrough
    }

    /// Whether the stopping token is consumed.
    pub open spec fn spec_consumes_stop(self) -> bool {
        self == ScanMode::SyncThrough
    }

    /// Whether an end of input rewinds the whole scan.
    pub open spec fn spec_rewinds_at_eof(self) -> bool {
        self == ScanMode::SyncThrough || self == ScanMode::SyncBalanced
    }

    /// Whether each skipped token is reported as unexpected.
    pub fn reports(&self) -> (r: bool)
        ensures
            r == self.spec_reports(),
    {
        match self {
            ScanMode::SyncTo => true,
            ScanMode::SyncThrough => true,
            _ => false,
        }
    }

    /// Whether the stopping token is consumed.
    pub fn consumes_stop(&self) -> (r: bool)
        ensures
            r == self.spec_consumes_stop(),
    {
        match self {
            ScanMode::SyncThrough => true,
            _ => false,
        }
    }

    /// Whether an end of input rewinds the whole scan.
    pub fn rewinds_at_eof(&self) -> (r: bool)
        ensures
            r == self.spec_rewinds_at_eof(),
    {
        match self {
            ScanMode::SyncThrough => true,
            ScanMode::SyncBalanced => true,
            _ => false,
        }
    }
}

/// What a scan ended on.
#[derive(Debug, Clone, Copy, PartialEq, Eq)]
pub enum Scanned {
    /// It stopped on a token: carried here when the mode consumes it, left at the front when not.
    Found(Option<Token>),
    /// End of input, the poison boundary, a refusal or a limit trip: nothing stopped it.
    Exhausted,
}

/// The pre-call facts a scan that rewinds at end of input restores: the committed span, the
/// lexer state, the emitter mark and the poison latch.
#[derive(Debug, Clone, Copy, PartialEq, Eq)]
pub struct ThroughEntry {
    span: SimpleSpan,
    state: TokenLimiter,
    mark: u64,
    poison: Option<usize>,
}

impl ThroughEntry {
    /// Bundles the four facts.
    pub fn new(span: SimpleSpan, state: TokenLimiter, mark: u64, poison: Option<usize>) -> (r: Self)
        ensures
            r.into_components_spec() == (span, state, mark, poison),
    {
        ThroughEntry { span, state, mark, poison }
    }

    /// The four facts, apart.
    pub closed spec fn into_components_spec(self) -> (SimpleSpan, TokenLimiter, u64, Option<usize>) {
        (self.span, self.state, self.mark, self.poison)
    }

    /// The emitter mark it captured.
    pub fn mark(&self) -> (r: u64)
        ensures
            r == self.into_components_spec().2,
    {
        self.mark
    }

    /// Hands over all four facts at once.
    pub fn into_components(self) -> (r: (SimpleSpan, TokenLimiter, u64, Option<usize>))
        ensures
            r == self.into_components_spec(),
    {
        (self.span, self.state, self.mark, self.poison)
    }
}

/// Whether `fin` and `r` are how a scan in `mode`, entered at `m0`, settles once its skips left
/// the input as `mk`: on the token `pred` stops on, at an end, or on a limit trip (`err`
/// standing for its report).
pub open spec fn scan_settled<E, F: Fn(&Token) -> bool>(
    m0: InputModel<E>,
    mk: InputModel<E>,
    mode: ScanMode,
    fin: InputModel<E>,
    r: Result<Scanned, E>,
    err: E,
    pred: F,
) -> bool
    where E: From<TokenLimitExceeded>
{
    let (p, m2) = mk.pull();
    match p {
        Pull::Yield(t) => {
            &&& call_ensures(pred, (&t,), true)
            &&& if mode.spec_consumes_stop() {
                fin == m2 && r == Ok::<Scanned, E>(Scanned::Found(Some(t)))
            } else {
                fin == mk.put_back() && r == Ok::<Scanned, E>(Scanned::Found(None))
            }
        },
        Pull::Halt => {
            &&& r == Ok::<Scanned, E>(Scanned::Exhausted)
            &&& fin == (if mode.spec_rewinds_at_eof() && mk.meets_eof() { m2.rewound_to(m0) } else { m2 })
        },
        Pull::Trip(t, x) => {
            &&& fin == m2.offered(Emission::Error { channel: Channel::Lexer, span: t.span, error: err })
            &&& r == (if mk.emitter.mode == EmitterMode::Fatal { Err(err) } else { Ok(Scanned::Exhausted) })
            &&& E::obeys_from_spec() ==> err == E::from_spec(x)
        },
    }
}

/// Whether `fin` and `r` are what a scan in `mode` from `m0` gives: `n` skipped tokens the
/// predicate let pass (each reported, in a reporting mode, `errs[i]` standing for the i-th
/// report), then the settle — or, when a fatal emitter rejects a report, the error with the
/// rejected token consumed.
pub open spec fn scan_answer<E, F: Fn(&Token) -> bool>(
    m0: InputModel<E>,
    mode: ScanMode,
    n: nat,
    errs: Seq<E>,
    fin: InputModel<E>,
    r: Result<Scanned, E>,
    err: E,
    pred: F,
) -> bool
    where E: From<TokenLimitExceeded> + From<UnexpectedToken>
{
    let (ts, mk) = skipped(m0, n, mode.spec_reports(), errs);
    &&& ts.len() == n
    &&& forall|i: int| 0 <= i < n ==> #[trigger] call_ensures(pred, (&ts[i],), false)
    &&& mode.spec_reports() ==> forall|i: int| 0 <= i < n ==> (<E as FromSpec<UnexpectedToken>>::obeys_from_spec()
        ==> #[trigger] errs[i] == <E as FromSpec<UnexpectedToken>>::from_spec(
        UnexpectedToken { span: ts[i].span, found: ts[i].data },
    ))
    &&& if mode.spec_reports() && m0.emitter.mode == EmitterMode::Fatal && n > 0 {
        fin == mk && r == Err::<Scanned, E>(errs[n - 1])
    } else {
        scan_settled(m0, mk, mode, fin, r, err, pred)
    }
}

impl<'a, E> InputRef<'a, E> {
    /// Reports a skipped token as unexpected.
    fn report_skipped(&mut self, t: Token) -> (r: Result<(), E>)
        where E: From<UnexpectedToken>
        ensures
            final(self).open_points() == old(self).open_points(),
            exists|e: E|
                #![trigger old(self).model().offered(Emission::Error { channel: Channel::UnexpectedToken, span: t.span, error: e })]
                final(self).model() == old(self).model().offered(
                    Emission::Error { channel: Channel::UnexpectedToken, span: t.span, error: e },
                ) && r == crate::emitter::error_outcome(old(self).model().emitter.mode, e)
                    && (<E as FromSpec<UnexpectedToken>>::obeys_from_spec() ==> e == <E as FromSpec<
                    UnexpectedToken,
                >>::from_spec(UnexpectedToken { span: t.span, found: t.data })),
    {
        let err = E::from(UnexpectedToken::of(t.span, t.data));
        let ghost g = err;
        let r = self.input.emitter.emit_on(Channel::UnexpectedToken, Spanned { span: t.span, data: err });
        proof {
            assert(self.model() == old(self).model().offered(
                Emission::Error { channel: Channel::UnexpectedToken, span: t.span, error: g },
            ));
        }
        r
    }

    /// The one scanner: skips tokens — resident ones first, then freshly lexed ones — until
    /// `pred` stops on one or nothing more comes, diagnosing each skipped token when the mode
    /// reports, then settles per `mode`. Every exit keeps the skipped progress except a rewinding
    /// mode's end of input, which leaves no trace.
    pub fn skip_until<F>(&mut self, mode: ScanMode, pred: &F) -> (r: Result<Scanned, E>)
        where E: From<TokenLimitExceeded> + From<UnexpectedToken>, F: Fn(&Token) -> bool
        requires
            old(self).wf(),
            forall|t: &Token| call_requires(*pred, (t,)),
        ensures
            final(self).wf(),
            final(self).open_points() == old(self).open_points(),
            exists|n: nat, errs: Seq<E>, err: E|
                #![trigger scan_answer(old(self).model(), mode, n, errs, final(self).model(), r, err, *pred)]
                scan_answer(old(self).model(), mode, n, errs, final(self).model(), r, err, *pred),
    {
        let ghost m0 = self.model();
        let ghost mut n: nat = 0;
        let ghost mut errs: Seq<E> = Seq::empty();
        let reports = mode.reports();
        let entry = ThroughEntry::new(
            self.input.span,
            self.input.state,
            self.input.emitter.checkpoint(),
            self.input.poison,
        );
        loop
            invariant
                self.wf(),
                self.open_points() == old(self).open_points(),
                m0 == old(self).model(),
                m0.wf(),
                reports == mode.spec_reports(),
                entry.into_components_spec() == (m0.span, m0.state, m0.emitter.log.len() as u64, m0.poison),
                forall|t: &Token| call_requires(*pred, (t,)),
                self.model().src == m0.src,
                self.model().emitter.mode == m0.emitter.mode,
                m0.emitter.log.len() <= self.model().emitter.log.len(),
                self.model().emitter.log.take(m0.emitter.log.len() as int) == m0.emitter.log,
                errs.len() == n,
                skipped(m0, n, reports, errs).0.len() == n,
                skipped(m0, n, reports, errs).1 == self.model(),
                forall|i: int| 0 <= i < n ==> #[trigger] call_ensures(*pred, (&skipped(m0, n, reports, errs).0[i],), false),
                reports ==> forall|i: int| 0 <= i < n ==> (<E as FromSpec<UnexpectedToken>>::obeys_from_spec()
                    ==> #[trigger] errs[i] == <E as FromSpec<UnexpectedToken>>::from_spec(
                    UnexpectedToken {
                        span: skipped(m0, n, reports, errs).0[i].span,
                        found: skipped(m0, n, reports, errs).0[i].data,
                    },
                )),
                !(reports && m0.emitter.mode == EmitterMode::Fatal && n > 0),
            decreases self.model().src.len() - self.model().span.end + self.model().front.len(),
        {
            let ghost mk = self.model();
            let pos = self.input.span.end;
            let st = self.input.state;
            // Fetch: the front's head when one is resident, else one gated lexing step.
            let t: Token;
            if self.input.front.len() > 0 {
                let head = self.input.front[0];
                let stop = pred(&head.tok);
                if stop {
                    if mode.consumes_stop() {
                        self.pop_front();
                        proof {
                            let x = vstd::pervasive::arbitrary::<E>();
                            assert(scan_answer(m0, mode, n, errs, self.model(), Ok(Scanned::Found(Some(head.tok))), x, *pred));
                        }
                        return Ok(Scanned::Found(Some(head.tok)));
                    }
                    proof {
                        let x = vstd::pervasive::arbitrary::<E>();
                        assert(scan_answer(m0, mode, n, errs, self.model(), Ok(Scanned::Found(None)), x, *pred));
                    }
                    return Ok(Scanned::Found(None));
                }
                proof {
                    lemma_chain_bounds(mk.src, mk.span.end as int, mk.state, mk.front.len());
                    assert(mk.front[0].tok.span.start < mk.front[0].tok.span.end);
                }
                self.pop_front();
                t = head.tok;
            } else {
                proof {
                    reveal_with_fuel(gated_run, 2);
                    lemma_run_is_chain(mk.src, mk.poison, pos as int, st, mk.budget, 1);
                    lemma_chain_bounds(mk.src, pos as int, st, 1);
                }
                if self.reached_boundary(pos) {
                    proof {
                        let x = vstd::pervasive::arbitrary::<E>();
                        assert(scan_answer(m0, mode, n, errs, self.model(), Ok(Scanned::Exhausted), x, *pred));
                    }
                    return Ok(Scanned::Exhausted);
                }
                let g = self.gate_at(pos, st);
                match g {
                    Gated::Token(ct) => {
                        proof {
                            let run = gated_run(mk.src, mk.poison, pos as int, st, mk.budget, 1);
                            assert(run.0 =~= seq![ct]);
                            assert(crate::lexer::chain(mk.src, pos as int, st, 1)[0] == ct);
                            assert(ct.tok.span.start < ct.tok.span.end);
                        }
                        let stop = pred(&ct.tok);
                        if stop {
                            if mode.consumes_stop() {
                                self.input.span = ct.tok.span;
                                self.input.state = ct.state;
                                proof {
                                    assert(self.model().front =~= crate::lexer::chain(self.model().src, self.model().span.end as int, self.model().state, 0));
                                    let x = vstd::pervasive::arbitrary::<E>();
                                    assert(scan_answer(m0, mode, n, errs, self.model(), Ok(Scanned::Found(Some(ct.tok))), x, *pred));
                                }
                                return Ok(Scanned::Found(Some(ct.tok)));
                            }
                            self.push_front(ct);
                            proof {
                                assert(self.model().front =~= seq![ct]);
                                let x = vstd::pervasive::arbitrary::<E>();
                                assert(scan_answer(m0, mode, n, errs, self.model(), Ok(Scanned::Found(None)), x, *pred));
                            }
                            return Ok(Scanned::Found(None));
                        }
                        self.input.span = ct.tok.span;
                        self.input.state = ct.state;
                        proof {
                            assert(self.model().front =~= crate::lexer::chain(self.model().src, self.model().span.end as int, self.model().state, 0));
                        }
                        t = ct.tok;
                    },
                    Gated::Eof(e) => {
                        if mode.rewinds_at_eof() {
                            let (span, state, mark, poison) = entry.into_components();
                            self.input.span = span;
                            self.input.state = state;
                            self.input.poison = poison;
                            self.input.emitter.rewind(mark);
                            proof {
                                assert(self.model().span == m0.span);
                                assert(self.model().state == m0.state);
                                assert(self.model().lineage == mk.lineage);
                                assert(self.model().src == mk.src);
                                assert(self.model().front =~= crate::lexer::chain(self.model().src, self.model().span.end as int, self.model().state, 0));
                            }
                        } else {
                            self.input.span = SimpleSpan { start: e, end: e };
                            proof {
                                crate::lexer::lemma_lexed_token_bounds(mk.src, pos as int);
                            }
                        }
                        proof {
                            let x = vstd::pervasive::arbitrary::<E>();
                            assert(scan_answer(m0, mode, n, errs, self.model(), Ok(Scanned::Exhausted), x, *pred));
                        }
                        return Ok(Scanned::Exhausted);
                    },
                    Gated::Refused => {
                        self.latch_stop(pos);
                        proof {
                            let x = vstd::pervasive::arbitrary::<E>();
                            assert(scan_answer(m0, mode, n, errs, self.model(), Ok(Scanned::Exhausted), x, *pred));
                        }
                        return Ok(Scanned::Exhausted);
                    },
                    Gated::Trip(tt) => {
                        self.latch_stop(pos);
                        let report = TokenLimitExceeded {
                            tokens: if st.tokens == usize::MAX { usize::MAX } else { st.tokens + 1 },
                            limitation: st.limitation,
                        };
                        let err = E::from(report);
                        let ghost g_err = err;
                        let answer = self.input.emitter.emit_on(Channel::Lexer, Spanned { span: tt.span, data: err });
                        let r = match answer {
                            Ok(()) => Ok(Scanned::Exhausted),
                            Err(e) => Err(e),
                        };
                        proof {
                            assert(report == exceeded(st));
                            assert(scan_answer(m0, mode, n, errs, self.model(), r, g_err, *pred));
                        }
                        return r;
                    },
                }
            }
            // The token was skipped: consumed, and reported when the mode reports.
            let ghost m_skip = self.model();
            proof {
                assert(call_ensures(*pred, (&t,), false));
                assert(mk.pull().0 == Pull::Yield(t));
                assert(mk.pull().1 == m_skip);
            }
            if reports {
                let answer = self.report_skipped(t);
                let ghost e = choose|e: E| self.model() == m_skip.offered(
                    Emission::Error { channel: Channel::UnexpectedToken, span: t.span, error: e },
                ) && answer == crate::emitter::error_outcome(m_skip.emitter.mode, e)
                    && (<E as FromSpec<UnexpectedToken>>::obeys_from_spec() ==> e == <E as FromSpec<
                    UnexpectedToken,
                >>::from_spec(UnexpectedToken { span: t.span, found: t.data }));
                proof {
                    let old_errs = errs;
                    lemma_skipped_extend(m0, n, reports, old_errs, e);
                    errs = errs.push(e);
                    n = n + 1;
                    let prev = skipped(m0, (n - 1) as nat, reports, errs);
                    assert(prev == skipped(m0, (n - 1) as nat, reports, old_errs));
                    assert(errs[n - 1] == e);
                    assert(skipped(m0, n, reports, errs).0 == prev.0.push(t));
                    assert(skipped(m0, n, reports, errs).1 == self.model());
                    assert forall|i: int| 0 <= i < n implies #[trigger] call_ensures(*pred, (&skipped(m0, n, reports, errs).0[i],), false) by {
                        if i < n - 1 {
                            assert(skipped(m0, n, reports, errs).0[i] == prev.0[i]);
                        }
                    }
                    assert forall|i: int| 0 <= i < n implies (<E as FromSpec<UnexpectedToken>>::obeys_from_spec()
                        ==> #[trigger] errs[i] == <E as FromSpec<UnexpectedToken>>::from_spec(
                        UnexpectedToken {
                            span: skipped(m0, n, reports, errs).0[i].span,
                            found: skipped(m0, n, reports, errs).0[i].data,
                        },
                    )) by {
                        if i < n - 1 {
                            assert(skipped(m0, n, reports, errs).0[i] == prev.0[i]);
                            assert(errs[i] == old_errs[i]);
                        }
                    }
                }
                match answer {
                    Ok(()) => {},
                    Err(e2) => {
                        proof {
                            let x = vstd::pervasive::arbitrary::<E>();
                            assert(scan_answer(m0, mode, n, errs, self.model(), Err(e2), x, *pred));
                        }
                        return Err(e2);
                    },
                }
            } else {
                proof {
                    let old_errs = errs;
                    let x = vstd::pervasive::arbitrary::<E>();
                    lemma_skipped_extend(m0, n, reports, old_errs, x);
                    errs = errs.push(x);
                    n = n + 1;
                    let prev = skipped(m0, (n - 1) as nat, reports, errs);
                    assert(skipped(m0, n, reports, errs).0 == prev.0.push(t));
                    assert(skipped(m0, n, reports, errs).1 == self.model());
                    assert forall|i: int| 0 <= i < n implies #[trigger] call_ensures(*pred, (&skipped(m0, n, reports, errs).0[i],), false) by {
                        if i < n - 1 {
                            assert(skipped(m0, n, reports, errs).0[i] == prev.0[i]);
                        }
                    }
                }
            }
        }
    }
}

impl<'a, E> InputRef<'a, E> {
    /// Recovery: skips — reporting each as unexpected — to the first token `pred` matches,
    /// which is left at the front of the stream. At end of input the skipped run is kept,
    /// committed at the lexer's end.
    pub fn sync_to<F>(&mut self, pred: F) -> (r: Result<Scanned, E>)
        where E: From<TokenLimitExceeded> + From<UnexpectedToken>, F: Fn(&Token) -> bool
        requires
            old(self).wf(),
            forall|t: &Token| call_requires(pred, (t,)),
        ensures
            final(self).wf(),
            final(self).open_points() == old(self).open_points(),
            exists|n: nat, errs: Seq<E>, err: E|
                #![trigger scan_answer(old(self).model(), ScanMode::SyncTo, n, errs, final(self).model(), r, err, pred)]
                scan_answer(old(self).model(), ScanMode::SyncTo, n, errs, final(self).model(), r, err, pred),
    {
        self.skip_until(ScanMode::SyncTo, &pred)
    }

    /// Recovery: skips — reporting each as unexpected — through the first token `pred`
    /// matches, which is consumed and handed back. A run that reaches the end of input leaves
    /// no trace: position, state, poison latch and emissions are all rewound.
    pub fn sync_through<F>(&mut self, pred: F) -> (r: Result<Scanned, E>)
        where E: From<TokenLimitExceeded> + From<UnexpectedToken>, F: Fn(&Token) -> bool
        requires
            old(self).wf(),
            forall|t: &Token| call_requires(pred, (t,)),
        ensures
            final(self).wf(),
            final(self).open_points() == old(self).open_points(),
            exists|n: nat, errs: Seq<E>, err: E|
                #![trigger scan_answer(old(self).model(), ScanMode::SyncThrough, n, errs, final(self).model(), r, err, pred)]
                scan_answer(old(self).model(), ScanMode::SyncThrough, n, errs, final(self).model(), r, err, pred),
    {
        self.skip_until(ScanMode::SyncThrough, &pred)
    }
}


/// At a genuine end of input a sync-to and a skip-while keep what they skipped: the input ends
/// committed where the lexer ended, past everything skipped, and the scan reports the end. A
/// sync-through and a balanced sync leave no trace there: the input is back at its entry
/// position, state and poison latch, and every emission since is gone.
pub proof fn law_only_the_rewinding_syncs_undo_a_run_at_the_end<E, F: Fn(&Token) -> bool>(
    m0: InputModel<E>,
    mk: InputModel<E>,
    mode: ScanMode,
    fin: InputModel<E>,
    r: Result<Scanned, E>,
    err: E,
    pred: F,
)
    where E: From<TokenLimitExceeded>
    requires
        mk.wf(),
        scan_settled(m0, mk, mode, fin, r, err, pred),
        mk.pull().0 is Halt,
        mk.meets_eof(),
    ensures
        r == Ok::<Scanned, E>(Scanned::Exhausted),
        (mode == ScanMode::SyncTo || mode == ScanMode::SkipWhile) ==> fin == mk.pull().1
            && fin.span.end >= mk.span.end,
        (mode == ScanMode::SyncThrough || mode == ScanMode::SyncBalanced) ==> fin.span == m0.span
            && fin.state == m0.state && fin.poison == m0.poison && fin.front.len() == 0,
{
    reveal_with_fuel(crate::stream::gated_run, 2);
    super::lemma_pull_advances(mk);
}


/// Skips that do not report leave the emitter as they found it.
proof fn lemma_unreported_skips_keep_the_emitter<E>(m: InputModel<E>, n: nat, errs: Seq<E>)
    ensures
        skipped(m, n, false, errs).1.emitter == m.emitter,
    decreases n,
{
    if n > 0 {
        lemma_unreported_skips_keep_the_emitter(m, (n - 1) as nat, errs);
    }
}

/// A skip-while and a balanced sync report nothing: whatever they skip, the emitter is as they
/// found it. A sync-to and a sync-through report each skipped token as unexpected, at its span, in
/// order.
pub proof fn law_only_the_reporting_syncs_diagnose_skips<E>(m: InputModel<E>, n: nat, mode: ScanMode, errs: Seq<E>)
    ensures
        (mode == ScanMode::SkipWhile || mode == ScanMode::SyncBalanced) ==> skipped(
            m,
            n,
            mode.spec_reports(),
            errs,
        ).1.emitter == m.emitter,
        (mode == ScanMode::SyncTo || mode == ScanMode::SyncThrough) ==> mode.spec_reports(),
{
    lemma_unreported_skips_keep_the_emitter(m, n, errs);
}

/// Where a scan stops on a token: a sync-through consumes it and hands it back; every other
/// scan leaves it at the front of the stream, unconsumed, with the committed position where the
/// skips left it.
pub proof fn law_only_sync_through_consumes_its_stop<E, F: Fn(&Token) -> bool>(
    m0: InputModel<E>,
    mk: InputModel<E>,
    mode: ScanMode,
    fin: InputModel<E>,
    r: Result<Scanned, E>,
    err: E,
    pred: F,
)
    where E: From<TokenLimitExceeded>
    requires
        scan_settled(m0, mk, mode, fin, r, err, pred),
        mk.pull().0 is Yield,
    ensures
        mode == ScanMode::SyncThrough ==> r == Ok::<Scanned, E>(Scanned::Found(Some(mk.pull().0->Yield_0)))
            && fin == mk.pull().1,
        mode != ScanMode::SyncThrough ==> r == Ok::<Scanned, E>(Scanned::Found(None)) && fin == mk.put_back()
            && fin.span == mk.span,
{
}

} // verus!
