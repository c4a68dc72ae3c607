//! Consuming the token stream: the next token, the front's head, runs of resident tokens, and
//! the end-of-input question.
use vstd::prelude::*;
use vstd::std_specs::convert::FromSpec;
use vstd::math::min;
use crate::emitter::{Channel, Emission, EmitterMode};
use crate::lexer::{CachedToken, Token, chain_end_pos, chain_end_state};
use crate::span::{SimpleSpan, Spanned};
use crate::stream::{
    Gated, RunEnd, gated_run, gated_step, lemma_chain_bounds, lemma_chain_end_concat, lemma_run_is_chain,
    lemma_run_snoc, lemma_run_stable,
};
use crate::token_limiter::TokenLimitExceeded;
use crate::error::UnexpectedEot;
use crate::window::{window_new, window_pop_front, window_push_back};
use crate::lexer::{TokenKind, lex_at, lexed_token};
use super::{InputModel, InputRef, Pull, exceeded, head_of, stop_answer, terminal_end};

verus! {

impl<'a, E> InputRef<'a, E> {
    /// Consumes the next token: the front's head when one is resident, else one lexed at the
    /// committed position. A limit trip latches the poison boundary and is reported as a lexer
    /// error; a refusal by the token budget latches silently; both then read as the end.
    pub fn next(&mut self) -> (r: Result<Option<Token>, E>)
        where E: From<TokenLimitExceeded>
        requires
            old(self).wf(),
        ensures
            final(self).wf(),
            final(self).open_points() == old(self).open_points(),
            exists|err: E| old(self).model().next_answer(final(self).model(), r, err),
    {
        if self.input.front.len() > 0 {
            let ct = self.pop_front();
            proof {
                let e = vstd::pervasive::arbitrary::<E>();
                assert(old(self).model().next_answer(self.model(), Ok(Some(ct.tok)), e));
            }
            return Ok(Some(ct.tok));
        }
        let pos = self.input.span.end;
        let st = self.input.state;
        let ghost m0 = self.model();
        proof {
            reveal_with_fuel(gated_run, 2);
            lemma_run_is_chain(m0.src, m0.poison, pos as int, st, m0.budget, 1);
            lemma_chain_bounds(m0.src, pos as int, st, 1);
        }
        if self.reached_boundary(pos) {
            proof {
                let e = vstd::pervasive::arbitrary::<E>();
                assert(m0.next_answer(self.model(), Ok(None), e));
            }
            return Ok(None);
        }
        let g = self.gate_at(pos, st);
        match g {
            Gated::Token(ct) => {
                self.input.span = ct.tok.span;
                self.input.state = ct.state;
                proof {
                    let run = gated_run(m0.src, m0.poison, pos as int, st, m0.budget, 1);
                    assert(run.0 =~= seq![ct]);
                    assert(crate::lexer::chain(m0.src, pos as int, st, 1)[0] == ct);
                    assert(ct.tok.span.start < ct.tok.span.end);
                    let e = vstd::pervasive::arbitrary::<E>();
                    assert(self.model().front =~= crate::lexer::chain(self.model().src, self.model().span.end as int, self.model().state, 0));
                    assert(m0.next_answer(self.model(), Ok(Some(ct.tok)), e));
                }
                Ok(Some(ct.tok))
            },
            Gated::Eof(e) => {
                self.input.span = SimpleSpan { start: e, end: e };
                proof {
                    crate::lexer::lemma_lexed_token_bounds(m0.src, pos as int);
                    let x = vstd::pervasive::arbitrary::<E>();
                    assert(m0.next_answer(self.model(), Ok(None), x));
                }
                Ok(None)
            },
            Gated::Refused => {
                self.latch_stop(pos);
                proof {
                    let x = vstd::pervasive::arbitrary::<E>();
                    assert(m0.next_answer(self.model(), Ok(None), x));
                }
                Ok(None)
            },
            Gated::Trip(t) => {
                self.latch_stop(pos);
                let report = TokenLimitExceeded {
                    tokens: if st.tokens == usize::MAX { usize::MAX } else { st.tokens + 1 },
                    limitation: st.limitation,
                };
                let err = E::from(report);
                let ghost g_err = err;
                let answer = self.input.emitter.emit_on(Channel::Lexer, Spanned { span: t.span, data: err });
                let r = match answer {
                    Ok(()) => Ok(None),
                    Err(e) => Err(e),
                };
                proof {
                    assert(report == exceeded(st));
                    assert(m0.next_answer(self.model(), r, g_err));
                }
                r
            },
        }
    }
}

/// A fill's answer with the window as a sequence.
pub open spec fn seen<E>(r: Result<(Vec<CachedToken>, bool), E>) -> Result<(Seq<CachedToken>, bool), E> {
    match r {
        Ok((v, t)) => Ok((v@, t)),
        Err(e) => Err(e),
    }
}

impl<'a, E> InputRef<'a, E> {
    /// Fills the front towards `window` tokens and shows them, with whether the fill stopped
    /// terminally.
    fn fill_window(&mut self, window: usize) -> (r: Result<(Vec<CachedToken>, bool), E>)
        where E: From<TokenLimitExceeded>
        requires
            old(self).wf(),
        ensures
            final(self).wf(),
            final(self).open_points() == old(self).open_points(),
            exists|err: E| old(self).model().fill_answer(window, final(self).model(), seen(r), err),
    {
        let ghost m0 = self.model();
        let n0 = self.input.front.len();
        if n0 >= window {
            let mut out: Vec<CachedToken> = Vec::new();
            let mut k: usize = 0;
            while k < window
                invariant
                    self.model() == m0,
                    n0 == m0.front.len(),
                    k <= window <= n0,
                    out@ == m0.front.take(k as int),
                decreases window - k,
            {
                out.push(self.input.front[k]);
                k = k + 1;
                proof {
                    assert(out@ =~= m0.front.take(k as int));
                }
            }
            proof {
                let r = m0.run(0);
                assert(r.0 =~= Seq::<CachedToken>::empty());
                assert(m0.front + r.0.take(0) =~= m0.front);
                assert(m0.front + r.0 =~= m0.front);
                let x = vstd::pervasive::arbitrary::<E>();
                assert(m0.fill_answer(window, self.model(), seen(Ok((out, false))), x));
            }
            return Ok((out, false));
        }
        let want: usize = window - n0;
        let cap = self.input.cache_capacity;
        let room: usize = if n0 < cap { cap - n0 } else { 0 };
        let (p0, s0) = self.lex_position();
        let mut pos = p0;
        let mut st = s0;
        let mut lexed: Vec<CachedToken> = Vec::new();
        let mut i: usize = 0;
        let mut stop: RunEnd = RunEnd::Full;
        proof {
            assert(lexed@.take(0) =~= Seq::<CachedToken>::empty());
            assert(m0.front + lexed@.take(0) =~= m0.front);
        }
        let ghost pts0 = self.open_points();
        let ghost lp0 = m0.lex_pos();
        let ghost ls0 = m0.lex_state();
        while i < want
            invariant_except_break
                stop is Full,
                gated_run(m0.src, m0.poison, lp0, ls0, m0.budget, i as nat) == (
                    lexed@,
                    RunEnd::Full,
                    self.model().budget,
                ),
            invariant
                i <= want,
                self.wf(),
                self.open_points() == pts0,
                m0.wf(),
                n0 == m0.front.len(),
                want == window - n0,
                room == m0.room(),
                lp0 == m0.lex_pos(),
                ls0 == m0.lex_state(),
                i == lexed@.len(),
                pos <= m0.src.len(),
                pos == chain_end_pos(lp0, lexed@),
                st == chain_end_state(ls0, lexed@),
                self.model() == (InputModel {
                    front: m0.front + lexed@.take(min(room as int, i as int)),
                    budget: self.model().budget,
                    ..m0
                }),
            ensures
                gated_run(m0.src, m0.poison, lp0, ls0, m0.budget, want as nat) == (
                    lexed@,
                    stop,
                    self.model().budget,
                ),
                !(stop is Full) || i == want,
            decreases want - i,
        {
            proof {
                lemma_run_snoc(m0.src, m0.poison, lp0, ls0, m0.budget, i as nat);
                reveal_with_fuel(gated_run, 2);
            }
            if self.reached_boundary(pos) {
                stop = RunEnd::Boundary;
                proof {
                    lemma_run_stable(m0.src, m0.poison, lp0, ls0, m0.budget, (i + 1) as nat, want as nat);
                }
                break;
            }
            let ghost b_before = self.model().budget;
            let g = self.gate_at(pos, st);
            match g {
                Gated::Token(ct) => {
                    proof {
                        lemma_chain_end_concat(m0.span.end as int, m0.state, m0.front, lexed@);
                        lemma_run_is_chain(m0.src, m0.poison, lp0, ls0, m0.budget, (i + 1) as nat);
                        let full = gated_run(m0.src, m0.poison, lp0, ls0, m0.budget, (i + 1) as nat);
                        assert(full.0 =~= lexed@.push(ct));
                        lemma_chain_bounds(m0.src, lp0, ls0, (i + 1) as nat);
                        assert(full.0[i as int] == ct);
                        assert(ct.tok.span.start < ct.tok.span.end);
                        if i < room {
                            assert(lexed@.take(min(room as int, i as int)) =~= lexed@);
                        }
                    }
                    if i < room {
                        self.push_front(ct);
                    }
                    lexed.push(ct);
                    pos = ct.tok.span.end;
                    st = ct.state;
                    i = i + 1;
                    proof {
                        lemma_chain_end_concat(lp0, ls0, lexed@.drop_last(), seq![ct]);
                        assert(lexed@.drop_last() + seq![ct] =~= lexed@);
                        if i <= room {
                            assert(lexed@.take(min(room as int, i as int)) =~= lexed@);
                            assert(lexed@.drop_last().take(min(room as int, (i - 1) as int)) =~= lexed@.drop_last());
                            assert(m0.front + lexed@ =~= (m0.front + lexed@.drop_last()).push(ct));
                        } else {
                            assert(lexed@.take(min(room as int, i as int)) =~= lexed@.drop_last().take(
                                min(room as int, (i - 1) as int),
                            ));
                        }
                        assert(self.model().front == m0.front + lexed@.take(min(room as int, i as int)));
                        assert(self.model().budget == self.model().budget);
                    }
                },
                Gated::Eof(e) => {
                    stop = RunEnd::Eof(e);
                    proof {
                        lemma_run_stable(m0.src, m0.poison, lp0, ls0, m0.budget, (i + 1) as nat, want as nat);
                    }
                    break;
                },
                Gated::Trip(t) => {
                    stop = RunEnd::Trip(t, pos, st);
                    proof {
                        lemma_run_stable(m0.src, m0.poison, lp0, ls0, m0.budget, (i + 1) as nat, want as nat);
                    }
                    break;
                },
                Gated::Refused => {
                    stop = RunEnd::Refused(pos);
                    proof {
                        lemma_run_stable(m0.src, m0.poison, lp0, ls0, m0.budget, (i + 1) as nat, want as nat);
                    }
                    break;
                },
            }
        }
        let ghost m1 = self.model();
        match stop {
            RunEnd::Trip(_, at, _) => self.latch_stop(at),
            RunEnd::Refused(at) => self.latch_stop(at),
            _ => {},
        }
        // The window: the front as it now stands, then (unless a trip cut the fill short) the
        // tokens lexed past the cache's room.
        let mut out: Vec<CachedToken> = Vec::new();
        let fl = self.input.front.len();
        let mut k: usize = 0;
        while k < fl
            invariant
                fl == self.model().front.len(),
                k <= fl,
                out@ == self.model().front.take(k as int),
            decreases fl - k,
        {
            out.push(self.input.front[k]);
            k = k + 1;
            proof {
                assert(out@ =~= self.model().front.take(k as int));
            }
        }
        let tripped = match stop {
            RunEnd::Trip(..) => true,
            _ => false,
        };
        if !tripped {
            let kept: usize = if i < room { i } else { room };
            let mut j: usize = kept;
            while j < i
                invariant
                    kept <= j <= i,
                    i == lexed@.len(),
                    out@ == self.model().front + lexed@.subrange(kept as int, j as int),
                decreases i - j,
            {
                out.push(lexed[j]);
                j = j + 1;
                proof {
                    assert(out@ =~= self.model().front + lexed@.subrange(kept as int, j as int));
                }
            }
        }
        proof {
            let kept = lexed@.take(min(room as int, i as int));
            assert(m0.want(window) == want);
            assert(self.model().front == m0.front + kept);
            if !tripped {
                let kept_n: int = if i < room { i as int } else { room as int };
                assert(kept =~= lexed@.subrange(0, kept_n));
                assert(out@ =~= m0.front + lexed@);
            } else {
                assert(out@ =~= m0.front + kept);
            }
            assert(out@.len() <= window);
            assert(out@.take(min(window as int, out@.len() as int)) =~= out@);
        }
        let terminal = match stop {
            RunEnd::Boundary => true,
            RunEnd::Trip(..) => true,
            RunEnd::Refused(_) => true,
            _ => false,
        };
        match stop {
            RunEnd::Trip(t, _, tst) => {
                let report = TokenLimitExceeded {
                    tokens: if tst.tokens == usize::MAX { usize::MAX } else { tst.tokens + 1 },
                    limitation: tst.limitation,
                };
                let err = E::from(report);
                let ghost g_err = err;
                let answer = self.input.emitter.emit_on(Channel::Lexer, Spanned { span: t.span, data: err });
                let r = match answer {
                    Ok(()) => Ok((out, true)),
                    Err(e) => Err(e),
                };
                proof {
                    assert(report == exceeded(tst));
                    assert(m0.fill_answer(window, self.model(), seen(r), g_err));
                }
                r
            },
            _ => {
                proof {
                    let x = vstd::pervasive::arbitrary::<E>();
                    assert(m0.fill_answer(window, self.model(), seen(Ok((out, terminal))), x));
                }
                Ok((out, terminal))
            },
        }
    }
}

/// The tokens of a window, without the states that produced them.
pub open spec fn tokens_of(w: Seq<CachedToken>) -> Seq<Token> {
    w.map_values(|ct: CachedToken| ct.tok)
}

impl<'a, E> InputRef<'a, E> {
    /// Looks ahead `window` tokens without consuming any: the resident ones first, then freshly
    /// lexed ones, which the cache keeps while it has room. A limit trip latches the boundary,
    /// is reported as a lexer error, and cuts the window to what the cache kept.
    pub fn peek(&mut self, window: usize) -> (r: Result<Vec<Token>, E>)
        where E: From<TokenLimitExceeded>
        requires
            old(self).wf(),
        ensures
            final(self).wf(),
            final(self).open_points() == old(self).open_points(),
            exists|err: E, fr: Result<(Seq<CachedToken>, bool), E>|
                #![trigger old(self).model().fill_answer(window, final(self).model(), fr, err)]
                old(self).model().fill_answer(window, final(self).model(), fr, err) && (match fr {
                    Ok((w, _)) => r matches Ok(v) && v@ == tokens_of(w),
                    Err(e) => r == Err::<Vec<Token>, E>(e),
                }),
            r matches Ok(v) ==> v@.len() <= window && v@ == tokens_of(
                crate::lexer::chain(
                    old(self).model().src,
                    old(self).model().span.end as int,
                    old(self).model().state,
                    v@.len(),
                ),
            ),
    {
        let ghost m0 = self.model();
        proof {
            crate::laws::law_a_peek_shows_the_next_window_of_the_stream(m0, window);
        }
        let filled = self.fill_window(window);
        match filled {
            Ok((w, _terminal)) => {
                let mut out: Vec<Token> = Vec::new();
                let mut k: usize = 0;
                while k < w.len()
                    invariant
                        k <= w@.len(),
                        out@ == tokens_of(w@.take(k as int)),
                    decreases w@.len() - k,
                {
                    out.push(w[k].tok);
                    k = k + 1;
                    proof {
                        assert(out@ =~= tokens_of(w@.take(k as int)));
                    }
                }
                proof {
                    assert(w@.take(w@.len() as int) =~= w@);
                }
                Ok(out)
            },
            Err(e) => Err(e),
        }
    }

    /// Looks ahead `window` tokens as [`peek`](Self::peek) does, and says whether the window came
    /// back short because of a terminal stop (a limit trip during the fill, the latched poison
    /// boundary, or a refusal by the token budget) rather than a genuine end of input. The
    /// emitter the original handed back beside the window is reached through
    /// [`emitter_ref`](Self::emitter_ref).
    pub fn peek_with_emitter_terminal(&mut self, window: usize) -> (r: Result<(Vec<Token>, bool), E>)
        where E: From<TokenLimitExceeded>
        requires
            old(self).wf(),
        ensures
            final(self).wf(),
            final(self).open_points() == old(self).open_points(),
            exists|err: E, fr: Result<(Seq<CachedToken>, bool), E>|
                #![trigger old(self).model().fill_answer(window, final(self).model(), fr, err)]
                old(self).model().fill_answer(window, final(self).model(), fr, err) && (match fr {
                    Ok((w, terminal)) => r matches Ok((v, t)) && v@ == tokens_of(w) && t == terminal,
                    Err(e) => r == Err::<(Vec<Token>, bool), E>(e),
                }),
            r matches Ok((v, _)) ==> v@.len() <= window && v@ == tokens_of(
                crate::lexer::chain(
                    old(self).model().src,
                    old(self).model().span.end as int,
                    old(self).model().state,
                    v@.len(),
                ),
            ),
    {
        let ghost m0 = self.model();
        proof {
            crate::laws::law_a_peek_shows_the_next_window_of_the_stream(m0, window);
        }
        let filled = self.fill_window(window);
        match filled {
            Ok((w, terminal)) => {
                let mut out: Vec<Token> = Vec::new();
                let mut k: usize = 0;
                while k < w.len()
                    invariant
                        k <= w@.len(),
                        out@ == tokens_of(w@.take(k as int)),
                    decreases w@.len() - k,
                {
                    out.push(w[k].tok);
                    k = k + 1;
                    proof {
                        assert(out@ =~= tokens_of(w@.take(k as int)));
                    }
                }
                proof {
                    assert(w@.take(w@.len() as int) =~= w@);
                }
                Ok((out, terminal))
            },
            Err(e) => Err(e),
        }
    }

    /// Looks one token ahead without consuming it: the head of the stream, or nothing at the end
    /// or at a terminal stop. A limit trip is reported as a lexer error.
    pub fn peek_one(&mut self) -> (r: Result<Option<Token>, E>)
        where E: From<TokenLimitExceeded>
        requires
            old(self).wf(),
        ensures
            final(self).wf(),
            final(self).open_points() == old(self).open_points(),
            exists|err: E, fr: Result<(Seq<CachedToken>, bool), E>|
                #![trigger old(self).model().fill_answer(1, final(self).model(), fr, err)]
                old(self).model().fill_answer(1, final(self).model(), fr, err) && r == (match fr {
                    Ok((w, _)) => Ok(if w.len() > 0 { Some(w[0].tok) } else { None }),
                    Err(e) => Err::<Option<Token>, E>(e),
                }),
    {
        let filled = self.fill_window(1);
        match filled {
            Ok((w, _terminal)) => {
                let mut window = window_new();
                if w.len() > 0 {
                    let _ = window_push_back(&mut window, w[0].tok);
                }
                Ok(window_pop_front(&mut window))
            },
            Err(e) => Err(e),
        }
    }

    /// Reads the head of the stream and maps it, consuming nothing. A resident head is served
    /// as it is, even at a latched poison boundary; otherwise one token is peeked, and a peek
    /// that shows nothing because it stopped terminally is an error rather than an end.
    pub fn peek_head_map<O, F>(&mut self, f: F) -> (r: Result<Option<O>, E>)
        where E: From<TokenLimitExceeded> + From<UnexpectedEot>, F: FnOnce(Token) -> O
        requires
            old(self).wf(),
            forall|t: Token| call_requires(f, (t,)),
        ensures
            final(self).wf(),
            final(self).open_points() == old(self).open_points(),
            exists|eot: E, hr: Result<Option<Token>, E>|
                #![trigger old(self).model().head_answer(final(self).model(), hr, eot)]
                old(self).model().head_answer(final(self).model(), hr, eot) && (match hr {
                    Ok(Some(t)) => r matches Ok(Some(o)) && call_ensures(f, (t,), o),
                    Ok(None) => r matches Ok(None),
                    Err(e) => r == Err::<Option<O>, E>(e),
                }),
    {
        match self.peek_head() {
            Ok(Some(t)) => Ok(Some(f(t))),
            Ok(None) => Ok(None),
            Err(e) => Err(e),
        }
    }

    /// The head of the stream, consuming nothing.
    fn peek_head(&mut self) -> (r: Result<Option<Token>, E>)
        where E: From<TokenLimitExceeded> + From<UnexpectedEot>
        requires
            old(self).wf(),
        ensures
            final(self).wf(),
            final(self).open_points() == old(self).open_points(),
            exists|eot: E| old(self).model().head_answer(final(self).model(), r, eot),
    {
        if self.input.front.len() > 0 {
            proof {
                let x = vstd::pervasive::arbitrary::<E>();
                assert(old(self).model().head_answer(self.model(), Ok(Some(self.model().front[0].tok)), x));
            }
            return Ok(Some(self.input.front[0].tok));
        }
        let end = self.input.span.end;
        let eot = E::from(UnexpectedEot::eot_of(end).into_terminal());
        let ghost g_eot = eot;
        let ghost m0 = self.model();
        let filled = self.fill_window(1);
        let ghost fr = seen(filled);
        let r = match filled {
            Ok((w, terminal)) => {
                let mut window = window_new();
                if w.len() > 0 {
                    let _ = window_push_back(&mut window, w[0].tok);
                }
                match window_pop_front(&mut window) {
                    Some(head) => Ok(Some(head)),
                    None => if terminal {
                        Err(eot)
                    } else {
                        Ok(None)
                    },
                }
            },
            Err(e) => Err(e),
        };
        proof {
            assert(r == head_of(fr, g_eot));
            let err = choose|err: E| m0.fill_answer(1, self.model(), fr, err);
            assert(m0.fill_answer(1, self.model(), fr, err));
            assert(m0.head_answer(self.model(), r, g_eot));
        }
        r
    }

    /// The kind of the head of the stream, consuming nothing.
    pub fn peek_kind(&mut self) -> (r: Result<Option<TokenKind>, E>)
        where E: From<TokenLimitExceeded> + From<UnexpectedEot>
        requires
            old(self).wf(),
        ensures
            final(self).wf(),
            final(self).open_points() == old(self).open_points(),
            exists|eot: E, hr: Result<Option<Token>, E>|
                #![trigger old(self).model().head_answer(final(self).model(), hr, eot)]
                old(self).model().head_answer(final(self).model(), hr, eot) && r == (match hr {
                    Ok(Some(t)) => Ok(Some(t.data)),
                    Ok(None) => Ok(None),
                    Err(e) => Err::<Option<TokenKind>, E>(e),
                }),
    {
        match self.peek_head() {
            Ok(Some(t)) => Ok(Some(t.data)),
            Ok(None) => Ok(None),
            Err(e) => Err(e),
        }
    }

    /// Whether the head of the stream satisfies `pred`; `false` at the end. Consumes nothing.
    pub fn head_satisfies<F>(&mut self, pred: F) -> (r: Result<bool, E>)
        where E: From<TokenLimitExceeded> + From<UnexpectedEot>, F: FnOnce(&TokenKind) -> bool
        requires
            old(self).wf(),
            forall|k: &TokenKind| call_requires(pred, (k,)),
        ensures
            final(self).wf(),
            final(self).open_points() == old(self).open_points(),
            exists|eot: E, hr: Result<Option<Token>, E>|
                #![trigger old(self).model().head_answer(final(self).model(), hr, eot)]
                old(self).model().head_answer(final(self).model(), hr, eot) && (match hr {
                    Ok(Some(t)) => r matches Ok(b) && call_ensures(pred, (&t.data,), b),
                    Ok(None) => r == Ok::<bool, E>(false),
                    Err(e) => r == Err::<bool, E>(e),
                }),
    {
        match self.peek_head() {
            Ok(Some(t)) => Ok(pred(&t.data)),
            Ok(None) => Ok(false),
            Err(e) => Err(e),
        }
    }

    /// Whether nothing more can be consumed: no token is resident and the committed position is
    /// at the end of the tokens or at the latched poison boundary.
    pub fn is_exhausted(&self) -> (r: bool)
        requires
            self.wf(),
        ensures
            r == self.model().exhausted(),
    {
        if self.input.front.len() > 0 {
            return false;
        }
        let end = self.input.span.end;
        lex_at(&self.input.src, end).is_none() || self.reached_boundary(end)
    }

    /// Consumes resident tokens while `accept(token) == keep`, returning the last one consumed.
    fn consume_front_while<F>(&mut self, f: &F, keep: bool) -> (r: Option<Token>)
        where F: Fn(&CachedToken) -> bool
        requires
            old(self).wf(),
            forall|t: &CachedToken| call_requires(*f, (t,)),
        ensures
            final(self).wf(),
            final(self).open_points() == old(self).open_points(),
            exists|k: int|
                #![trigger old(self).model().consumed_n(k)]
                0 <= k <= old(self).model().front.len() && final(self).model() == old(self).model().consumed_n(k)
                    && (forall|i: int| 0 <= i < k ==> call_ensures(*f, (&old(self).model().front[i],), keep))
                    && (k < old(self).model().front.len() ==> call_ensures(
                    *f,
                    (&old(self).model().front[k],),
                    !keep,
                )) && r == (if k > 0 {
                    Some(old(self).model().front[k - 1].tok)
                } else {
                    None::<Token>
                }),
    {
        let ghost m0 = self.model();
        let mut last: Option<Token> = None;
        let mut k: usize = 0;
        let n0 = self.input.front.len();
        loop
            invariant
                n0 == m0.front.len(),
                self.wf(),
                self.open_points() == old(self).open_points(),
                m0 == old(self).model(),
                k <= m0.front.len(),
                self.model() == m0.consumed_n(k as int),
                forall|t: &CachedToken| call_requires(*f, (t,)),
                forall|i: int| 0 <= i < k ==> call_ensures(*f, (&m0.front[i],), keep),
                last == (if k > 0 { Some(m0.front[k - 1].tok) } else { None::<Token> }),
            ensures
                k <= m0.front.len(),
                self.model() == m0.consumed_n(k as int),
                forall|i: int| 0 <= i < k ==> call_ensures(*f, (&m0.front[i],), keep),
                k < m0.front.len() ==> call_ensures(*f, (&m0.front[k as int],), !keep),
                last == (if k > 0 { Some(m0.front[k - 1].tok) } else { None::<Token> }),
            decreases m0.front.len() - k,
        {
            if self.input.front.len() == 0 {
                proof {
                    assert(self.model().front == m0.front.skip(k as int) || k == 0);
                }
                break;
            }
            proof {
                assert(self.model().front.len() == m0.front.len() - k);
            }
            let head = self.input.front[0];
            let answer = f(&head);
            if answer != keep {
                proof {
                    assert(head == m0.front[k as int]);
                }
                break;
            }
            let ct = self.pop_front();
            proof {
                assert(ct == m0.front[k as int]);
            }
            last = Some(ct.tok);
            k = k + 1;
            proof {
                assert(self.model().front =~= m0.front.skip(k as int));
            }
        }
        last
    }

    /// Consumes one resident token, if there is one; the committed offset advances to its end.
    /// Nothing is lexed.
    pub fn consume_cached_one(&mut self) -> (r: Option<Token>)
        requires
            old(self).wf(),
        ensures
            final(self).wf(),
            final(self).open_points() == old(self).open_points(),
            old(self).model().front.len() > 0 ==> r == Some(old(self).model().front[0].tok)
                && final(self).model() == old(self).model().consumed_front()
                && final(self).committed_offset() == old(self).model().front[0].tok.span.end,
            old(self).model().front.len() == 0 ==> r is None && final(self).model() == old(self).model(),
    {
        if self.input.front.len() == 0 {
            return None;
        }
        let ct = self.pop_front();
        Some(ct.tok)
    }
}

impl<'a, E> InputRef<'a, E> {
    /// Consumes resident tokens until `f` accepts one, which stays; returns the last consumed.
    /// The committed offset advances to the end of the last consumed token. Nothing is lexed.
    pub fn consume_cached_to<F>(&mut self, f: F) -> (r: Option<Token>)
        where F: Fn(&CachedToken) -> bool
        requires
            old(self).wf(),
            forall|t: &CachedToken| call_requires(f, (t,)),
        ensures
            final(self).wf(),
            final(self).open_points() == old(self).open_points(),
            exists|k: int|
                #![trigger old(self).model().consumed_n(k)]
                0 <= k <= old(self).model().front.len() && final(self).model() == old(self).model().consumed_n(k)
                    && (k > 0 ==> final(self).committed_offset() == old(self).model().front[k - 1].tok.span.end)
                    && (forall|i: int| 0 <= i < k ==> call_ensures(f, (&old(self).model().front[i],), false))
                    && (k < old(self).model().front.len() ==> call_ensures(
                    f,
                    (&old(self).model().front[k],),
                    true,
                )) && r == (if k > 0 {
                    Some(old(self).model().front[k - 1].tok)
                } else {
                    None::<Token>
                }),
    {
        self.consume_front_while(&f, false)
    }

    /// Consumes resident tokens while `f` accepts them; returns the last consumed. The committed
    /// offset advances to the end of the last consumed token. Nothing is lexed.
    pub fn consume_cached_while<F>(&mut self, f: F) -> (r: Option<Token>)
        where F: Fn(&CachedToken) -> bool
        requires
            old(self).wf(),
            forall|t: &CachedToken| call_requires(f, (t,)),
        ensures
            final(self).wf(),
            final(self).open_points() == old(self).open_points(),
            exists|k: int|
                #![trigger old(self).model().consumed_n(k)]
                0 <= k <= old(self).model().front.len() && final(self).model() == old(self).model().consumed_n(k)
                    && (k > 0 ==> final(self).committed_offset() == old(self).model().front[k - 1].tok.span.end)
                    && (forall|i: int| 0 <= i < k ==> call_ensures(f, (&old(self).model().front[i],), true))
                    && (k < old(self).model().front.len() ==> call_ensures(
                    f,
                    (&old(self).model().front[k],),
                    false,
                )) && r == (if k > 0 {
                    Some(old(self).model().front[k - 1].tok)
                } else {
                    None::<Token>
                }),
    {
        self.consume_front_while(&f, true)
    }

    /// Consumes every resident token; returns the last one, and the committed offset advances to
    /// its end. Nothing is lexed.
    pub fn consume_all_cached(&mut self) -> (r: Option<Token>)
        requires
            old(self).wf(),
        ensures
            final(self).wf(),
            final(self).open_points() == old(self).open_points(),
            final(self).model() == old(self).model().consumed_n(old(self).model().front.len() as int),
            final(self).model().front.len() == 0,
            old(self).model().front.len() > 0 ==> final(self).committed_offset() == old(self).model().front[
                old(self).model().front.len() - 1
            ].tok.span.end,
            r == (if old(self).model().front.len() > 0 {
                Some(old(self).model().front[old(self).model().front.len() - 1].tok)
            } else {
                None::<Token>
            }),
    {
        let never = |_t: &CachedToken| -> (b: bool)
            ensures
                !b,
            { false };
        self.consume_front_while(&never, false)
    }
}

/// What reading the head for a conditional consume decided.
#[derive(Debug, Clone, Copy, PartialEq, Eq)]
pub enum Expect<X, Y> {
    /// The head was accepted, mapped to the value, and consumed.
    Taken(X, Token),
    /// The head was declined, with the reason, and left at the front.
    Left(Y),
    /// There is no head: a genuine end of input.
    Nothing,
}

/// Whether `fin` and `r` are what a conditional consume of the head of `m` by `f` gives: a
/// head `f` maps to `Ok` is consumed, one it maps to `Err` stays; a genuine end is nothing; a
/// terminal stop is `eot`, or a fatal emitter's rejection of a limit report (`err`).
pub open spec fn expect_answer<E, X, Y, F: Fn(&Token) -> Result<X, Y>>(
    m: InputModel<E>,
    fin: InputModel<E>,
    r: Result<Expect<X, Y>, E>,
    err: E,
    eot: E,
    f: F,
) -> bool
    where E: From<TokenLimitExceeded> + From<UnexpectedEot>
{
    &&& <E as FromSpec<UnexpectedEot>>::obeys_from_spec() ==> eot == <E as FromSpec<
        UnexpectedEot,
    >>::from_spec(UnexpectedEot { offset: m.span.end, terminal: true })
    &&& match m.pull().0 {
        Pull::Yield(t) => match r {
            Ok(Expect::Taken(x, t2)) => t2 == t && call_ensures(f, (&t,), Ok::<X, Y>(x)) && fin == m.pull().1,
            Ok(Expect::Left(y)) => call_ensures(f, (&t,), Err::<X, Y>(y)) && fin == m.put_back(),
            _ => false,
        },
        Pull::Halt => if m.meets_eof() {
            fin == m && r == Ok::<Expect<X, Y>, E>(Expect::Nothing)
        } else {
            fin == m.pull().1 && r == Err::<Expect<X, Y>, E>(eot)
        },
        Pull::Trip(t, x) => {
            &&& fin == m.pull().1.offered(Emission::Error { channel: Channel::Lexer, span: t.span, error: err })
            &&& r == Err::<Expect<X, Y>, E>(if m.emitter.mode == EmitterMode::Fatal { err } else { eot })
            &&& <E as FromSpec<TokenLimitExceeded>>::obeys_from_spec() ==> err == <E as FromSpec<
                TokenLimitExceeded,
            >>::from_spec(x)
        },
    }
}

impl<'a, E> InputRef<'a, E> {
    /// Reads the head and lets `f` decide: a head it maps to `Ok` is consumed and handed back
    /// with the value, one it maps to `Err` stays at the front. A genuine end of input is
    /// `Nothing`; a terminal stop (the poison boundary, a refusal, a limit trip) is an
    /// end-of-input error marked terminal.
    pub fn expect_map<X, Y, F>(&mut self, f: &F) -> (r: Result<Expect<X, Y>, E>)
        where E: From<TokenLimitExceeded> + From<UnexpectedEot>, F: Fn(&Token) -> Result<X, Y>
        requires
            old(self).wf(),
            forall|t: &Token| call_requires(*f, (t,)),
        ensures
            final(self).wf(),
            final(self).open_points() == old(self).open_points(),
            exists|err: E, eot: E|
                #![trigger expect_answer(old(self).model(), final(self).model(), r, err, eot, *f)]
                expect_answer(old(self).model(), final(self).model(), r, err, eot, *f),
    {
        let ghost m0 = self.model();
        let pos = self.input.span.end;
        let st = self.input.state;
        let eot = E::from(UnexpectedEot::eot_of(pos).into_terminal());
        let ghost g_eot = eot;
        if self.input.front.len() > 0 {
            let head = self.input.front[0];
            let d = f(&head.tok);
            let ghost gd = d;
            proof {
                assert(call_ensures(*f, (&head.tok,), gd));
            }
            match d {
                Ok(x) => {
                    self.pop_front();
                    proof {
                        let e = vstd::pervasive::arbitrary::<E>();
                        assert(gd == Ok::<X, Y>(x));
                        assert(m0.pull().0 == Pull::Yield(head.tok));
                        assert(self.model() == m0.pull().1);
                        assert(call_ensures(*f, (&head.tok,), Ok::<X, Y>(x)));
                        assert(expect_answer(m0, self.model(), Ok(Expect::Taken(x, head.tok)), e, g_eot, *f));
                    }
                    return Ok(Expect::Taken(x, head.tok));
                },
                Err(y) => {
                    proof {
                        let e = vstd::pervasive::arbitrary::<E>();
                        assert(expect_answer(m0, self.model(), Ok(Expect::Left(y)), e, g_eot, *f));
                    }
                    return Ok(Expect::Left(y));
                },
            }
        }
        proof {
            reveal_with_fuel(gated_run, 2);
            lemma_run_is_chain(m0.src, m0.poison, pos as int, st, m0.budget, 1);
            lemma_chain_bounds(m0.src, pos as int, st, 1);
        }
        if self.reached_boundary(pos) {
            proof {
                let e = vstd::pervasive::arbitrary::<E>();
                assert(expect_answer(m0, self.model(), Err(eot), e, g_eot, *f));
            }
            return Err(eot);
        }
        let g = self.gate_at(pos, st);
        match g {
            Gated::Token(ct) => {
                proof {
                    let run = gated_run(m0.src, m0.poison, pos as int, st, m0.budget, 1);
                    assert(run.0 =~= seq![ct]);
                    assert(crate::lexer::chain(m0.src, pos as int, st, 1)[0] == ct);
                    assert(ct.tok.span.start < ct.tok.span.end);
                }
                let d = f(&ct.tok);
                let ghost gd = d;
                proof {
                    assert(call_ensures(*f, (&ct.tok,), gd));
                }
                match d {
                    Ok(x) => {
                        self.input.span = ct.tok.span;
                        self.input.state = ct.state;
                        proof {
                            assert(self.model().front =~= crate::lexer::chain(self.model().src, self.model().span.end as int, self.model().state, 0));
                            let e = vstd::pervasive::arbitrary::<E>();
                            assert(gd == Ok::<X, Y>(x));
                            assert(expect_answer(m0, self.model(), Ok(Expect::Taken(x, ct.tok)), e, g_eot, *f));
                        }
                        Ok(Expect::Taken(x, ct.tok))
                    },
                    Err(y) => {
                        self.push_front(ct);
                        proof {
                            assert(self.model().front =~= seq![ct]);
                            assert(gd == Err::<X, Y>(y));
                            let e = vstd::pervasive::arbitrary::<E>();
                            assert(expect_answer(m0, self.model(), Ok(Expect::Left(y)), e, g_eot, *f));
                        }
                        Ok(Expect::Left(y))
                    },
                }
            },
            Gated::Eof(_) => {
                proof {
                    let e = vstd::pervasive::arbitrary::<E>();
                    assert(expect_answer(m0, self.model(), Ok(Expect::Nothing), e, g_eot, *f));
                }
                Ok(Expect::Nothing)
            },
            Gated::Refused => {
                self.latch_stop(pos);
                proof {
                    let e = vstd::pervasive::arbitrary::<E>();
                    assert(expect_answer(m0, self.model(), Err(eot), e, g_eot, *f));
                }
                Err(eot)
            },
            Gated::Trip(t) => {
                self.latch_stop(pos);
                let report = TokenLimitExceeded {
                    tokens: if st.tokens == usize::MAX { usize::MAX } else { st.tokens + 1 },
                    limitation: st.limitation,
                };
                let err = E::from(report);
                let ghost g_err = err;
                let answer = self.input.emitter.emit_on(Channel::Lexer, Spanned { span: t.span, data: err });
                let r = match answer {
                    Ok(()) => Err(eot),
                    Err(e) => Err(e),
                };
                proof {
                    assert(report == exceeded(st));
                    assert(expect_answer(m0, self.model(), r, g_err, g_eot, *f));
                }
                r
            },
        }
    }
}

} // verus!
