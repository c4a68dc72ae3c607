//! A resumable parse session over a growing buffer: each attempt re-drives the whole buffer from
//! the retained base state, a byte budget bounds the cumulative work, and a terminal error
//! latches the session for good.
use vstd::prelude::*;
use vstd::std_specs::convert::FromSpec;
use vstd::string::*;
use crate::emitter::Emitter;
use crate::input::{Cache, Input, InputContext, InputModel, InputRef};
use crate::span::SimpleSpan;
use crate::token_limiter::TokenLimiter;

verus! {

/// The sealed half of [`ReplayMode`].
pub trait Sealed {
}

/// How a session replays its attempts. [`RedriveFromBase`] is the one mode.
pub trait ReplayMode: Sealed {
}

/// Every attempt re-lexes the whole buffer from the base state the session was built with; the
/// state an attempt reaches is never written back.
#[derive(Debug, Clone, Copy, PartialEq, Eq, Hash)]
pub struct RedriveFromBase;

impl Sealed for RedriveFromBase {
}

impl ReplayMode for RedriveFromBase {
}

/// The session's ceiling on cumulative work, in lexable bytes summed over attempts.
#[derive(Debug, Clone, Copy, PartialEq, Eq, Hash, Structural)]
pub enum Budget {
    /// No ceiling: the spend is tallied but never gated.
    Unbounded,
    /// At most this many lexable bytes over all attempts.
    Bytes(u64),
}

/// Why a session refused an attempt before doing any work.
#[derive(Debug, Clone, Copy, PartialEq, Eq, Hash, Structural)]
pub enum SessionRefusal {
    /// This attempt would bring the spend to `spent`, past `budget`.
    BudgetExhausted { spent: u64, budget: u64 },
    /// An earlier attempt ended in a terminal error.
    TerminalLatched,
}

/// The decimal digit `d` stands for.
pub open spec fn digit_char(d: nat) -> char {
    if d == 0 { '0' } else if d == 1 { '1' } else if d == 2 { '2' } else if d == 3 { '3' } else if d == 4 {
        '4'
    } else if d == 5 { '5' } else if d == 6 { '6' } else if d == 7 { '7' } else if d == 8 { '8' } else { '9' }
}

/// The decimal numeral of `n`, without leading zeros.
pub open spec fn decimal(n: nat) -> Seq<char>
    decreases n,
{
    if n < 10 {
        seq![digit_char(n)]
    } else {
        decimal(n / 10).push(digit_char(n % 10))
    }
}

/// The one-character numeral of the digit `d`.
fn digit_str(d: u64) -> (r: &'static str)
    requires
        d < 10,
    ensures
        r@ == seq![digit_char(d as nat)],
{
    proof {
        reveal_strlit("0");
        reveal_strlit("1");
        reveal_strlit("2");
        reveal_strlit("3");
        reveal_strlit("4");
        reveal_strlit("5");
        reveal_strlit("6");
        reveal_strlit("7");
        reveal_strlit("8");
        reveal_strlit("9");
    }
    if d == 0 {
        "0"
    } else if d == 1 {
        "1"
    } else if d == 2 {
        "2"
    } else if d == 3 {
        "3"
    } else if d == 4 {
        "4"
    } else if d == 5 {
        "5"
    } else if d == 6 {
        "6"
    } else if d == 7 {
        "7"
    } else if d == 8 {
        "8"
    } else {
        "9"
    }
}

/// Appends the decimal numeral of `n` to `s`.
fn push_decimal(s: &mut String, n: u64)
    ensures
        final(s)@ == old(s)@ + decimal(n as nat),
    decreases n,
{
    if n >= 10 {
        push_decimal(s, n / 10);
    }
    s.append(digit_str(n % 10));
    proof {
        if n >= 10 {
            assert(old(s)@ + decimal((n / 10) as nat) + seq![digit_char((n % 10) as nat)] =~= old(s)@ + decimal(n as nat));
        } else {
            assert(old(s)@ + seq![digit_char((n % 10) as nat)] =~= old(s)@ + decimal(n as nat));
        }
    }
}

impl SessionRefusal {
    /// The refusal's message: for a budget refusal, the sum the attempt would have reached and the
    /// budget, in decimal.
    pub fn message(&self) -> (r: String)
        ensures
            r@ == (match self {
                SessionRefusal::BudgetExhausted { spent, budget } => "the parse session's budget is exhausted: this attempt would reach "@
                    + decimal(*spent as nat) + " lexable bytes against a budget of "@ + decimal(*budget as nat),
                SessionRefusal::TerminalLatched => "the parse session is latched: an earlier attempt ended in a terminal error"@,
            }),
    {
        match self {
            SessionRefusal::BudgetExhausted { spent, budget } => {
                let mut m = String::from_str("the parse session's budget is exhausted: this attempt would reach ");
                push_decimal(&mut m, *spent);
                m.append(" lexable bytes against a budget of ");
                push_decimal(&mut m, *budget);
                m
            },
            SessionRefusal::TerminalLatched => String::from_str(
                "the parse session is latched: an earlier attempt ended in a terminal error",
            ),
        }
    }
}

/// An error that can say whether it is terminal: whether retrying with more input could ever
/// succeed.
pub trait MaybeTerminal {
    /// Whether the error is terminal.
    fn is_terminal(&self) -> bool;
}

/// Whether asking `e` if it is terminal can answer yes.
pub open spec fn answers_terminal<E: MaybeTerminal>(e: &E) -> bool {
    forall|b: bool| call_ensures(E::is_terminal, (e,), b) ==> b
}

/// A resumable parse session: the base lexer state, the committed frontier, the byte budget and
/// what it has spent, and the terminal latch.
pub struct PartialSession<M> {
    state: TokenLimiter,
    committed: usize,
    budget: Budget,
    spent: u64,
    terminal: bool,
    mode: M,
}

/// The mathematical value of a session.
pub struct SessionModel {
    pub state: TokenLimiter,
    pub committed: usize,
    pub budget: Budget,
    pub spent: u64,
    pub terminal: bool,
}

/// What an attempt over `len` lexable bytes would bring the spend to (saturating).
pub open spec fn projected(spent: u64, len: nat) -> u64 {
    if spent + len > u64::MAX { u64::MAX } else { (spent + len) as u64 }
}

/// The refusal an attempt over `len` bytes meets, if it meets one: the budget first, then the
/// latch.
pub open spec fn refusal_of(s: SessionModel, len: nat) -> Option<SessionRefusal> {
    match s.budget {
        Budget::Bytes(cap) if projected(s.spent, len) > cap => Some(
            SessionRefusal::BudgetExhausted { spent: projected(s.spent, len), budget: cap },
        ),
        _ => if s.terminal { Some(SessionRefusal::TerminalLatched) } else { None },
    }
}

/// The input an attempt starts from: the whole buffer, the base state, the context's emitter,
/// cache capacity and budgets, nothing consumed.
pub open spec fn fresh_start<E>(
    m: InputModel<E>,
    src: Seq<u8>,
    state: TokenLimiter,
    ctx: InputContext<Emitter<E>, Cache>,
) -> bool {
    &&& m.src == src
    &&& m.state == state
    &&& m.emitter == ctx.spec_emitter()@
    &&& m.recursion == ctx.spec_recursion()
    &&& m.budget == ctx.spec_token_budget()
    &&& m.cache_capacity == ctx.spec_cache().spec_capacity()
    &&& m.span == (SimpleSpan { start: 0, end: 0 })
    &&& m.front.len() == 0
    &&& m.poison is None
    &&& m.lineage.live.len() == 0
    &&& m.lineage.pinned.len() == 0
    &&& m.lineage.next_id == 0
    &&& m.resource_trips == 0
    &&& m.scanner_trips == 0
}

impl<M: ReplayMode> PartialSession<M> {
    /// The session's value.
    pub closed spec fn view_session(&self) -> SessionModel {
        SessionModel {
            state: self.state,
            committed: self.committed,
            budget: self.budget,
            spent: self.spent,
            terminal: self.terminal,
        }
    }

    /// A fresh session from the base `state`: nothing committed, nothing spent, not latched.
    pub fn new(state: TokenLimiter, budget: Budget, mode: M) -> (r: Self)
        ensures
            r.view_session() == (SessionModel { state, committed: 0, budget, spent: 0, terminal: false }),
            r.spec_mode() == mode,
    {
        PartialSession { state, committed: 0, budget, spent: 0, terminal: false, mode }
    }

    /// The frontier the last attempt committed.
    pub fn committed(&self) -> (r: usize)
        ensures
            r == self.view_session().committed,
    {
        self.committed
    }

    /// The byte budget.
    pub fn budget(&self) -> (r: Budget)
        ensures
            r == self.view_session().budget,
    {
        self.budget
    }

    /// The lexable bytes spent over all attempts that ran.
    pub fn spent(&self) -> (r: u64)
        ensures
            r == self.view_session().spent,
    {
        self.spent
    }

    /// Whether a terminal error has latched the session.
    pub fn is_latched(&self) -> (r: bool)
        ensures
            r == self.view_session().terminal,
    {
        self.terminal
    }

    /// The replay mode.
    pub closed spec fn spec_mode(&self) -> M {
        self.mode
    }

    /// The replay mode.
    pub fn mode(&self) -> (r: &M)
        ensures
            *r == self.spec_mode(),
    {
        &self.mode
    }
}

/// Converts a refusal into the caller's error; the conversion has to be terminal, or the caller
/// would refill and retry forever against a ceiling check that refuses before any work.
fn refuse<E>(refusal: SessionRefusal) -> (r: E)
    where E: From<SessionRefusal> + MaybeTerminal
    requires
        <E as FromSpec<SessionRefusal>>::obeys_from_spec(),
        answers_terminal(&<E as FromSpec<SessionRefusal>>::from_spec(refusal)),
    ensures
        r == <E as FromSpec<SessionRefusal>>::from_spec(refusal),
{
    let converted = E::from(refusal);
    let terminal = converted.is_terminal();
    proof {
        assert(terminal);
    }
    converted
}

impl PartialSession<RedriveFromBase> {
    /// Runs one attempt over `src`, the whole buffer so far. The budget ceiling check and the latch are
    /// asked before any work, in that order; a refusal spends nothing and moves nothing. An
    /// attempt that runs spends the buffer's length, starts `f` on a fresh input from the base
    /// state, records where `f` left the committed position, and latches on a terminal error.
    pub fn parse<T, E, F>(&mut self, ctx: InputContext<Emitter<E>, Cache>, src: &str, f: F) -> (r: Result<T, E>)
        where
            E: From<SessionRefusal> + MaybeTerminal,
            F: for<'b> FnOnce(&mut InputRef<'b, E>) -> Result<T, E>,
        requires
            src.spec_bytes().len() >= old(self).view_session().committed,
            <E as FromSpec<SessionRefusal>>::obeys_from_spec(),
            refusal_of(old(self).view_session(), src.spec_bytes().len()) matches Some(x)
                ==> answers_terminal(&<E as FromSpec<SessionRefusal>>::from_spec(x)),
            forall|ir: &mut InputRef<'_, E>|
                #![trigger call_requires(f, (ir,))]
                mut_ref_current(ir).wf() ==> call_requires(f, (ir,)),
        ensures
            ({
                let s = old(self).view_session();
                match refusal_of(s, src.spec_bytes().len()) {
                    Some(x) => r == Err::<T, E>(<E as FromSpec<SessionRefusal>>::from_spec(x))
                        && final(self).view_session() == s,
                    None => exists|ir: &mut InputRef<'_, E>, o: Result<T, E>|
                        #![trigger call_ensures(f, (ir,), o)]
                        call_ensures(f, (ir,), o) && r == o && mut_ref_current(ir).wf() && fresh_start(
                            mut_ref_current(ir).model(),
                            src.spec_bytes(),
                            s.state,
                            ctx,
                        ) && final(self).view_session() == (SessionModel {
                            committed: mut_ref_future(ir).model().span.end,
                            spent: projected(s.spent, src.spec_bytes().len()),
                            terminal: final(self).view_session().terminal,
                            ..s
                        }) && (match o {
                            Ok(_) => final(self).view_session().terminal == s.terminal,
                            Err(e) => exists|b: bool|
                                #![trigger call_ensures(E::is_terminal, (&e,), b)]
                                call_ensures(E::is_terminal, (&e,), b) && final(self).view_session().terminal == (
                                s.terminal || b),
                        }),
                }
            }),
    {
        let bytes = src.as_bytes();
        let attempt_len = bytes.len();
        let lexable: u64 = attempt_len as u64;
        let projected_spend = self.spent.saturating_add(lexable);
        match self.budget {
            Budget::Bytes(cap) => {
                if projected_spend > cap {
                    return Err(refuse(SessionRefusal::BudgetExhausted { spent: projected_spend, budget: cap }));
                }
            },
            Budget::Unbounded => {},
        }
        if self.terminal {
            return Err(refuse(SessionRefusal::TerminalLatched));
        }
        self.spent = projected_spend;
        let mut input = Input::with_state_and_context(src, self.state, ctx);
        let mut ir = input.as_ref();
        let outcome = f(&mut ir);
        self.committed = ir.offset();
        match &outcome {
            Err(e) => {
                let latch = e.is_terminal();
                if latch {
                    self.terminal = true;
                }
            },
            Ok(_) => {},
        }
        outcome
    }
}

/// A latched session refuses every later attempt before any work.
pub proof fn law_the_latch_is_sticky(s: SessionModel, len: nat)
    requires
        s.terminal,
    ensures
        refusal_of(s, len) is Some,
{
}

/// An unbounded session never refuses for its budget; an unlatched one never refuses at all.
pub proof fn law_unbounded_never_refuses_for_budget(s: SessionModel, len: nat)
    requires
        s.budget == Budget::Unbounded,
    ensures
        !(refusal_of(s, len) matches Some(SessionRefusal::BudgetExhausted { .. })),
        !s.terminal ==> refusal_of(s, len) is None,
{
}

/// The spend only grows, by exactly the attempt's length while the tally has room.
pub proof fn law_spend_accumulates(spent: u64, len: nat)
    ensures
        projected(spent, len) >= spent,
        spent + len <= u64::MAX ==> projected(spent, len) == spent + len,
{
}

/// A bounded session refuses exactly the attempts that would carry the spend past the cap,
/// reporting the sum that attempt would have reached.
pub proof fn law_the_budget_refuses_exactly_past_its_cap(s: SessionModel, cap: u64, len: nat)
    requires
        s.budget == Budget::Bytes(cap),
    ensures
        projected(s.spent, len) > cap <==> refusal_of(s, len) == Some(
            SessionRefusal::BudgetExhausted { spent: projected(s.spent, len), budget: cap },
        ),
{
}

} // verus!
