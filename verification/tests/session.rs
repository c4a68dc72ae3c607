//! Session cells, over a by-value token tally: the base state a session was built with is what
//! every attempt starts from.

use tokora::emitter::Emitter;
use tokora::input::{Cache, InputContext, InputRef};
use tokora::session::{Budget, MaybeTerminal, PartialSession, RedriveFromBase, SessionRefusal};
use tokora::token_limiter::{TokenLimitExceeded, TokenLimiter};

#[derive(Debug, Clone, PartialEq, Eq)]
enum SErr {
    /// A limiter trip: terminal, exactly like a session refusal.
    Trip,
    /// The session's own refusals.
    Refused(SessionRefusal),
}

impl From<TokenLimitExceeded> for SErr {
    fn from(_: TokenLimitExceeded) -> Self {
        SErr::Trip
    }
}

impl From<SessionRefusal> for SErr {
    fn from(refusal: SessionRefusal) -> Self {
        SErr::Refused(refusal)
    }
}

impl MaybeTerminal for SErr {
    fn is_terminal(&self) -> bool {
        matches!(self, SErr::Trip | SErr::Refused(_))
    }
}

fn fatal_ctx() -> InputContext<Emitter<SErr>, Cache> {
    InputContext::new(Emitter::fatal(), Cache::default())
}

/// Counts every word to end of input; under a fatal emitter a limit trip aborts.
fn count_words(inp: &mut InputRef<'_, SErr>) -> Result<usize, SErr> {
    let mut n = 0;
    while inp.next()?.is_some() {
        n += 1;
    }
    Ok(n)
}

/// The budget refuses before any work once the summed attempt-lexable bytes would pass the cap,
/// and the refusal is terminal.
#[test]
fn session_budget_bounds_cumulative_work() {
    let mut session =
        PartialSession::new(TokenLimiter::with_limitation(usize::MAX), Budget::Bytes(8), RedriveFromBase);

    // 3 lexable bytes: inside the budget.
    assert_eq!(session.parse(fatal_ctx(), "a b", count_words), Ok(2));
    assert_eq!(session.committed(), 3);
    assert_eq!(session.spent(), 3);

    // 3 + 7 = 10 > 8: refused whole, before the first byte is lexed.
    let refused = session.parse(fatal_ctx(), "a b c d", count_words);
    assert_eq!(
        refused,
        Err(SErr::Refused(SessionRefusal::BudgetExhausted { spent: 10, budget: 8 })),
        "the ceiling check reports the sum this attempt would have reached"
    );
    assert!(refused.as_ref().unwrap_err().is_terminal());
    assert_eq!(session.committed(), 3, "a refused attempt does no work, so the frontier cannot have moved");
    assert_eq!(session.spent(), 3, "a refused attempt spends nothing");
}

/// `Budget::Unbounded` never refuses.
#[test]
fn unbounded_budget_never_refuses() {
    let mut session =
        PartialSession::new(TokenLimiter::with_limitation(usize::MAX), Budget::Unbounded, RedriveFromBase);
    for _ in 0..4 {
        assert!(session.parse(fatal_ctx(), "a b c d e", count_words).is_ok());
    }
    assert_eq!(session.spent(), 36, "the spend is still tallied, just never gated");
}

/// A terminal error latches the session: every later attempt is refused before any work.
#[test]
fn session_latches_terminal_trips() {
    let mut session = PartialSession::new(TokenLimiter::with_limitation(1), Budget::Unbounded, RedriveFromBase);

    assert_eq!(
        session.parse(fatal_ctx(), "a b", count_words),
        Err(SErr::Trip),
        "the second word passes the limiter, and a trip is terminal"
    );
    assert!(session.is_latched(), "an Err-shaped terminal latches the session");

    let retried = session.parse(fatal_ctx(), "a b c", count_words);
    assert_eq!(
        retried,
        Err(SErr::Refused(SessionRefusal::TerminalLatched)),
        "the latch refuses the retry before any work"
    );
    assert!(retried.as_ref().unwrap_err().is_terminal());
    assert_eq!(session.spent(), 3, "the refused retry spent nothing: only the first attempt's 3 bytes are on the tally");
}

/// A by-value tally accumulates within an attempt and resets between them.
#[test]
fn the_by_value_tally_accumulates_within_an_attempt_and_resets_between_them() {
    let mut session = PartialSession::new(TokenLimiter::with_limitation(3), Budget::Unbounded, RedriveFromBase);

    // Three words against a limit of three: exactly at the edge, so it does not trip.
    let first = session.parse(fatal_ctx(), "a b c", count_words);
    assert_eq!(first, Ok(3), "three words sit exactly on the limit");

    // The identical buffer again: the retained base gives the identical answer.
    let second = session.parse(fatal_ctx(), "a b c", count_words);
    assert_eq!(second, Ok(3), "the base tally was not overwritten by attempt one");
}

#[test]
fn the_budget_is_asked_before_the_latch() {
    let mut session = PartialSession::new(TokenLimiter::with_limitation(1), Budget::Bytes(5), RedriveFromBase);
    assert_eq!(session.parse(fatal_ctx(), "a b", count_words), Err(SErr::Trip));
    assert!(session.is_latched());
    assert_eq!(
        session.parse(fatal_ctx(), "a b c", count_words),
        Err(SErr::Refused(SessionRefusal::BudgetExhausted { spent: 8, budget: 5 })),
        "a latched session whose budget would also be passed reports the budget"
    );
    assert_eq!(session.budget(), Budget::Bytes(5));
    assert_eq!(*session.mode(), RedriveFromBase);
}

#[test]
fn a_non_terminal_error_does_not_latch() {
    let mut session =
        PartialSession::new(TokenLimiter::with_limitation(usize::MAX), Budget::Unbounded, RedriveFromBase);
    let declined: Result<(), SErr> = session.parse(fatal_ctx(), "a", |inp| {
        let _ = inp.next();
        Err(SErr::Trip).or(Ok(()))
    });
    assert_eq!(declined, Ok(()));
    assert!(!session.is_latched());
    assert_eq!(session.committed(), 1);
}

#[test]
fn refusal_messages_name_their_cause() {
    assert!(SessionRefusal::TerminalLatched.message().contains("latched"));
    assert!(SessionRefusal::BudgetExhausted { spent: 1, budget: 0 }.message().contains("budget"));
}

#[test]
fn a_budget_refusal_message_carries_the_sum_and_the_budget() {
    assert_eq!(
        SessionRefusal::BudgetExhausted { spent: 10, budget: 8 }.message(),
        "the parse session's budget is exhausted: this attempt would reach 10 lexable bytes against a budget of 8"
    );
    assert_eq!(
        SessionRefusal::BudgetExhausted { spent: u64::MAX, budget: 0 }.message(),
        "the parse session's budget is exhausted: this attempt would reach 18446744073709551615 lexable bytes \
         against a budget of 0"
    );
}
