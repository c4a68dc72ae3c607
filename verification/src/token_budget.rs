//! The **input-layer token budget**: a durable ceiling on the items one input's lexer is allowed
//! to produce — tokens and refused items alike — enforced by the driver in front of the lexing
//! work and not refunded by a rollback.
use vstd::prelude::*;

verus! {

/// A ceiling on the number of items one input will let its lexer produce.
///
/// `usize::MAX` is the sentinel for *no ceiling*: [`is_exhausted`](Self::is_exhausted) reads it
/// as the absence of a ceiling rather than as a very large one.
#[derive(Debug, Clone, Copy, PartialEq, Eq, Hash)]
pub struct TokenBudget {
    max: usize,
    spent: usize,
    probed_at_limit: bool,
}

impl TokenBudget {
    /// The ceiling this budget was built with.
    pub closed spec fn spec_max(self) -> usize {
        self.max
    }

    /// How many items the driver has charged against it.
    pub closed spec fn spec_spent(self) -> usize {
        self.spent
    }

    /// Whether the one-shot at-limit probe has produced an item that was refused.
    pub closed spec fn spec_refused(self) -> bool {
        self.probed_at_limit
    }

    /// The budget after one charge (saturating).
    pub closed spec fn after_spend(self) -> TokenBudget {
        TokenBudget {
            spent: if self.spent == usize::MAX { usize::MAX } else { (self.spent + 1) as usize },
            ..self
        }
    }

    /// The budget after the one-shot probe latched.
    pub closed spec fn after_latch(self) -> TokenBudget {
        TokenBudget { probed_at_limit: true, ..self }
    }

    /// What a charge does to the count and the ceiling.
    pub broadcast proof fn lemma_after_spend(self)
        ensures
            #[trigger] self.after_spend().spec_max() == self.spec_max(),
            self.after_spend().spec_refused() == self.spec_refused(),
            self.after_spend().spec_spent() == (if self.spec_spent() == usize::MAX {
                usize::MAX as int
            } else {
                self.spec_spent() + 1
            }),
    {
    }

    /// What latching the probe does.
    pub broadcast proof fn lemma_after_latch(self)
        ensures
            #[trigger] self.after_latch().spec_max() == self.spec_max(),
            self.after_latch().spec_spent() == self.spec_spent(),
            self.after_latch().spec_refused(),
    {
    }

    /// The ceiling check: the ceiling is met, so an item the lexer would hand back now is refused.
    pub open spec fn spec_is_exhausted(self) -> bool {
        self.spec_spent() >= self.spec_max() && self.spec_max() != usize::MAX
    }

    /// No ceiling: the driver charges every item and refuses none.
    pub fn unlimited() -> (r: Self)
        ensures
            r.spec_max() == usize::MAX,
            r.spec_spent() == 0,
            !r.spec_refused(),
    {
        TokenBudget { max: usize::MAX, spent: 0, probed_at_limit: false }
    }

    /// A ceiling of `max` items produced. The `max + 1`-th item the lexer hands back is refused.
    pub fn with_limitation(max: usize) -> (r: Self)
        ensures
            r.spec_max() == max,
            r.spec_spent() == 0,
            !r.spec_refused(),
    {
        TokenBudget { max, spent: 0, probed_at_limit: false }
    }

    /// A budget of ceiling `max` that has already charged `spent` items, as a long-lived input's
    /// budget reads after that many produce-events.
    pub fn with_spent(max: usize, spent: usize) -> (r: Self)
        ensures
            r.spec_max() == max,
            r.spec_spent() == spent,
            !r.spec_refused(),
    {
        TokenBudget { max, spent, probed_at_limit: false }
    }

    /// The ceiling this budget was built with.
    pub fn limitation(&self) -> (r: usize)
        ensures
            r == self.spec_max(),
    {
        self.max
    }

    /// How many items the driver has charged against it.
    pub fn spent(&self) -> (r: usize)
        ensures
            r == self.spec_spent(),
    {
        self.spent
    }

    /// Whether the ceiling has been met, so that an item the lexer would hand back now is refused.
    pub fn is_exhausted(&self) -> (r: bool)
        ensures
            r == self.spec_is_exhausted(),
    {
        self.spent >= self.max && self.max != usize::MAX
    }

    /// Charges the one item [`is_exhausted`](Self::is_exhausted) authorized. The increment
    /// saturates, so the unlimited sentinel never wraps to a restarted counter.
    pub fn spend(&mut self)
        ensures
            *final(self) == old(self).after_spend(),
            final(self).spec_max() == old(self).spec_max(),
            final(self).spec_refused() == old(self).spec_refused(),
            final(self).spec_spent() == (if old(self).spec_spent() == usize::MAX {
                usize::MAX as int
            } else {
                old(self).spec_spent() + 1
            }),
    {
        if self.spent < usize::MAX {
            self.spent = self.spent + 1;
        }
    }

    /// Whether this budget has refused an item: the ceiling was met, the lexer was run, it handed
    /// back an item, and that item was refused.
    pub fn refused_an_item(&self) -> (r: bool)
        ensures
            r == self.spec_refused(),
    {
        self.probed_at_limit
    }

    /// Whether the one-shot at-limit probe has already been spent on an item.
    pub fn limit_probe_spent(&self) -> (r: bool)
        ensures
            r == self.spec_refused(),
    {
        self.refused_an_item()
    }

    /// Latches the one-shot probe, for a probe that produced an item. Monotone.
    pub fn latch_limit_probe(&mut self)
        ensures
            *final(self) == old(self).after_latch(),
            final(self).spec_max() == old(self).spec_max(),
            final(self).spec_spent() == old(self).spec_spent(),
            final(self).spec_refused(),
    {
        self.probed_at_limit = true;
    }
}

impl Default for TokenBudget {
    /// [`unlimited`](Self::unlimited): a consumer that never names this type never changes
    /// behaviour.
    fn default() -> (r: Self)
        ensures
            r.spec_max() == usize::MAX,
            r.spec_spent() == 0,
            !r.spec_refused(),
    {
        Self::unlimited()
    }
}

/// The unlimited sentinel is not a ceiling: a budget built without one is never exhausted,
/// whatever it has charged — including at the top of the counter.
pub proof fn law_unlimited_never_refuses(b: TokenBudget)
    requires
        b.spec_max() == usize::MAX,
    ensures
        !b.spec_is_exhausted(),
{
}

/// A bounded budget of `max` refuses exactly once `max` items have been charged, and not before.
pub proof fn law_bounded_refuses_at_its_limitation(b: TokenBudget)
    requires
        b.spec_max() < usize::MAX,
    ensures
        b.spec_is_exhausted() <==> b.spec_spent() >= b.spec_max(),
{
}

/// Charging never lowers the count and never changes the ceiling: the budget is monotone, and a
/// refusal, once reached, stays.
pub proof fn law_spend_is_monotone(before: TokenBudget)
    ensures
        before.after_spend().spec_spent() >= before.spec_spent(),
        before.after_spend().spec_max() == before.spec_max(),
        before.spec_is_exhausted() ==> before.after_spend().spec_is_exhausted(),
{
    before.lemma_after_spend();
}

/// Latching the probe is monotone and leaves the count alone: a refusal is not a charge.
pub proof fn law_refusal_is_not_a_charge(before: TokenBudget)
    ensures
        before.after_latch().spec_refused(),
        before.after_latch().spec_spent() == before.spec_spent(),
        before.after_latch().spec_is_exhausted() == before.spec_is_exhausted(),
{
    before.lemma_after_latch();
}

} // verus!
