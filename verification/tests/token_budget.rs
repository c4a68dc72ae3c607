//! The budget arithmetic: the ceiling check the driver asks before it works, and the charge it takes after.

use tokora::token_budget::TokenBudget;

#[test]
fn an_unlimited_budget_never_refuses() {
    let mut budget = TokenBudget::unlimited();
    for _ in 0..1_000 {
        assert!(!budget.is_exhausted());
        budget.spend();
    }
    assert_eq!(budget.spent(), 1_000);
    assert!(!budget.is_exhausted());
}

#[test]
fn a_bounded_budget_charges_exactly_its_limitation() {
    let mut budget = TokenBudget::with_limitation(3);
    for _ in 0..3 {
        assert!(!budget.is_exhausted());
        budget.spend();
    }
    assert!(budget.is_exhausted());
    // The ceiling check is a pure read, so asking it again reads the same.
    assert!(budget.is_exhausted());
    assert_eq!(budget.spent(), 3);
    assert_eq!(budget.limitation(), 3);
}

#[test]
fn a_zero_budget_refuses_the_first_item() {
    let budget = TokenBudget::with_limitation(0);
    assert!(budget.is_exhausted());
    assert_eq!(budget.spent(), 0);
}

/// The unlimited sentinel is not a ceiling: one charge from `usize::MAX - 1` lands on the
/// sentinel, and the budget must still refuse nothing.
#[test]
fn the_unlimited_sentinel_never_refuses_at_the_top_of_the_counter() {
    let mut budget = TokenBudget::with_spent(usize::MAX, usize::MAX - 1);

    assert!(!budget.is_exhausted());
    budget.spend();

    assert_eq!(budget.spent(), usize::MAX);
    assert!(
        !budget.is_exhausted(),
        "`unlimited()` promised to refuse nothing; `spent >= usize::MAX` made it refuse everything",
    );
}

/// The charge at the sentinel saturates rather than wrapping back to zero.
#[test]
fn the_charge_at_the_sentinel_saturates_rather_than_wrapping() {
    let mut budget = TokenBudget::with_spent(usize::MAX, usize::MAX);

    budget.spend();
    assert_eq!(budget.spent(), usize::MAX, "saturated, not wrapped to zero");
    assert!(!budget.is_exhausted());
}

/// The width the two cells above were run at, asserted rather than assumed.
#[test]
fn the_sentinel_distance_is_a_reachable_count_at_thirty_two_bit_width() {
    if usize::BITS == 32 {
        assert_eq!(usize::MAX as u64, 4_294_967_295);
    } else {
        assert_eq!(usize::MAX as u64, 18_446_744_073_709_551_615);
    }
    // `with_limitation(usize::MAX)` is the sentinel by value, so it must be the sentinel by
    // behaviour.
    assert_eq!(TokenBudget::with_limitation(usize::MAX), TokenBudget::unlimited());
}

#[test]
fn a_met_ceiling_stays_exhausted_and_refusal_is_latched_once() {
    let mut budget = TokenBudget::with_limitation(1);
    assert!(!budget.refused_an_item());
    budget.spend();
    assert!(budget.is_exhausted());
    budget.latch_limit_probe();
    assert!(budget.refused_an_item());
    assert!(budget.limit_probe_spent());
    assert_eq!(budget.spent(), 1, "a refusal is not a charge");
}
