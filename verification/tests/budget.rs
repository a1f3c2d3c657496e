use tier_manager::budget::USAGE_SCALE;
use tier_manager::{Budget, BudgetError, BudgetState, DeviceTier, UtcTime};

// Amounts are in millionths of the currency unit: 1_000_000 is one unit.
const UNIT: u64 = 1_000_000;

// The wall-clock time handed to every spend.
const AT: UtcTime = UtcTime { secs: 1_700_000_000, subsec_nanos: 250 };

#[test]
fn new_budget_has_full_limits() {
    let b = Budget::new(10 * UNIT, 100 * UNIT);
    assert_eq!(b.remaining_daily(), 10 * UNIT);
    assert_eq!(b.remaining_monthly(), 100 * UNIT);
}

#[test]
fn spend_tracks_amount() {
    let mut b = Budget::new(10 * UNIT, 100 * UNIT);
    let state = b.spend(2 * UNIT, DeviceTier::Cloud, "inference".into(), AT).unwrap();
    assert_eq!(state, BudgetState::UnderBudget);
    assert_eq!(b.remaining_daily(), 8 * UNIT);
}

#[test]
fn spend_approaching_limit() {
    let mut b = Budget::new(10 * UNIT, 100 * UNIT);
    let state = b.spend(8_500_000, DeviceTier::Cloud, "big job".into(), AT).unwrap();
    assert!(matches!(state, BudgetState::ApproachingLimit(r) if r >= 800_000));
}

#[test]
fn spend_over_budget_blocked() {
    let mut b = Budget::new(10 * UNIT, 100 * UNIT);
    b.spend(5 * UNIT, DeviceTier::Cloud, "first".into(), AT).unwrap();
    let err = b.spend(6 * UNIT, DeviceTier::Cloud, "second".into(), AT).unwrap_err();
    assert!(matches!(err, BudgetError::OverBudget { .. }));
}

#[test]
fn can_afford_within_limit() {
    let b = Budget::new(10 * UNIT, 100 * UNIT);
    assert!(b.can_afford(5 * UNIT));
    assert!(!b.can_afford(15 * UNIT));
}

#[test]
fn daily_reset() {
    let mut b = Budget::new(10 * UNIT, 100 * UNIT);
    b.spend(5 * UNIT, DeviceTier::Cloud, "job".into(), AT).unwrap();
    b.reset_daily();
    assert_eq!(b.remaining_daily(), 10 * UNIT);
    assert_eq!(b.remaining_monthly(), 95 * UNIT);
}

#[test]
fn frozen_budget_rejects_spend() {
    let mut b = Budget::new(10 * UNIT, 100 * UNIT);
    b.freeze();
    let err = b.spend(UNIT, DeviceTier::Cloud, "x".into(), AT).unwrap_err();
    assert!(matches!(err, BudgetError::Frozen));
    assert!(!b.can_afford(UNIT));
}

#[test]
fn freeze_unfreeze() {
    let mut b = Budget::new(10 * UNIT, 100 * UNIT);
    b.freeze();
    assert!(b.is_frozen());
    b.unfreeze();
    assert!(!b.is_frozen());
    assert!(b.can_afford(UNIT));
}

#[test]
fn daily_report() {
    let mut b = Budget::new(10 * UNIT, 100 * UNIT);
    b.spend(3 * UNIT, DeviceTier::Cortex, "a".into(), AT).unwrap();
    b.spend(2 * UNIT, DeviceTier::Cloud, "b".into(), AT).unwrap();
    let report = b.daily_report();
    assert_eq!(report.spent_today, 5 * UNIT);
    assert_eq!(report.daily_remaining, 5 * UNIT);
    assert_eq!(report.transaction_count, 2);
}

#[test]
fn transactions_recorded() {
    let mut b = Budget::new(10 * UNIT, 100 * UNIT);
    b.spend(UNIT, DeviceTier::Cortex, "reason".into(), AT).unwrap();
    let txn = &b.transactions()[0];
    assert_eq!(txn.amount, UNIT);
    assert_eq!(txn.tier, DeviceTier::Cortex);
    assert_eq!(txn.reason, "reason");
}

#[test]
fn over_budget_error_reports_total_and_limit() {
    let mut b = Budget::new(10 * UNIT, 100 * UNIT);
    b.spend(5 * UNIT, DeviceTier::Cloud, "first".into(), AT).unwrap();
    let err = b.spend(6 * UNIT, DeviceTier::Cloud, "second".into(), AT).unwrap_err();
    assert_eq!(err, BudgetError::OverBudget { spent: 11_000_000, limit: 10_000_000 });
}

#[test]
fn refused_spend_changes_nothing() {
    let mut b = Budget::new(10 * UNIT, 100 * UNIT);
    b.spend(4 * UNIT, DeviceTier::Cloud, "first".into(), AT).unwrap();
    let before = b.daily_report();
    assert!(b.spend(7 * UNIT, DeviceTier::Cloud, "too much".into(), AT).is_err());
    assert_eq!(b.daily_report(), before);
    assert_eq!(b.transactions().len(), 1);
}

#[test]
fn spending_exactly_the_limit_reports_over_budget() {
    let mut b = Budget::new(10 * UNIT, 100 * UNIT);
    let state = b.spend(10 * UNIT, DeviceTier::Cloud, "all".into(), AT).unwrap();
    assert_eq!(state, BudgetState::OverBudget);
    assert_eq!(b.remaining_daily(), 0);
    assert!(!b.can_afford(1));
    assert!(b.can_afford(0));
}

#[test]
fn approaching_limit_share_is_exact() {
    let mut b = Budget::new(10 * UNIT, 100 * UNIT);
    let state = b.spend(8 * UNIT, DeviceTier::Cloud, "eight tenths".into(), AT).unwrap();
    assert_eq!(state, BudgetState::ApproachingLimit(800_000));
    let mut c = Budget::new(3, 100);
    // two thirds is below eight tenths
    assert_eq!(c.spend(2, DeviceTier::Cloud, "two".into(), AT).unwrap(), BudgetState::UnderBudget);
    assert_eq!(USAGE_SCALE, 1_000_000);
}

#[test]
fn zero_daily_limit_accepts_only_nothing() {
    let mut b = Budget::new(0, 100 * UNIT);
    assert_eq!(b.spend(0, DeviceTier::Reflex, "free".into(), AT).unwrap(), BudgetState::UnderBudget);
    assert!(matches!(
        b.spend(1, DeviceTier::Reflex, "paid".into(), AT),
        Err(BudgetError::OverBudget { spent: 1, limit: 0 })
    ));
}

#[test]
fn month_total_is_sum_of_transactions() {
    let mut b = Budget::new(10 * UNIT, 15 * UNIT);
    b.spend(6 * UNIT, DeviceTier::Cloud, "a".into(), AT).unwrap();
    b.reset_daily();
    b.spend(7 * UNIT, DeviceTier::Cloud, "b".into(), AT).unwrap();
    b.reset_daily();
    b.spend(9 * UNIT, DeviceTier::Cloud, "c".into(), AT).unwrap();
    let sum: u128 = b.transactions().iter().map(|t| t.amount as u128).sum();
    assert_eq!(b.daily_report().spent_this_month, sum);
    assert_eq!(sum, 22 * UNIT as u128);
    // the monthly limit is reported against, never enforced
    assert_eq!(b.remaining_monthly(), 0);
}

#[test]
fn transaction_has_empty_device_and_the_given_timestamp() {
    let mut b = Budget::new(10 * UNIT, 100 * UNIT);
    b.spend(UNIT, DeviceTier::Backbone, "job".into(), AT).unwrap();
    let txn = &b.transactions()[0];
    assert_eq!(txn.device, "");
    assert_eq!(txn.timestamp, AT);
}

#[test]
fn can_afford_matches_spend() {
    for amount in [0u64, 1, 5 * UNIT, 10 * UNIT, 10 * UNIT + 1] {
        let mut b = Budget::new(10 * UNIT, 100 * UNIT);
        let predicted = b.can_afford(amount);
        assert_eq!(predicted, b.spend(amount, DeviceTier::Cloud, "x".into(), AT).is_ok());
    }
}
