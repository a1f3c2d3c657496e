use vstd::prelude::*;

use crate::clock::UtcTime;
use crate::tier::DeviceTier;

verus! {

/// Why a spend was refused. Amounts are in millionths of the currency unit.
#[derive(Debug, Clone, Copy, PartialEq, Eq, Structural)]
pub enum BudgetError {
    /// The spend would take the day's total (`spent`) above `limit`.
    OverBudget { spent: u128, limit: u64 },
    Frozen,
}

/// One accepted spend.
#[derive(Debug, Clone)]
pub struct Transaction {
    pub timestamp: UtcTime,
    /// In millionths of the currency unit.
    pub amount: u64,
    pub tier: DeviceTier,
    pub reason: String,
    pub device: String,
}

/// Where the day's spending stands after an accepted spend.
#[derive(Debug, Clone, Copy, PartialEq, Eq, Structural)]
pub enum BudgetState {
    UnderBudget,
    /// At least eight tenths of the daily limit is used; the payload is the
    /// share used, in parts per million, rounded down.
    ApproachingLimit(u64),
    OverBudget,
    Frozen,
}

/// A snapshot of the budget. Amounts are in millionths of the currency unit.
#[derive(Debug, Clone, Copy, PartialEq, Eq, Structural)]
pub struct BudgetReport {
    pub spent_today: u64,
    pub spent_this_month: u128,
    pub daily_remaining: u64,
    pub monthly_remaining: u64,
    pub transaction_count: usize,
}

/// Parts per million in a whole.
pub const USAGE_SCALE: u128 = 1_000_000;

/// Sum of the amounts of `txs`.
pub open spec fn amount_sum(txs: Seq<Transaction>) -> nat
    decreases txs.len(),
{
    if txs.len() == 0 {
        0
    } else {
        amount_sum(txs.drop_last()) + txs.last().amount as nat
    }
}

/// What a spend of `spent` out of `limit` reports.
pub open spec fn state_for(spent: nat, limit: nat) -> BudgetState {
    if limit == 0 {
        // no share of an empty limit can be computed: nothing to warn about
        BudgetState::UnderBudget
    } else if spent >= limit {
        BudgetState::OverBudget
    } else if 10 * spent >= 8 * limit {
        BudgetState::ApproachingLimit(((spent * USAGE_SCALE) as int / limit as int) as u64)
    } else {
        BudgetState::UnderBudget
    }
}

/// `a - b`, or zero when `b` is larger.
pub open spec fn minus_or_zero(a: nat, b: nat) -> nat {
    if a >= b {
        (a - b) as nat
    } else {
        0
    }
}

/// The abstract state of a budget. Amounts are in millionths of the currency unit.
pub struct BudgetView {
    pub daily_limit: nat,
    pub monthly_limit: nat,
    pub spent_today: nat,
    pub spent_this_month: nat,
    pub transactions: Seq<Transaction>,
    pub frozen: bool,
}

impl BudgetView {
    /// The day's spending stays within the daily limit, and the month's
    /// spending is the sum of the recorded transactions.
    pub open spec fn valid(self) -> bool {
        &&& self.spent_today <= self.daily_limit
        &&& self.spent_this_month == amount_sum(self.transactions)
    }

    /// Whether a spend of `amount` fits.
    pub open spec fn affords(self, amount: nat) -> bool {
        !self.frozen && self.spent_today + amount <= self.daily_limit
    }

    /// What a spend of `amount` answers.
    pub open spec fn spend_result(self, amount: nat) -> Result<BudgetState, BudgetError> {
        if self.frozen {
            Err(BudgetError::Frozen)
        } else if self.spent_today + amount > self.daily_limit {
            Err(
                BudgetError::OverBudget {
                    spent: (self.spent_today + amount) as u128,
                    limit: self.daily_limit as u64,
                },
            )
        } else {
            Ok(state_for(self.spent_today + amount, self.daily_limit))
        }
    }

    /// `post` is this budget after an accepted spend of `amount` on `tier`
    /// for `reason` at `timestamp`, recorded as a new last transaction.
    pub open spec fn spend_recorded(
        self,
        post: BudgetView,
        amount: nat,
        tier: DeviceTier,
        reason: Seq<char>,
        timestamp: UtcTime,
    ) -> bool {
        let n = self.transactions.len();
        &&& post.daily_limit == self.daily_limit
        &&& post.monthly_limit == self.monthly_limit
        &&& post.frozen == self.frozen
        &&& post.spent_today == self.spent_today + amount
        &&& post.spent_this_month == self.spent_this_month + amount
        &&& post.transactions.len() == n + 1
        &&& post.transactions.subrange(0, n as int) == self.transactions
        &&& post.transactions[n as int].timestamp == timestamp
        &&& post.transactions[n as int].amount == amount
        &&& post.transactions[n as int].tier == tier
        &&& post.transactions[n as int].reason@ == reason
        &&& post.transactions[n as int].device@ == Seq::<char>::empty()
    }
}

proof fn lemma_amount_sum_push(txs: Seq<Transaction>, t: Transaction)
    ensures
        amount_sum(txs.push(t)) == amount_sum(txs) + t.amount,
{
    assert(txs.push(t).drop_last() =~= txs);
}

proof fn lemma_amount_sum_bound(txs: Seq<Transaction>)
    ensures
        amount_sum(txs) <= txs.len() * (u64::MAX as nat),
    decreases txs.len(),
{
    if txs.len() > 0 {
        lemma_amount_sum_bound(txs.drop_last());
        assert((txs.len() - 1) * (u64::MAX as nat) + u64::MAX == txs.len() * (u64::MAX as nat))
            by (nonlinear_arith);
    }
}

proof fn lemma_month_fits(month: nat, amount: nat, len: nat)
    requires
        month <= len * (u64::MAX as nat),
        amount <= u64::MAX,
        len <= u64::MAX,
    ensures
        month + amount <= u128::MAX,
{
    assert(len * (u64::MAX as nat) <= (u64::MAX as nat) * (u64::MAX as nat)) by (nonlinear_arith)
        requires
            len <= u64::MAX,
    ;
    assert((u64::MAX as nat) * (u64::MAX as nat) + (u64::MAX as nat) <= u128::MAX)
        by (nonlinear_arith);
}

/// Daily and monthly spending limits with a record of every accepted spend.
pub struct Budget {
    daily_limit: u64,
    monthly_limit: u64,
    spent_today: u64,
    spent_this_month: u128,
    transactions: Vec<Transaction>,
    frozen: bool,
}

impl View for Budget {
    type V = BudgetView;

    closed spec fn view(&self) -> BudgetView {
        BudgetView {
            daily_limit: self.daily_limit as nat,
            monthly_limit: self.monthly_limit as nat,
            spent_today: self.spent_today as nat,
            spent_this_month: self.spent_this_month as nat,
            transactions: self.transactions@,
            frozen: self.frozen,
        }
    }
}

impl Budget {
    /// The day's spending stays within the daily limit, and the month's
    /// spending is the sum of the recorded transactions.
    #[verifier::type_invariant]
    spec fn within_limits(self) -> bool {
        self@.valid()
    }

    /// A budget with nothing spent, no transactions, not frozen.
    pub fn new(daily_limit: u64, monthly_limit: u64) -> (r: Self)
        ensures
            r@.valid(),
            r@ == (BudgetView {
                daily_limit: daily_limit as nat,
                monthly_limit: monthly_limit as nat,
                spent_today: 0,
                spent_this_month: 0,
                transactions: Seq::empty(),
                frozen: false,
            }),
    {
        let r = Budget {
            daily_limit,
            monthly_limit,
            spent_today: 0,
            spent_this_month: 0,
            transactions: Vec::new(),
            frozen: false,
        };
        assert(r@.transactions =~= Seq::<Transaction>::empty());
        r
    }

    /// Spends `amount` on `tier` for `reason` at `timestamp` (the wall-clock
    /// time of the spend), unless the budget is frozen or the day's total
    /// would pass the daily limit; a refused spend changes nothing.
    pub fn spend(
        &mut self,
        amount: u64,
        tier: DeviceTier,
        reason: String,
        timestamp: UtcTime,
    ) -> (r: Result<BudgetState, BudgetError>)
        ensures
            final(self)@.valid(),
            r == old(self)@.spend_result(amount as nat),
            r is Err ==> final(self)@ == old(self)@,
            r matches Ok(st) ==> ({
                let total = old(self)@.spent_today + amount;
                let limit = old(self)@.daily_limit;
                &&& (limit > 0 && total < limit && 10 * total >= 8 * limit) ==> st
                    == BudgetState::ApproachingLimit((total * 1_000_000 / (limit as int)) as u64)
                &&& (limit == 0 || 10 * total < 8 * limit) ==> st == BudgetState::UnderBudget
                &&& (limit > 0 && total == limit) ==> st == BudgetState::OverBudget
            }),
            r is Ok ==> old(self)@.spend_recorded(
                final(self)@,
                amount as nat,
                tier,
                reason@,
                timestamp,
            ),
    {
        proof {
            use_type_invariant(&*self);
        }
        if self.frozen {
            return Err(BudgetError::Frozen);
        }
        let total: u128 = self.spent_today as u128 + amount as u128;
        if total > self.daily_limit as u128 {
            return Err(BudgetError::OverBudget { spent: total, limit: self.daily_limit });
        }
        let ghost pre = self@;
        proof {
            assert(self.transactions@.len() == self.transactions.len());
            lemma_amount_sum_bound(self.transactions@);
            lemma_month_fits(
                self.spent_this_month as nat,
                amount as nat,
                self.transactions@.len(),
            );
        }
        let txn = Transaction {
            timestamp,
            amount,
            tier,
            reason,
            device: String::new(),
        };
        let ghost t = txn;
        // take the budget out whole, so that it is rebuilt in one step
        let mut taken = Budget::new(self.daily_limit, self.monthly_limit);
        std::mem::swap(self, &mut taken);
        let Budget {
            daily_limit,
            monthly_limit,
            spent_today,
            spent_this_month,
            mut transactions,
            frozen,
        } = taken;
        transactions.push(txn);
        proof {
            lemma_amount_sum_push(pre.transactions, t);
            assert(transactions@.subrange(0, pre.transactions.len() as int) =~= pre.transactions);
        }
        let spent_today = spent_today + amount;
        *self = Budget {
            daily_limit,
            monthly_limit,
            spent_today,
            spent_this_month: spent_this_month + amount as u128,
            transactions,
            frozen,
        };
        Ok(Self::usage_state(spent_today, daily_limit))
    }

    /// The state reported for `spent` out of `limit`.
    fn usage_state(spent: u64, limit: u64) -> (r: BudgetState)
        ensures
            r == state_for(spent as nat, limit as nat),
    {
        if limit == 0 {
            BudgetState::UnderBudget
        } else if spent >= limit {
            BudgetState::OverBudget
        } else if 10 * (spent as u128) >= 8 * (limit as u128) {
            let share = (spent as u128) * USAGE_SCALE / (limit as u128);
            assert(share < USAGE_SCALE) by (nonlinear_arith)
                requires
                    share as int == (spent as int) * (USAGE_SCALE as int) / (limit as int),
                    spent < limit,
            ;
            BudgetState::ApproachingLimit(share as u64)
        } else {
            BudgetState::UnderBudget
        }
    }

    /// What may still be spent today.
    pub fn remaining_daily(&self) -> (r: u64)
        ensures
            r == minus_or_zero(self@.daily_limit, self@.spent_today),
    {
        if self.daily_limit >= self.spent_today {
            self.daily_limit - self.spent_today
        } else {
            0
        }
    }

    /// What may still be spent this month.
    pub fn remaining_monthly(&self) -> (r: u64)
        ensures
            r == minus_or_zero(self@.monthly_limit, self@.spent_this_month),
    {
        if self.monthly_limit as u128 >= self.spent_this_month {
            (self.monthly_limit as u128 - self.spent_this_month) as u64
        } else {
            0
        }
    }

    /// Whether a spend of `amount` would be accepted.
    pub fn can_afford(&self, amount: u64) -> (r: bool)
        ensures
            r == self@.affords(amount as nat),
    {
        !self.frozen && self.spent_today as u128 + amount as u128 <= self.daily_limit as u128
    }

    /// The day's and month's figures.
    pub fn daily_report(&self) -> (r: BudgetReport)
        ensures
            r.spent_today == self@.spent_today,
            r.spent_this_month == self@.spent_this_month,
            r.daily_remaining == minus_or_zero(self@.daily_limit, self@.spent_today),
            r.monthly_remaining == minus_or_zero(self@.monthly_limit, self@.spent_this_month),
            r.transaction_count == self@.transactions.len(),
    {
        BudgetReport {
            spent_today: self.spent_today,
            spent_this_month: self.spent_this_month,
            daily_remaining: self.remaining_daily(),
            monthly_remaining: self.remaining_monthly(),
            transaction_count: self.transactions.len(),
        }
    }

    /// Starts a new day: today's spending goes back to zero, all else stays.
    pub fn reset_daily(&mut self)
        ensures
            final(self)@.valid(),
            final(self)@ == (BudgetView { spent_today: 0, ..old(self)@ }),
    {
        proof {
            use_type_invariant(&*self);
        }
        self.spent_today = 0;
    }

    /// Refuses every spend until unfrozen.
    pub fn freeze(&mut self)
        ensures
            final(self)@ == (BudgetView { frozen: true, ..old(self)@ }),
    {
        proof {
            use_type_invariant(&*self);
        }
        self.frozen = true;
    }

    /// Accepts spends again.
    pub fn unfreeze(&mut self)
        ensures
            final(self)@ == (BudgetView { frozen: false, ..old(self)@ }),
    {
        proof {
            use_type_invariant(&*self);
        }
        self.frozen = false;
    }

    pub fn is_frozen(&self) -> (r: bool)
        ensures
            r == self@.frozen,
    {
        self.frozen
    }

    /// Every accepted spend, oldest first.
    pub fn transactions(&self) -> (r: &[Transaction])
        ensures
            r@ == self@.transactions,
    {
        self.transactions.as_slice()
    }
}

/// A spend is accepted exactly when `can_afford` says it fits.
pub proof fn lemma_can_afford_iff_spend_accepted(b: BudgetView, amount: nat)
    ensures
        b.affords(amount) == (b.spend_result(amount) is Ok),
{
}

/// An accepted spend keeps the budget valid: the day's total stays within
/// the daily limit and the month's total is still the sum of the record.
pub proof fn lemma_spend_keeps_budget_valid(
    b: BudgetView,
    post: BudgetView,
    amount: nat,
    tier: DeviceTier,
    reason: Seq<char>,
    timestamp: UtcTime,
)
    requires
        b.valid(),
        b.spend_result(amount) is Ok,
        b.spend_recorded(post, amount, tier, reason, timestamp),
    ensures
        post.valid(),
        post.spent_today <= post.daily_limit,
        post.spent_this_month == amount_sum(post.transactions),
{
    let n = b.transactions.len();
    assert(post.transactions =~= b.transactions.push(post.transactions[n as int]));
    lemma_amount_sum_push(b.transactions, post.transactions[n as int]);
}

/// On a valid budget, what remains today and what was spent today add up to
/// the daily limit.
pub proof fn lemma_daily_remaining_complements_spent(b: BudgetView)
    requires
        b.valid(),
    ensures
        minus_or_zero(b.daily_limit, b.spent_today) + b.spent_today == b.daily_limit,
{
}

/// A spend reports `OverBudget` exactly when it uses up the whole (non-zero)
/// daily limit.
pub proof fn lemma_over_budget_state_means_limit_reached(b: BudgetView, amount: nat)
    requires
        b.valid(),
        b.spend_result(amount) is Ok,
    ensures
        (b.spend_result(amount) == Ok::<BudgetState, BudgetError>(BudgetState::OverBudget)) <==> (
        b.daily_limit > 0 && b.spent_today + amount == b.daily_limit),
{
}

/// Starting a new day makes the whole daily limit available again and keeps
/// the month's spending and the record as they were.
pub proof fn lemma_reset_restores_daily_allowance(b: BudgetView, amount: nat)
    requires
        b.valid(),
    ensures
        ({
            let day = BudgetView { spent_today: 0, ..b };
            &&& day.valid()
            &&& minus_or_zero(day.daily_limit, day.spent_today) == b.daily_limit
            &&& day.spent_this_month == b.spent_this_month
            &&& day.transactions == b.transactions
            &&& day.affords(amount) == (!b.frozen && amount <= b.daily_limit)
        }),
{
}

/// Freezing and then unfreezing an unfrozen budget leaves it as it was.
pub proof fn lemma_freeze_unfreeze_round_trip(b: BudgetView)
    requires
        !b.frozen,
    ensures
        (BudgetView { frozen: false, ..(BudgetView { frozen: true, ..b }) }) == b,
{
}

/// What a spend answers, in terms of the day's new total `t` and the daily
/// limit `l`: refused when frozen, or with the would-be total when `t`
/// passes `l`; otherwise `OverBudget` when `t` reaches a non-zero `l`,
/// `ApproachingLimit` with the share used in parts per million (rounded
/// down, so between 800000 and 999999) from eight tenths of `l` up, and
/// `UnderBudget` below that or when `l` is zero.
pub proof fn lemma_spend_reports_share(b: BudgetView, amount: nat)
    requires
        b.valid(),
    ensures
        ({
            let t = b.spent_today + amount;
            let l = b.daily_limit;
            &&& b.frozen ==> b.spend_result(amount) == Err::<BudgetState, BudgetError>(
                BudgetError::Frozen,
            )
            &&& (!b.frozen && t > l) ==> b.spend_result(amount) == Err::<BudgetState, BudgetError>(
                BudgetError::OverBudget { spent: t as u128, limit: l as u64 },
            )
            &&& (!b.frozen && l > 0 && t == l) ==> b.spend_result(amount) == Ok::<
                BudgetState,
                BudgetError,
            >(BudgetState::OverBudget)
            &&& (!b.frozen && l > 0 && t < l && 10 * t >= 8 * l) ==> {
                &&& b.spend_result(amount) == Ok::<BudgetState, BudgetError>(
                    BudgetState::ApproachingLimit((t * 1_000_000 / l) as u64),
                )
                &&& 800_000 <= t * 1_000_000 / l < 1_000_000
            }
            &&& (!b.frozen && t <= l && (l == 0 || 10 * t < 8 * l)) ==> b.spend_result(amount)
                == Ok::<BudgetState, BudgetError>(BudgetState::UnderBudget)
        }),
{
    let t = b.spent_today + amount;
    let l = b.daily_limit;
    if l > 0 && t < l && 10 * t >= 8 * l {
        assert(800_000 * l <= t * 1_000_000) by (nonlinear_arith)
            requires
                10 * t >= 8 * l,
        ;
        assert(800_000 <= t * 1_000_000 / l) by (nonlinear_arith)
            requires
                800_000 * l <= t * 1_000_000,
                l > 0,
        ;
        assert(t * 1_000_000 / l < 1_000_000) by (nonlinear_arith)
            requires
                t < l,
                l > 0,
        ;
    }
}

} // verus!
