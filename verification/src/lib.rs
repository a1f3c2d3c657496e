//! Budgets, escalation ladders and device rebalancing for a fleet of devices
//! ranging from local reflex hardware up to the cloud.
use vstd::prelude::*;

pub mod budget;
pub mod clock;
pub mod escalation;
pub mod rebalance;
pub mod text;
pub mod tier;

pub use budget::{Budget, BudgetError, BudgetReport, BudgetState, Transaction};
pub use clock::UtcTime;
pub use escalation::{EscalationChain, EscalationError, EscalationEvent, EscalationTier};
pub use rebalance::{
    DeviceState, RebalanceDecision, Rebalancer, TaskRequirements, UserPreferences,
};
pub use tier::{Capability, DeviceTier};

verus! {
}
