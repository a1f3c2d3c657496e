# tier_manager

Budgets, escalation ladders and device rebalancing for a fleet of devices that
range from local reflex hardware (`DeviceTier::Reflex`) up to the cloud
(`DeviceTier::Cloud`). The library in `src/` is verified with Verus; `app/`
holds what the verifier does not model.

## Layout

- `src/tier.rs` — device tiers and capabilities, their order and names.
- `src/budget.rs` — `Budget`: daily and monthly spending with a record of every
  accepted spend. The day's total never passes the daily limit, and the month's
  total is always the sum of the record.
- `src/escalation.rs` — `EscalationChain`: a ladder of devices climbed one tier
  at a time, at most one move per cooldown, with an append-only event log and
  per-device escalation counts. The step functions on `ChainView` are the model;
  the proof functions at the end of the file are its laws.
- `src/rebalance.rs` — `Rebalancer`: known devices (ids unique) and the choice of
  where a task runs, when a device goes offline, and what to move back when a
  local device comes online.
- `src/text.rs` — decimal numbers and rounding for the messages.
- `src/clock.rs` — the only calls to the monotonic clock
  (`std::time::Instant`), whose readings are taken as given. The escalation
  steps also accept the readings as arguments (`*_with_elapsed`).
- `app/lib.rs` — `spend_now`, which reads the wall clock (`chrono::Utc::now`)
  and hands the reading to `Budget::spend`; error types with messages
  (`thiserror`); and the trend predictor, whose every step is floating-point
  arithmetic.

## Units

The library works on integers:

- money (limits, amounts, costs) in millionths of the currency unit;
- durations (cooldowns, latencies) in nanoseconds;
- device load and usage shares in parts per million.
